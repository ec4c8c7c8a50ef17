use forth3::dictionary::AsyncBuiltinEntry;
use forth3::fastr::FaStr;
use forth3::input::WordStrBuf;
use forth3::output::OutputBuf;
use forth3::stack::StackError;
use forth3::vm::async_vm::{AsyncForth, DispatchAsync, ProcessAction, Step, Turn};
use forth3::vm::Forth;
use forth3::word::Word;
use forth3::{Error, WordFunc};
use std::cell::Cell;

struct Host {
    attempts: Cell<u32>,
}

impl DispatchAsync<u32> for Host {
    fn async_builtins(&self) -> Vec<AsyncBuiltinEntry<u32>> {
        vec![
            AsyncBuiltinEntry::new("sleep"),
            AsyncBuiltinEntry::new("count"),
            AsyncBuiltinEntry::new("fail"),
            AsyncBuiltinEntry::new("half"),
        ]
    }

    fn dispatch_async(&self, id: &FaStr<'static>, forth: &mut Forth<u32>) -> Result<(), Error> {
        self.attempts.set(self.attempts.get() + 1);
        match id.as_bytes() {
            b"sleep" => {
                // done at the third attempt
                if self.attempts.get() % 3 == 0 {
                    Ok(())
                } else {
                    Err(Error::PendingCallAgain)
                }
            }
            b"count" => {
                forth.host_ctxt += 1;
                forth.give1(Word::data(forth.host_ctxt as i32))
            }
            b"half" => {
                let a = forth.take1()?;
                let x = f32::from_bits(a.data as u32) / 2.0;
                forth.give1(Word::data(x.to_bits() as i32))
            }
            _ => Err(Error::InternalError),
        }
    }
}

fn machine() -> AsyncForth<u32, Host> {
    AsyncForth::new(
        8,
        8,
        8,
        (0x1000, 1024),
        WordStrBuf::new(128),
        OutputBuf::new(128),
        0u32,
        Forth::<u32>::full_builtins(),
        Host { attempts: Cell::new(0) },
    )
    .unwrap()
}

fn run(vm: &mut AsyncForth<u32, Host>, line: &str) -> Result<(), Error> {
    vm.vm.input.fill(line).unwrap();
    vm.process_line()
}

fn data(vm: &AsyncForth<u32, Host>) -> Vec<i32> {
    let n = vm.vm.data_stack.depth();
    (0..n).map(|i| vm.vm.data_stack.try_peek_back_n(n - 1 - i).unwrap().data).collect()
}

#[test]
fn async_words_of_the_machine_run_as_ever() {
    let mut vm = machine();
    assert_eq!(run(&mut vm, ": sq dup * ; 2 3 + sq ."), Ok(()));
    assert_eq!(vm.output().as_bytes(), b"25 ok.\n");
    assert_eq!(vm.builtins.attempts.get(), 0);
    assert_eq!(vm.vm.call_stack.depth(), 0);
}

#[test]
fn async_words_of_the_host_are_handed_to_the_host() {
    let mut vm = machine();
    assert_eq!(run(&mut vm, "count count +"), Ok(()));
    assert_eq!(data(&vm), vec![3]);
    assert_eq!(vm.builtins.attempts.get(), 2);
    assert_eq!(run(&mut vm, ": three count count count ; three"), Ok(()));
    assert_eq!(data(&vm), vec![3, 3, 4, 5]);
    assert_eq!(vm.vm.host_ctxt, 5);
    assert_eq!(vm.vm.call_stack.depth(), 0);
}

#[test]
fn async_pending_word_is_attempted_again() {
    let mut vm = machine();
    assert_eq!(run(&mut vm, "7 sleep 8"), Ok(()));
    assert_eq!(vm.builtins.attempts.get(), 3);
    assert_eq!(data(&vm), vec![7, 8]);
    assert_eq!(vm.vm.call_stack.depth(), 0);
}

#[test]
fn async_float_words_live_with_the_host() {
    let mut vm = machine();
    vm.vm.data_stack.push(Word::data(3.0f32.to_bits() as i32)).unwrap();
    assert_eq!(run(&mut vm, "half"), Ok(()));
    assert_eq!(f32::from_bits(data(&vm)[0] as u32), 1.5);
}

#[test]
fn async_error_clears_the_stacks() {
    let mut vm = machine();
    assert_eq!(run(&mut vm, "7 8 d>r fail 9"), Err(Error::InternalError));
    assert_eq!(vm.vm.data_stack.depth(), 0);
    assert_eq!(vm.vm.return_stack.depth(), 0);
    assert_eq!(vm.vm.call_stack.depth(), 0);
    assert_eq!(run(&mut vm, "7 8 : x 9 0 / ; x"), Err(Error::DivideByZero));
    assert_eq!(vm.vm.data_stack.depth(), 0);
    assert_eq!(vm.vm.call_stack.depth(), 0);
    assert_eq!(run(&mut vm, "half"), Err(Error::Stack(StackError::StackEmpty)));
    assert_eq!(run(&mut vm, "nope"), Err(Error::LookupFailed));
    assert_eq!(vm.output().as_bytes(), b"");
}

#[test]
fn async_step_limit_counts_attempts() {
    let mut vm = machine();
    vm.vm.set_step_limit(2);
    assert_eq!(run(&mut vm, "sleep"), Err(Error::StepLimitReached));
    assert_eq!(vm.builtins.attempts.get(), 2);
    assert_eq!(vm.vm.call_stack.depth(), 0);
}

#[test]
fn async_single_steps() {
    let mut vm = machine();
    assert_eq!(vm.async_pig(), Ok(Step::Done));
    vm.vm.input.fill("7 ( c ) sleep nope").unwrap();
    assert_eq!(vm.vm.start_processing_line(), Ok(ProcessAction::Continue));
    assert_eq!(vm.vm.start_processing_line(), Ok(ProcessAction::Continue));
    assert_eq!(vm.vm.start_processing_line(), Ok(ProcessAction::Execute));
    assert_eq!(vm.vm.call_stack.depth(), 1);
    assert_eq!(vm.async_pig(), Ok(Step::NotDone));
    assert_eq!(vm.vm.call_stack.depth(), 1);
    assert_eq!(vm.async_pig(), Ok(Step::NotDone));
    assert_eq!(vm.async_pig(), Ok(Step::NotDone));
    assert_eq!(vm.vm.call_stack.depth(), 0);
    assert_eq!(vm.async_pig(), Ok(Step::Done));
    assert_eq!(vm.vm.start_processing_line(), Err(Error::LookupFailed));
    assert_eq!(vm.vm.start_processing_line(), Ok(ProcessAction::Done));
}

#[test]
fn async_after_host() {
    let mut vm = machine();
    vm.vm.input.fill(": w count ; w").unwrap();
    assert_eq!(vm.vm.start_processing_line(), Ok(ProcessAction::Execute));
    assert_eq!(vm.async_pig(), Ok(Step::NotDone));
    assert_eq!(vm.vm.start_processing_line(), Ok(ProcessAction::Execute));
    assert_eq!(vm.async_pig(), Ok(Step::NotDone));
    assert_eq!(vm.vm.call_stack.depth(), 2);
    // a pending word stays, a failed one ends the line, one that is done
    // leaves and steps its caller
    assert_eq!(vm.vm.after_host(Err(Error::PendingCallAgain), 0), Ok(()));
    assert_eq!(vm.vm.call_stack.depth(), 2);
    assert_eq!(vm.vm.after_host(Err(Error::DivideByZero), 0), Err(Error::DivideByZero));
    assert_eq!(vm.vm.call_stack.depth(), 2);
    assert_eq!(vm.vm.after_host(Ok(()), 0), Ok(()));
    assert_eq!(vm.vm.call_stack.depth(), 1);
    assert_eq!(vm.vm.call_stack.try_peek().unwrap().idx, 1);
    vm.vm.clear_stacks();
    assert_eq!(vm.vm.call_stack.depth(), 0);
}

#[test]
fn async_sync_builtins_can_be_added() {
    let mut vm = machine();
    assert_eq!(vm.add_sync_builtin("Twin", WordFunc::Dup), Ok(()));
    assert_eq!(vm.add_sync_builtin_static_name("same", WordFunc::Dup), Ok(()));
    assert_eq!(run(&mut vm, "7 twin same"), Ok(()));
    assert_eq!(data(&vm), vec![7, 7, 7]);
}

#[test]
fn async_buffers_can_be_reached() {
    let mut vm = machine();
    vm.input_mut().fill("7 .").unwrap();
    assert_eq!(vm.process_line(), Ok(()));
    assert_eq!(vm.output().as_bytes(), b"7 ok.\n");
    vm.output_mut().clear();
    assert_eq!(vm.output().as_bytes(), b"");
}

#[test]
fn async_turns() {
    let mut vm = machine();
    assert_eq!(vm.vm.turn(), Ok(Turn::Done));
    vm.vm.input.fill(": w 7 sleep ; w").unwrap();
    assert_eq!(vm.vm.start_processing_line(), Ok(ProcessAction::Execute));
    assert_eq!(vm.vm.turn(), Ok(Turn::Stepped));
    assert_eq!(vm.vm.start_processing_line(), Ok(ProcessAction::Execute));
    assert_eq!(vm.vm.turn(), Ok(Turn::Stepped));
    assert_eq!(vm.vm.turn(), Ok(Turn::Stepped));
    assert_eq!(vm.vm.turn(), Ok(Turn::Stepped));
    assert_eq!(vm.vm.turn(), Ok(Turn::Host { index: 0 }));
    assert_eq!(vm.vm.host_name(0).unwrap().as_bytes(), b"sleep");
    assert_eq!(vm.vm.host_name(1).unwrap().as_bytes(), b"count");
    assert!(vm.vm.host_name(4).is_none());
    assert_eq!(vm.vm.after_host(Ok(()), 0), Ok(()));
    assert_eq!(vm.vm.turn(), Ok(Turn::Stepped));
    assert_eq!(vm.vm.turn(), Ok(Turn::Done));
    vm.vm.set_step_limit(0);
    vm.vm.refill_steps();
    vm.vm.input.fill("w").unwrap();
    assert_eq!(vm.vm.start_processing_line(), Ok(ProcessAction::Execute));
    assert_eq!(vm.vm.turn(), Err(Error::StepLimitReached));
}

#[test]
fn async_success_ends_with_ok() {
    let mut vm = machine();
    assert_eq!(run(&mut vm, "count . sleep count ."), Ok(()));
    assert!(vm.output().as_bytes().ends_with(b"ok.\n"));
    assert_eq!(vm.output().as_bytes(), b"1 2 ok.\n");
}
