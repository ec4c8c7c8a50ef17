use forth3::dictionary::{AsyncBuiltinEntry, BumpError};
use forth3::input::WordStrBuf;
use forth3::output::{OutputBuf, OutputError};
use forth3::stack::StackError;
use forth3::vm::builtins::Target;
use forth3::vm::{Forth, BUILTIN_BASE};
use forth3::word::Word;
use forth3::{CallContext, Error, WordFunc};

fn machine() -> Forth<()> {
    Forth::new(
        16,
        16,
        16,
        (0x1000, 4096),
        WordStrBuf::new(256),
        OutputBuf::new(256),
        (),
        Forth::<()>::full_builtins(),
    )
    .unwrap()
}

fn sized(cstack: usize, out: usize) -> Forth<()> {
    Forth::new(
        4,
        4,
        cstack,
        (0x1000, 4096),
        WordStrBuf::new(256),
        OutputBuf::new(out),
        (),
        Forth::<()>::full_builtins(),
    )
    .unwrap()
}

fn run(vm: &mut Forth<()>, line: &str) -> Result<(), Error> {
    vm.input.fill(line).unwrap();
    vm.process_line()
}

fn data(vm: &Forth<()>) -> Vec<i32> {
    let n = vm.data_stack.depth();
    (0..n).map(|i| vm.data_stack.try_peek_back_n(n - 1 - i).unwrap().data).collect()
}

#[test]
fn error_unknown_word() {
    let mut vm = machine();
    assert_eq!(run(&mut vm, "7 nope 8"), Err(Error::LookupFailed));
    assert_eq!(data(&vm), vec![7]);
    // the line ends where the error came about
    assert_eq!(vm.process_line(), Ok(()));
    assert_eq!(data(&vm), vec![7, 8]);
}

#[test]
fn error_compile_only_words() {
    for token in [";", "if", "else", "then", "do", "loop"] {
        let mut vm = machine();
        assert_eq!(run(&mut vm, token), Err(Error::InterpretingCompileOnlyWord));
    }
}

#[test]
fn error_bad_string_literal() {
    let mut vm = machine();
    assert_eq!(run(&mut vm, ".\" no end"), Err(Error::BadStrLiteral));
    assert_eq!(vm.output.as_bytes(), b"");
}

#[test]
fn error_forget() {
    let mut vm = machine();
    assert_eq!(run(&mut vm, "forget"), Err(Error::ForgetWithoutWordName));
    assert_eq!(run(&mut vm, "forget nope"), Err(Error::ForgetNotInDict));
    assert_eq!(run(&mut vm, "forget dup"), Err(Error::CantForgetBuiltins));
}

#[test]
fn error_negative_count() {
    let mut vm = machine();
    assert_eq!(run(&mut vm, "-1 spaces"), Err(Error::LoopCountIsNegative));
    assert_eq!(vm.output.as_bytes(), b"");
}

#[test]
fn error_output_full() {
    let mut vm = sized(4, 1);
    assert_eq!(run(&mut vm, "5 ."), Err(Error::Output(OutputError::Full)));
    assert_eq!(vm.output.as_bytes(), b"");
    assert_eq!(run(&mut vm, "65 emit 66 emit"), Err(Error::Output(OutputError::Full)));
    assert_eq!(vm.output.as_bytes(), b"A");
    let mut vm = sized(4, 3);
    assert_eq!(run(&mut vm, "5 spaces"), Err(Error::Output(OutputError::Full)));
    assert_eq!(vm.output.as_bytes(), b"   ");
    let mut vm = sized(4, 3);
    assert_eq!(run(&mut vm, ".\" abcd\""), Err(Error::Output(OutputError::Full)));
    assert_eq!(vm.output.as_bytes(), b"");
}

#[test]
fn error_no_room_for_ok() {
    let mut vm = sized(4, 2);
    assert_eq!(run(&mut vm, "5 ."), Err(Error::Output(OutputError::FormattingErr)));
    assert_eq!(vm.output.as_bytes(), b"5 ");
}

#[test]
fn error_call_stack_full() {
    let mut vm = sized(3, 64);
    assert_eq!(run(&mut vm, ": a 7 ; : b a ; : c b ;"), Ok(()));
    assert_eq!(run(&mut vm, "b"), Ok(()));
    assert_eq!(run(&mut vm, "c"), Err(Error::Stack(StackError::StackFull)));
    assert_eq!(vm.call_stack.depth(), 0);
    let mut vm = sized(0, 64);
    assert_eq!(run(&mut vm, "dup"), Err(Error::Stack(StackError::StackFull)));
}

#[test]
fn error_step_limit() {
    let mut vm = machine();
    assert_eq!(run(&mut vm, ": spin 1000000 0 do loop ;"), Ok(()));
    vm.set_step_limit(1000);
    assert_eq!(run(&mut vm, "spin"), Err(Error::StepLimitReached));
    assert_eq!(vm.call_stack.depth(), 0);
    assert_eq!(vm.steps_left, 0);
    // every line starts with the whole budget
    assert_eq!(run(&mut vm, "7 8 +"), Ok(()));
    assert_eq!(vm.steps_left, 999);
    vm.set_step_limit(0);
    assert_eq!(run(&mut vm, "7"), Ok(()));
    assert_eq!(run(&mut vm, "dup"), Err(Error::StepLimitReached));
}

#[test]
fn error_cells_that_name_nothing() {
    let mut vm = machine();
    assert_eq!(run(&mut vm, ": x 7 ;"), Ok(()));
    let body = vm.run_dict_tail as usize + 20;
    assert!(vm.dict_alloc.write_word(body, Word::data(0)));
    assert_eq!(run(&mut vm, "x"), Err(Error::NullPointerInCFA));
    assert!(vm.dict_alloc.write_word(body, Word::data(-8)));
    assert_eq!(run(&mut vm, "x"), Err(Error::CFANotInDict));
    assert!(vm.dict_alloc.write_word(body, Word::data(0x2000)));
    assert_eq!(run(&mut vm, "x"), Err(Error::CFANotInDict));
    assert!(vm.dict_alloc.write_word(body, Word::data(BUILTIN_BASE as i32 + 56)));
    assert_eq!(run(&mut vm, "x"), Err(Error::CFANotInDict));
    assert!(vm.dict_alloc.write_word(body, Word::data(0x7FFF_FFFF)));
    assert_eq!(run(&mut vm, "x"), Err(Error::CFANotInDict));
    assert_eq!(vm.call_stack.depth(), 0);
    assert_eq!(vm.resolve(0), Err(Error::NullPointerInCFA));
    assert_eq!(vm.resolve(BUILTIN_BASE), Ok(Target::Word { func: WordFunc::Add, len: 0 }));
    assert_eq!(
        vm.resolve(vm.run_dict_tail),
        Ok(Target::Word { func: WordFunc::Interpret, len: 2 })
    );
}

#[test]
fn error_word_forgets_itself() {
    let mut vm = machine();
    assert_eq!(run(&mut vm, ": y forget ;"), Ok(()));
    assert_eq!(run(&mut vm, "y y"), Err(Error::CFANotInDict));
    assert_eq!(vm.call_stack.depth(), 0);
    assert_eq!(run(&mut vm, "y"), Err(Error::LookupFailed));
}

#[test]
fn error_operand_words_without_a_caller() {
    let mut vm = machine();
    for word in ["(literal)", "(jmp)", "(write-str)"] {
        assert_eq!(run(&mut vm, word), Err(Error::Stack(StackError::StackEmpty)));
    }
    assert_eq!(run(&mut vm, "0 (jump-zero)"), Err(Error::Stack(StackError::StackEmpty)));
    assert_eq!(run(&mut vm, "(jmp-doloop)"), Err(Error::Stack(StackError::StackEmpty)));
    assert_eq!(vm.call_stack.depth(), 0);
    assert_eq!(vm.skip_literal(), Err(Error::Stack(StackError::StackEmpty)));
    assert_eq!(vm.constant(), Err(Error::Stack(StackError::StackEmpty)));
    assert_eq!(vm.variable(), Err(Error::Stack(StackError::StackEmpty)));
}

#[test]
fn error_operand_outside_the_body() {
    let mut vm = machine();
    vm.call_stack.push(CallContext { eh: 0x1000, idx: 0, len: 1 }).unwrap();
    vm.call_stack.push(CallContext { eh: BUILTIN_BASE, idx: 0, len: 0 }).unwrap();
    assert_eq!(vm.literal(), Err(Error::BadCfaOffset));
    assert_eq!(vm.jump(), Err(Error::BadCfaOffset));
    assert_eq!(vm.write_str_lit(), Err(Error::BadCfaOffset));
    assert_eq!(vm.skip_literal(), Ok(()));
    assert_eq!(vm.call_stack.try_peek_back_n(1).unwrap().idx, 1);
    vm.call_stack.clear();
    vm.call_stack.push(CallContext { eh: 0x1000, idx: 65535, len: 65535 }).unwrap();
    vm.call_stack.push(CallContext { eh: BUILTIN_BASE, idx: 0, len: 0 }).unwrap();
    assert_eq!(vm.skip_literal(), Err(Error::BadCfaOffset));
    vm.call_stack.clear();
    vm.call_stack.push(CallContext { eh: 0x3FFF_0000, idx: 0, len: 4 }).unwrap();
    vm.call_stack.push(CallContext { eh: BUILTIN_BASE, idx: 0, len: 0 }).unwrap();
    assert_eq!(vm.literal(), Err(Error::BadAddress));
    assert_eq!(vm.constant(), Err(Error::BadAddress));
    vm.call_stack.clear();
    vm.call_stack.push(CallContext { eh: 0x7FFF_FFF0, idx: 0, len: 0 }).unwrap();
    assert_eq!(vm.variable(), Err(Error::BadAddress));
}

#[test]
fn error_call_stack_corrupted() {
    let mut vm = machine();
    assert_eq!(vm.finish(0), Err(Error::CallStackCorrupted));
    assert_eq!(vm.step(0), Err(Error::CallStackCorrupted));
}

#[test]
fn error_jump_out_of_range() {
    let mut vm = machine();
    assert_eq!(run(&mut vm, ": x 7 8 ;"), Ok(()));
    let body = vm.run_dict_tail as usize + 20;
    let jmp = vm.find_word("(jmp)").unwrap() as i32;
    assert!(vm.dict_alloc.write_word(body, Word::data(jmp)));
    assert!(vm.dict_alloc.write_word(body + 4, Word::data(-5)));
    assert_eq!(run(&mut vm, "x"), Err(Error::BadCfaOffset));
    assert!(vm.dict_alloc.write_word(body + 4, Word::data(70000)));
    assert_eq!(run(&mut vm, "x"), Err(Error::BadCfaOffset));
    assert!(vm.dict_alloc.write_word(body + 4, Word::data(1)));
    assert_eq!(run(&mut vm, "x"), Ok(()));
    assert_eq!(data(&vm), vec![8]);
}

#[test]
fn error_host_word_in_a_machine_without_host() {
    let mut vm: Forth<()> = Forth::new_async(
        4,
        4,
        4,
        (0x1000, 256),
        WordStrBuf::new(64),
        OutputBuf::new(64),
        (),
        Forth::<()>::full_builtins(),
        vec![AsyncBuiltinEntry::new("sleep")],
    )
    .unwrap();
    assert_eq!(run(&mut vm, "sleep"), Err(Error::PendingCallAgain));
    assert_eq!(vm.call_stack.depth(), 0);
    assert_eq!(run(&mut vm, ": nap sleep ;"), Ok(()));
    assert_eq!(run(&mut vm, "nap"), Err(Error::PendingCallAgain));
}

#[test]
fn error_adding_builtins() {
    let mut vm: Forth<()> = Forth::new(
        4,
        4,
        4,
        (0x1000, 30),
        WordStrBuf::new(64),
        OutputBuf::new(64),
        (),
        Vec::new(),
    )
    .unwrap();
    assert_eq!(vm.add_builtin("caf\u{e9}", WordFunc::Dup), Err(Error::Bump(BumpError::CantAllocUtf8)));
    assert_eq!(vm.add_builtin("", WordFunc::Dup), Err(Error::Bump(BumpError::OutOfMemory)));
    assert_eq!(vm.dict_alloc.used(), 0);
    assert_eq!(vm.add_builtin("copy", WordFunc::Dup), Ok(()));
    assert_eq!(vm.dict_alloc.used(), 24);
    assert_eq!(vm.add_builtin("x", WordFunc::Dup), Err(Error::Bump(BumpError::OutOfMemory)));
    assert_eq!(vm.run_dict_tail, 0x1004);
    assert_eq!(run(&mut vm, "7"), Ok(()));
    assert_eq!(run(&mut vm, "copy"), Ok(()));
    assert_eq!(data(&vm), vec![7, 7]);
}
