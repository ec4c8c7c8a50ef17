use forth3::input::WordStrBuf;
use forth3::output::OutputBuf;
use forth3::stack::StackError;
use forth3::vm::Forth;
use forth3::word::Word;
use forth3::{CallContext, Error, WordFunc};

fn machine() -> Forth<()> {
    Forth::new(
        16,
        16,
        16,
        (0x1000, 4096),
        WordStrBuf::new(256),
        OutputBuf::new(256),
        (),
        Forth::<()>::full_builtins(),
    )
    .unwrap()
}

fn run(vm: &mut Forth<()>, line: &str) -> Result<(), Error> {
    vm.input.fill(line).unwrap();
    vm.process_line()
}

fn data(vm: &Forth<()>) -> Vec<i32> {
    let n = vm.data_stack.depth();
    (0..n).map(|i| vm.data_stack.try_peek_back_n(n - 1 - i).unwrap().data).collect()
}

fn ret(vm: &Forth<()>) -> Vec<i32> {
    let n = vm.return_stack.depth();
    (0..n).map(|i| vm.return_stack.try_peek_back_n(n - 1 - i).unwrap().data).collect()
}

fn output(vm: &Forth<()>) -> String {
    String::from_utf8(vm.output.as_bytes().to_vec()).unwrap()
}

fn eval(line: &str) -> Vec<i32> {
    let mut vm = machine();
    assert_eq!(run(&mut vm, line), Ok(()));
    data(&vm)
}

#[test]
fn words_of_arithmetic() {
    assert_eq!(eval("2 3 +"), vec![5]);
    assert_eq!(eval("2147483647 1 +"), vec![-2147483648]);
    assert_eq!(eval("7 3 -"), vec![4]);
    assert_eq!(eval("-2147483648 1 -"), vec![2147483647]);
    assert_eq!(eval("6 7 *"), vec![42]);
    assert_eq!(eval("65536 65536 *"), vec![0]);
    assert_eq!(eval("7 2 /"), vec![3]);
    assert_eq!(eval("-7 2 /"), vec![-3]);
    assert_eq!(eval("-2147483648 -1 /"), vec![-2147483648]);
    assert_eq!(eval("7 2 mod"), vec![1]);
    assert_eq!(eval("-7 2 mod"), vec![-1]);
    assert_eq!(eval("7 2 /mod"), vec![1, 3]);
    assert_eq!(eval("-7 abs"), vec![7]);
    assert_eq!(eval("7 abs"), vec![7]);
    assert_eq!(eval("-2147483648 abs"), vec![-2147483648]);
    assert_eq!(eval("7 negate"), vec![-7]);
    assert_eq!(eval("-2147483648 negate"), vec![-2147483648]);
    assert_eq!(eval("3 9 min"), vec![3]);
    assert_eq!(eval("3 9 max"), vec![9]);
    assert_eq!(eval("-3 -9 min"), vec![-9]);
    assert_eq!(eval("-3 -9 max"), vec![-3]);
}

#[test]
fn words_of_scaled_arithmetic() {
    assert_eq!(eval("1000000 1000000 1000 */"), vec![1000000000]);
    assert_eq!(eval("7 3 2 */"), vec![10]);
    assert_eq!(eval("-7 3 2 */"), vec![-10]);
    assert_eq!(eval("7 3 2 */mod"), vec![1, 10]);
    assert_eq!(eval("-7 3 2 */mod"), vec![-1, -10]);
    // the quotient is taken modulo 2^32
    assert_eq!(eval("2147483647 4 1 */"), vec![-4]);
}

#[test]
fn words_of_logic() {
    assert_eq!(eval("0 not"), vec![-1]);
    assert_eq!(eval("5 not"), vec![0]);
    assert_eq!(eval("12 10 and"), vec![8]);
    assert_eq!(eval("-1 255 and"), vec![255]);
    assert_eq!(eval("3 3 ="), vec![-1]);
    assert_eq!(eval("3 4 ="), vec![0]);
    assert_eq!(eval("4 3 >"), vec![-1]);
    assert_eq!(eval("3 4 >"), vec![0]);
    assert_eq!(eval("3 4 <"), vec![-1]);
    assert_eq!(eval("4 3 <"), vec![0]);
    assert_eq!(eval("0 0="), vec![-1]);
    assert_eq!(eval("5 0="), vec![0]);
    assert_eq!(eval("5 0>"), vec![-1]);
    assert_eq!(eval("-5 0>"), vec![0]);
    assert_eq!(eval("-5 0<"), vec![-1]);
    assert_eq!(eval("5 0<"), vec![0]);
}

#[test]
fn words_of_the_stack() {
    assert_eq!(eval("7 8 swap"), vec![8, 7]);
    assert_eq!(eval("7 dup"), vec![7, 7]);
    assert_eq!(eval("7 8 over"), vec![7, 8, 7]);
    assert_eq!(eval("7 8 9 rot"), vec![8, 9, 7]);
    assert_eq!(eval("7 8 drop"), vec![7]);
    assert_eq!(eval("5 6 7 8 2swap"), vec![7, 8, 5, 6]);
    assert_eq!(eval("7 8 2dup"), vec![7, 8, 7, 8]);
    assert_eq!(eval("5 6 7 8 2over"), vec![5, 6, 7, 8, 5, 6]);
    assert_eq!(eval("6 7 8 2drop"), vec![6]);
    assert_eq!(eval("0 1"), vec![0, 1]);
}

#[test]
fn words_of_the_return_stack() {
    let mut vm = machine();
    assert_eq!(run(&mut vm, "7 8 9 d>r 2d>2r"), Ok(()));
    assert_eq!(data(&vm), Vec::<i32>::new());
    assert_eq!(ret(&vm), vec![9, 7, 8]);
    assert_eq!(run(&mut vm, "i i' j"), Ok(()));
    assert_eq!(data(&vm), vec![8, 7, 9]);
    assert_eq!(run(&mut vm, "leave"), Ok(()));
    assert_eq!(ret(&vm), vec![9, 7, 6]);
    assert_eq!(run(&mut vm, "r>d"), Ok(()));
    assert_eq!(data(&vm), vec![8, 7, 9, 6]);
    assert_eq!(ret(&vm), vec![9, 7]);
}

#[test]
fn words_that_write() {
    let mut vm = machine();
    assert_eq!(run(&mut vm, "65 emit 321 emit cr space 3 spaces 0 spaces"), Ok(()));
    assert_eq!(output(&vm), "AA\n    ok.\n");
    vm.output.clear();
    assert_eq!(run(&mut vm, "-7 . -7 u. -2147483648 . 0 ."), Ok(()));
    assert_eq!(output(&vm), "-7 4294967289 -2147483648 0 ok.\n");
    vm.output.clear();
    assert_eq!(run(&mut vm, ".\" Hello, World\" 5 ."), Ok(()));
    assert_eq!(output(&vm), "Hello, World5 ok.\n");
}

#[test]
fn words_of_memory() {
    let mut vm = machine();
    assert_eq!(run(&mut vm, "42 4196 ! 4196 @ 4196 2 w+ 4196 -1 w+"), Ok(()));
    assert_eq!(data(&vm), vec![42, 4204, 4192]);
    assert_eq!(vm.dict_alloc.read_word(4196), Some(Word::data(42)));
    assert_eq!(run(&mut vm, "0 @"), Err(Error::BadAddress));
    assert_eq!(run(&mut vm, "8190 @"), Err(Error::BadAddress));
    assert_eq!(run(&mut vm, "-4 @"), Err(Error::BadAddress));
    assert_eq!(run(&mut vm, "1 8192 !"), Err(Error::BadAddress));
    assert_eq!(run(&mut vm, "1 4095 !"), Err(Error::BadAddress));
    assert_eq!(run(&mut vm, "8188 @"), Ok(()));
}

#[test]
fn words_take_what_they_find_before_they_fail() {
    let mut vm = machine();
    assert_eq!(run(&mut vm, "7 +"), Err(Error::Stack(StackError::StackEmpty)));
    assert_eq!(data(&vm), Vec::<i32>::new());
    assert_eq!(run(&mut vm, "7 8 over over over"), Ok(()));
    assert_eq!(run(&mut vm, "rot rot rot"), Ok(()));
    let mut vm = machine();
    assert_eq!(run(&mut vm, "7 over"), Err(Error::Stack(StackError::StackEmpty)));
    assert_eq!(data(&vm), vec![7]);
    assert_eq!(run(&mut vm, "dup dup dup dup dup dup dup dup dup dup dup dup 8 9"), Ok(()));
    assert_eq!(vm.data_stack.depth(), 15);
    // two cells go, three of the four come back
    assert_eq!(run(&mut vm, "2dup"), Err(Error::Stack(StackError::StackFull)));
    assert_eq!(vm.data_stack.depth(), 16);
    assert_eq!(data(&vm)[12..], [7, 8, 9, 8]);
    assert_eq!(run(&mut vm, "5"), Err(Error::Stack(StackError::StackFull)));
    assert_eq!(run(&mut vm, "0="), Err(Error::Stack(StackError::StackFull)));
    assert_eq!(run(&mut vm, "dup"), Err(Error::Stack(StackError::StackFull)));
    assert_eq!(data(&vm)[12..], [7, 8, 9, 8]);
    assert_eq!(vm.call_stack.depth(), 0);
}

#[test]
fn words_divide_by_zero() {
    let mut vm = machine();
    assert_eq!(run(&mut vm, "5 7 0 /"), Err(Error::DivideByZero));
    assert_eq!(data(&vm), vec![5]);
    assert_eq!(run(&mut vm, "7 0 mod"), Err(Error::DivideByZero));
    assert_eq!(run(&mut vm, "7 0 /mod"), Err(Error::DivideByZero));
    assert_eq!(run(&mut vm, "7 8 0 */"), Err(Error::DivideByZero));
    assert_eq!(run(&mut vm, "7 8 0 */mod"), Err(Error::DivideByZero));
    assert_eq!(data(&vm), vec![5]);
}

#[test]
fn words_called_directly() {
    let mut vm = machine();
    vm.data_stack.push(Word::data(20)).unwrap();
    vm.data_stack.push(Word::data(22)).unwrap();
    assert_eq!(vm.add(), Ok(()));
    assert_eq!(data(&vm), vec![42]);
    assert_eq!(vm.run_plain(WordFunc::Dup), Ok(()));
    assert_eq!(vm.run_plain(WordFunc::Mul), Ok(()));
    assert_eq!(data(&vm), vec![1764]);
    assert_eq!(vm.run_plain(WordFunc::Interpret), Err(Error::InternalError));
    assert_eq!(vm.take1(), Ok(Word::data(1764)));
    assert_eq!(vm.take1(), Err(Error::Stack(StackError::StackEmpty)));
    assert_eq!(vm.give2(Word::data(1), Word::data(2)), Ok(()));
    assert_eq!(vm.take2(), Ok((Word::data(2), Word::data(1))));
    assert_eq!(vm.interpret(), Err(Error::Stack(StackError::StackEmpty)));
}

#[test]
fn words_with_a_body_of_their_own() {
    let mut vm = machine();
    assert_eq!(vm.add_builtin("Answer", WordFunc::Constant), Ok(()));
    assert_eq!(vm.dict_alloc.bump_write(Word::data(42)), Ok(()));
    assert_eq!(vm.add_builtin("spot", WordFunc::Variable), Ok(()));
    let spot = vm.dict_alloc.cur() as i32;
    assert_eq!(vm.dict_alloc.bump_write(Word::data(0)), Ok(()));
    assert_eq!(run(&mut vm, "answer spot 5 spot ! spot @"), Ok(()));
    assert_eq!(data(&vm), vec![42, spot, 5]);
}

#[test]
fn construction() {
    let vm = machine();
    assert_eq!(vm.data_stack.depth(), 0);
    assert_eq!(vm.call_stack.depth(), 0);
    assert_eq!(vm.run_dict_tail, 0);
    assert_eq!(vm.dict_alloc.used(), 0);
    assert_eq!(vm.dict_alloc.capacity(), 4096);
    assert_eq!(vm.builtins.len(), 56);
    let host = Forth::new(
        1,
        1,
        1,
        (1, 16),
        WordStrBuf::new(8),
        OutputBuf::new(8),
        String::from("host"),
        Vec::new(),
    )
    .unwrap();
    assert_eq!(host.release(), "host");
    let bad = |base: usize, size: usize| {
        Forth::new(1, 1, 1, (base, size), WordStrBuf::new(8), OutputBuf::new(8), (), Vec::new())
            .err()
    };
    assert_eq!(bad(0, 16), Some(Error::InternalError));
    assert_eq!(bad(0x4000_0000, 1), Some(Error::InternalError));
    assert_eq!(bad(0x3FFF_FFFF, 2), Some(Error::InternalError));
    assert_eq!(bad(0x3FFF_FFF0, 16), None);
}

#[test]
fn interpret_leaves_its_frame() {
    let mut vm = machine();
    assert_eq!(run(&mut vm, ": x 7 8 + ; : y 7 0 / 9 ; : z x y ;"), Ok(()));
    let x = vm.find_word("x").unwrap();
    let y = vm.find_word("y").unwrap();
    let z = vm.find_word("z").unwrap();
    vm.set_step_limit(100);
    vm.refill_steps();
    vm.call_stack.push(CallContext { eh: 1, idx: 0, len: 0 }).unwrap();
    vm.call_stack.push(CallContext { eh: x, idx: 0, len: 5 }).unwrap();
    assert_eq!(vm.interpret(), Ok(()));
    assert_eq!(data(&vm), vec![15]);
    assert_eq!(vm.call_stack.depth(), 2);
    assert_eq!(vm.call_stack.try_peek(), Ok(CallContext { eh: x, idx: 5, len: 5 }));
    // the walk is over where the frame stands behind its last cell
    assert_eq!(vm.interpret(), Ok(()));
    assert_eq!(vm.call_stack.depth(), 2);
    // an error leaves the call stack as deep as it was
    vm.call_stack.pop();
    vm.call_stack.push(CallContext { eh: z, idx: 0, len: 2 }).unwrap();
    assert_eq!(vm.interpret(), Err(Error::DivideByZero));
    assert_eq!(vm.call_stack.depth(), 2);
    assert_eq!(vm.call_stack.try_peek().unwrap().eh, z);
    assert_eq!(data(&vm), vec![15, 15]);
    vm.call_stack.pop();
    vm.call_stack.push(CallContext { eh: y, idx: 4, len: 6 }).unwrap();
    assert_eq!(vm.interpret(), Ok(()));
    assert_eq!(data(&vm), vec![15, 15, 9]);
    vm.call_stack.pop();
    vm.set_step_limit(3);
    vm.refill_steps();
    vm.call_stack.push(CallContext { eh: x, idx: 0, len: 5 }).unwrap();
    assert_eq!(vm.interpret(), Err(Error::StepLimitReached));
    assert_eq!(vm.call_stack.depth(), 2);
}

#[test]
fn machine_in_order() {
    let mut vm = machine();
    assert!(vm.is_wf());
    run(&mut vm, ": sq dup * ; 7 sq").unwrap();
    assert!(vm.is_wf());
    assert!(vm.data_stack.is_wf() && vm.dict_alloc.is_wf() && vm.input.is_wf());
    // a chain that starts beyond what the arena has handed out
    vm.run_dict_tail = (vm.dict_alloc.cur() + 4) as u32;
    assert!(!vm.is_wf());
}
