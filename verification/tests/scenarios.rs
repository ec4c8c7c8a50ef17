use forth3::input::WordStrBuf;
use forth3::output::OutputBuf;
use forth3::vm::Forth;
use forth3::Error;

fn machine() -> Forth<()> {
    Forth::new(
        64,
        64,
        64,
        (0x1000, 4096),
        WordStrBuf::new(256),
        OutputBuf::new(256),
        (),
        Forth::<()>::full_builtins(),
    )
    .unwrap()
}

fn run(vm: &mut Forth<()>, line: &str) -> Result<(), Error> {
    vm.input.fill(line).unwrap();
    vm.process_line()
}

fn output(vm: &Forth<()>) -> String {
    String::from_utf8(vm.output.as_bytes().to_vec()).unwrap()
}

#[test]
fn scenario_add_and_print() {
    let mut vm = machine();
    assert_eq!(run(&mut vm, "2 3 + ."), Ok(()));
    assert_eq!(output(&vm), "5 ok.\n");
}

#[test]
fn scenario_square() {
    let mut vm = machine();
    assert_eq!(run(&mut vm, ": sq dup * ;"), Ok(()));
    assert_eq!(run(&mut vm, "5 sq ."), Ok(()));
    assert_eq!(output(&vm), "ok.\n25 ok.\n");
}

#[test]
fn scenario_if_then() {
    let mut vm = machine();
    assert_eq!(run(&mut vm, ": abs? dup 0 < if negate then ;"), Ok(()));
    assert_eq!(run(&mut vm, "-7 abs? ."), Ok(()));
    assert_eq!(output(&vm), "ok.\n7 ok.\n");
}

#[test]
fn scenario_do_loop() {
    let mut vm = machine();
    assert_eq!(run(&mut vm, ": cnt 5 0 do i . loop ;"), Ok(()));
    assert_eq!(run(&mut vm, "cnt"), Ok(()));
    assert_eq!(output(&vm), "ok.\n0 1 2 3 4 ok.\n");
}

#[test]
fn scenario_string_literal() {
    let mut vm = machine();
    assert_eq!(run(&mut vm, ": hi .\" hello\" ;"), Ok(()));
    assert_eq!(run(&mut vm, "hi"), Ok(()));
    assert_eq!(output(&vm), "ok.\nhellook.\n");
}

#[test]
fn scenario_forget() {
    let mut vm = machine();
    assert_eq!(run(&mut vm, ": x 1 ;"), Ok(()));
    assert_eq!(run(&mut vm, "forget x"), Ok(()));
    assert_eq!(run(&mut vm, "x"), Err(Error::LookupFailed));
    assert_eq!(output(&vm), "ok.\nok.\n");
}

#[test]
fn scenario_divide_by_zero() {
    let mut vm = machine();
    assert_eq!(run(&mut vm, "1 0 /"), Err(Error::DivideByZero));
    assert_eq!(output(&vm), "");
}
