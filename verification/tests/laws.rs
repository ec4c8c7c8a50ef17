use forth3::input::WordStrBuf;
use forth3::output::OutputBuf;
use forth3::vm::Forth;
use forth3::{Error, Lookup, WordFunc};

fn machine() -> Forth<()> {
    Forth::new(
        16,
        16,
        16,
        (0x1000, 4096),
        WordStrBuf::new(256),
        OutputBuf::new(256),
        (),
        Forth::<()>::full_builtins(),
    )
    .unwrap()
}

fn run(vm: &mut Forth<()>, line: &str) -> Result<(), Error> {
    vm.input.fill(line).unwrap();
    vm.process_line()
}

fn data(vm: &Forth<()>) -> Vec<i32> {
    let n = vm.data_stack.depth();
    (0..n).map(|i| vm.data_stack.try_peek_back_n(n - 1 - i).unwrap().data).collect()
}

fn output(vm: &Forth<()>) -> String {
    String::from_utf8(vm.output.as_bytes().to_vec()).unwrap()
}

#[test]
fn forgetting_is_last_in_first_out() {
    let mut vm = machine();
    assert_eq!(run(&mut vm, ": a 1 ;"), Ok(()));
    let after_a = vm.dict_alloc.cur();
    let a = vm.run_dict_tail;
    assert_eq!(run(&mut vm, ": b 2 ; : c 3 ; : d 4 ;"), Ok(()));
    let b = vm.dict_alloc.entry_at::<()>(vm.dict_alloc.entry_at::<()>(vm.run_dict_tail).unwrap().link).unwrap().link;
    assert!(matches!(vm.lookup("b"), Ok(Lookup::Dict { de }) if de == b));
    let used = vm.dict_alloc.cur();
    assert_eq!(run(&mut vm, "forget b"), Ok(()));
    // the cursor stands where the entry of b stood, and what it gave up is zero
    assert_eq!(vm.dict_alloc.cur(), b as usize);
    assert!(vm.dict_alloc.bytes(b as usize, used - b as usize).unwrap().iter().all(|x| *x == 0));
    assert!(vm.dict_alloc.cur() >= after_a);
    assert_eq!(vm.run_dict_tail, a);
    for name in ["b", "c", "d"] {
        assert_eq!(vm.lookup(name), Err(Error::LookupFailed));
    }
    assert!(matches!(vm.lookup("a"), Ok(Lookup::Dict { de }) if de == a));
    assert_eq!(run(&mut vm, "a"), Ok(()));
    assert_eq!(data(&vm), vec![1]);
    assert_eq!(run(&mut vm, "forget a"), Ok(()));
    assert_eq!(vm.run_dict_tail, 0);
    assert_eq!(vm.lookup("a"), Err(Error::LookupFailed));
}

#[test]
fn forgetting_the_newest_of_a_name_brings_back_the_older() {
    let mut vm = machine();
    assert_eq!(run(&mut vm, ": v 1 ; : w 5 ; : v 2 ;"), Ok(()));
    assert_eq!(run(&mut vm, "v"), Ok(()));
    assert_eq!(run(&mut vm, "forget v v"), Ok(()));
    assert_eq!(data(&vm), vec![2, 1]);
    assert_eq!(run(&mut vm, "w"), Ok(()));
    assert_eq!(run(&mut vm, "forget v"), Ok(()));
    assert_eq!(run(&mut vm, "w"), Err(Error::LookupFailed));
}

#[test]
fn call_stack_is_empty_after_a_line() {
    let mut vm = machine();
    assert_eq!(run(&mut vm, ": a 7 ; : b a a ; : c b b 0 / ;"), Ok(()));
    assert_eq!(vm.call_stack.depth(), 0);
    assert_eq!(run(&mut vm, "b a b"), Ok(()));
    assert_eq!(vm.call_stack.depth(), 0);
    assert_eq!(run(&mut vm, "c"), Err(Error::DivideByZero));
    assert_eq!(vm.call_stack.depth(), 0);
    assert_eq!(run(&mut vm, "nope"), Err(Error::LookupFailed));
    assert_eq!(vm.call_stack.depth(), 0);
}

#[test]
fn compiled_and_direct_agree() {
    for tokens in [
        "2 3 + .",
        "7 dup * 1 - dup . 2 / .",
        "65 emit cr 3 spaces -9 abs .",
        "1 2 3 rot swap over . . . .",
        "5 0= 0 0= and not .",
        "1 2 ( their sum ) + ( is written ) .",
        ".\" hello, world\" 3 . .\" !\"",
        ".\" \" 5 .\" abcd\" .\" abcde\" .",
        "4 d>r 6 r>d ( 6 4 ) - .",
    ] {
        let mut direct = machine();
        assert_eq!(run(&mut direct, tokens), Ok(()));
        let mut compiled = machine();
        assert_eq!(run(&mut compiled, &format!(": x {} ;", tokens)), Ok(()));
        assert_eq!(run(&mut compiled, "x"), Ok(()));
        assert_eq!(output(&compiled), format!("ok.\n{}", output(&direct)));
        assert_eq!(data(&compiled), data(&direct));
    }
}

#[test]
fn names_fold_to_lower_case() {
    let mut vm = machine();
    assert_eq!(vm.add_builtin("FOO", WordFunc::Dup), Ok(()));
    let foo = vm.run_dict_tail;
    assert_eq!(vm.lookup("foo"), Ok(Lookup::Dict { de: foo }));
    assert_eq!(vm.lookup("FOO"), Err(Error::LookupFailed));
    assert_eq!(run(&mut vm, "7 FOO Foo foo"), Ok(()));
    assert_eq!(data(&vm), vec![7, 7, 7, 7]);
    assert_eq!(run(&mut vm, ": Twice DUP + ; 4 TWICE twice"), Ok(()));
    assert_eq!(data(&vm)[4..], [16]);
    assert!(matches!(vm.lookup("twice"), Ok(Lookup::Dict { de }) if de == vm.run_dict_tail));
}

#[test]
fn static_names_are_taken_as_they_are() {
    let mut vm = machine();
    assert_eq!(vm.add_builtin_static_name("Keep", WordFunc::Dup), Ok(()));
    assert_eq!(vm.lookup("Keep"), Ok(Lookup::Dict { de: vm.run_dict_tail }));
    assert_eq!(vm.lookup("keep"), Err(Error::LookupFailed));
}

#[test]
fn names_count_up_to_31_bytes() {
    let mut vm = machine();
    assert_eq!(run(&mut vm, ": abcdefghijklmnopqrstuvwxyz0123456789 7 ;"), Ok(()));
    assert_eq!(run(&mut vm, "abcdefghijklmnopqrstuvwxyz01234 abcdefghijklmnopqrstuvwxyz01234zzz"), Ok(()));
    assert_eq!(data(&vm), vec![7, 7]);
    assert_eq!(run(&mut vm, "abcdefghijklmnopqrstuvwxyz0123"), Err(Error::LookupFailed));
}

#[test]
fn reserved_tokens_name_no_word() {
    let mut vm = machine();
    assert_eq!(run(&mut vm, ": if 7 ;"), Ok(()));
    assert_eq!(vm.lookup("if"), Ok(Lookup::If));
    assert_eq!(run(&mut vm, "if"), Err(Error::InterpretingCompileOnlyWord));
}

#[test]
fn compiled_and_direct_agree_on_compiled_words() {
    for tokens in [
        "3 sq .",
        "2 quad 1 + .",
        "5 ( squared twice, and once more ) quad sq .",
        "7 twice twice . 1 quad",
        "2 .\" the square of \" dup . .\" is \" sq . greet",
    ] {
        let mut direct = machine();
        let mut compiled = machine();
        for vm in [&mut direct, &mut compiled] {
            assert_eq!(run(vm, ": sq dup * ;"), Ok(()));
            assert_eq!(run(vm, ": quad sq ( and again ) sq ;"), Ok(()));
            assert_eq!(run(vm, ": twice 2 * ;"), Ok(()));
            assert_eq!(run(vm, ": greet .\" hi\" cr ;"), Ok(()));
        }
        assert_eq!(run(&mut direct, tokens), Ok(()));
        assert_eq!(run(&mut compiled, &format!(": x {} ;", tokens)), Ok(()));
        assert_eq!(run(&mut compiled, "x"), Ok(()));
        let defined = "ok.\nok.\nok.\nok.\n";
        assert_eq!(
            output(&compiled),
            format!("{}ok.\n{}", defined, &output(&direct)[defined.len()..])
        );
        assert_eq!(data(&compiled), data(&direct));
    }
}

#[test]
fn compiled_and_direct_fail_alike() {
    for tokens in ["1 drop drop 5", "2 sq sq 0 / 7", "1 half3 9"] {
        let mut direct = machine();
        let mut compiled = machine();
        for vm in [&mut direct, &mut compiled] {
            assert_eq!(run(vm, ": sq dup * ;"), Ok(()));
            assert_eq!(run(vm, ": half3 2 / + ;"), Ok(()));
        }
        let d = run(&mut direct, tokens);
        assert!(d.is_err());
        assert_eq!(run(&mut compiled, &format!(": x {} ;", tokens)), Ok(()));
        assert_eq!(run(&mut compiled, "x"), d);
        assert_eq!(data(&compiled), data(&direct));
    }
}

#[test]
fn memory_words_see_the_definition() {
    // the arena starts at 0x1000: a definition puts its name there
    let mut direct = machine();
    assert_eq!(run(&mut direct, "4096 @ ."), Ok(()));
    assert_eq!(output(&direct), "0 ok.\n");
    let mut compiled = machine();
    assert_eq!(run(&mut compiled, ": x 4096 @ . ;"), Ok(()));
    assert_eq!(run(&mut compiled, "x"), Ok(()));
    assert_eq!(output(&compiled), "ok.\n120 ok.\n");
}
