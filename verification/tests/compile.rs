use forth3::dictionary::{BumpError, EntryKind};
use forth3::input::WordStrBuf;
use forth3::output::OutputBuf;
use forth3::vm::{Forth, ASYNC_BASE, BUILTIN_BASE};
use forth3::word::Word;
use forth3::{Error, Lookup, Mode, WordFunc};

fn machine() -> Forth<()> {
    Forth::new(
        16,
        16,
        16,
        (0x1000, 4096),
        WordStrBuf::new(256),
        OutputBuf::new(256),
        (),
        Forth::<()>::full_builtins(),
    )
    .unwrap()
}

fn run(vm: &mut Forth<()>, line: &str) -> Result<(), Error> {
    vm.input.fill(line).unwrap();
    vm.process_line()
}

fn data(vm: &Forth<()>) -> Vec<i32> {
    let n = vm.data_stack.depth();
    (0..n).map(|i| vm.data_stack.try_peek_back_n(n - 1 - i).unwrap().data).collect()
}

fn output(vm: &Forth<()>) -> String {
    String::from_utf8(vm.output.as_bytes().to_vec()).unwrap()
}

fn body(vm: &Forth<()>) -> Vec<i32> {
    let at = vm.run_dict_tail;
    let e = vm.dict_alloc.entry_at::<()>(at).unwrap();
    (0..e.len as usize)
        .map(|i| vm.dict_alloc.read_word(at as usize + 20 + 4 * i).unwrap().data)
        .collect()
}

fn word(vm: &Forth<()>, name: &str) -> i32 {
    vm.find_word(name).unwrap() as i32
}

#[test]
fn compiled_calls_and_literals() {
    let mut vm = machine();
    assert_eq!(run(&mut vm, ": sq dup * ;"), Ok(()));
    assert_eq!(body(&vm), vec![word(&vm, "dup"), word(&vm, "*")]);
    let sq = vm.run_dict_tail;
    assert_eq!(sq, 0x1004);
    let e = vm.dict_alloc.entry_at::<()>(sq).unwrap();
    assert_eq!(vm.dict_alloc.name_at(sq).unwrap().as_bytes(), b"sq");
    assert_eq!(e.kind, EntryKind::Dictionary);
    assert_eq!(e.func, WordFunc::Interpret);
    assert_eq!(e.link, 0);
    assert_eq!(vm.mode, Mode::Run);
    assert_eq!(run(&mut vm, ": quad sq sq 77 -5 + ;"), Ok(()));
    assert_eq!(
        body(&vm),
        vec![sq as i32, sq as i32, word(&vm, "(literal)"), 77, word(&vm, "(literal)"), -5, word(&vm, "+")]
    );
    assert_eq!(vm.dict_alloc.entry_at::<()>(vm.run_dict_tail).unwrap().link, sq);
    assert_eq!(run(&mut vm, "3 quad"), Ok(()));
    assert_eq!(data(&vm), vec![81, 72]);
}

#[test]
fn compiled_if_then_offsets() {
    let mut vm = machine();
    assert_eq!(run(&mut vm, ": t if 7 8 then 9 ;"), Ok(()));
    let lit = word(&vm, "(literal)");
    assert_eq!(
        body(&vm),
        vec![word(&vm, "(jump-zero)"), 5, lit, 7, lit, 8, lit, 9]
    );
    // from cell 0 with the operand 5 to cell 0 + 5 + 1: the cell behind the body
    assert_eq!(run(&mut vm, "0 t"), Ok(()));
    assert_eq!(data(&vm), vec![9]);
    assert_eq!(run(&mut vm, "drop 1 t"), Ok(()));
    assert_eq!(data(&vm), vec![7, 8, 9]);
}

#[test]
fn compiled_if_else_then_offsets() {
    let mut vm = machine();
    assert_eq!(run(&mut vm, ": t if 7 else 8 then ;"), Ok(()));
    let lit = word(&vm, "(literal)");
    assert_eq!(
        body(&vm),
        vec![word(&vm, "(jump-zero)"), 5, lit, 7, word(&vm, "(jmp)"), 3, lit, 8]
    );
    // (jump-zero) at cell 0 leads to cell 6, (jmp) at cell 4 to cell 8, the length
    let cells = body(&vm);
    assert!(0 + cells[1] + 1 <= cells.len() as i32);
    assert_eq!(4 + cells[5] + 1, cells.len() as i32);
    assert_eq!(run(&mut vm, "0 t 1 t -1 t"), Ok(()));
    assert_eq!(data(&vm), vec![8, 7, 7]);
}

#[test]
fn compiled_do_loop_offsets() {
    let mut vm = machine();
    assert_eq!(run(&mut vm, ": c do i loop ;"), Ok(()));
    assert_eq!(
        body(&vm),
        vec![word(&vm, "2d>2r"), word(&vm, "i"), word(&vm, "(jmp-doloop)"), -2]
    );
    // (jmp-doloop) at cell 2 leads to cell 2 - 2 + 1, the first of the body
    assert_eq!(run(&mut vm, "5 2 c"), Ok(()));
    assert_eq!(data(&vm), vec![2, 3, 4]);
    assert_eq!(vm.return_stack.depth(), 0);
}

#[test]
fn compiled_structures_nest() {
    let mut vm = machine();
    assert_eq!(
        run(&mut vm, ": n 3 0 do 2 0 do j 10 * i + dup 11 = if negate then loop loop ;"),
        Ok(())
    );
    let cells = body(&vm);
    let jz = word(&vm, "(jump-zero)");
    let back = word(&vm, "(jmp-doloop)");
    for (k, cell) in cells.iter().enumerate() {
        if *cell == jz || *cell == back {
            let target = k as i32 + cells[k + 1] + 1;
            assert!(0 <= target && target <= cells.len() as i32);
        }
    }
    assert_eq!(run(&mut vm, "n"), Ok(()));
    assert_eq!(data(&vm), vec![0, 1, 10, -11, 20, 21]);
}

#[test]
fn compiled_leave_ends_the_loop() {
    let mut vm = machine();
    assert_eq!(run(&mut vm, ": l 10 0 do i dup 3 = if leave then loop ;"), Ok(()));
    assert_eq!(run(&mut vm, "l"), Ok(()));
    assert_eq!(data(&vm), vec![0, 1, 2, 3]);
}

#[test]
fn compiled_string_literal_layout() {
    let mut vm = machine();
    assert_eq!(run(&mut vm, ": hi .\" Hello\" 7 ;"), Ok(()));
    let cells = body(&vm);
    assert_eq!(cells.len(), 6);
    assert_eq!(cells[0], word(&vm, "(write-str)"));
    assert_eq!(cells[1], 5);
    assert_eq!(cells[2], i32::from_le_bytes(*b"Hell"));
    assert_eq!(cells[3], i32::from_le_bytes(*b"o\0\0\0"));
    assert_eq!(cells[4], word(&vm, "(literal)"));
    assert_eq!(cells[5], 7);
    assert_eq!(run(&mut vm, "hi hi"), Ok(()));
    assert_eq!(output(&vm), "ok.\nHelloHellook.\n");
    assert_eq!(data(&vm), vec![7, 7]);
    assert_eq!(run(&mut vm, ": four .\" abcd\" ;"), Ok(()));
    assert_eq!(body(&vm).len(), 3);
}

#[test]
fn compiled_comments_leave_nothing() {
    let mut vm = machine();
    assert_eq!(run(&mut vm, ": c ( n -- n*n ) dup ( twice) * ;"), Ok(()));
    assert_eq!(body(&vm), vec![word(&vm, "dup"), word(&vm, "*")]);
    assert_eq!(run(&mut vm, "( a comment ) 4 c ( and more"), Ok(()));
    assert_eq!(data(&vm), vec![16]);
}

#[test]
fn compile_errors() {
    let fails = |line: &str| {
        let mut vm = machine();
        run(&mut vm, line).err()
    };
    assert_eq!(fails(":"), Some(Error::ColonCompileMissingName));
    assert_eq!(fails(": x 7"), Some(Error::ColonCompileMissingSemicolon));
    assert_eq!(fails(": x"), Some(Error::ColonCompileMissingSemicolon));
    assert_eq!(fails(": x nope ;"), Some(Error::LookupFailed));
    assert_eq!(fails(": x else ;"), Some(Error::ElseBeforeIf));
    assert_eq!(fails(": x then ;"), Some(Error::ThenBeforeIf));
    assert_eq!(fails(": x loop ;"), Some(Error::LoopBeforeDo));
    assert_eq!(fails(": x if 7 ;"), Some(Error::IfWithoutThen));
    assert_eq!(fails(": x if 7"), Some(Error::IfWithoutThen));
    assert_eq!(fails(": x if 7 else 8 ;"), Some(Error::IfElseWithoutThen));
    assert_eq!(fails(": x if 7 else 8 else 9 then ;"), Some(Error::DuplicateElse));
    assert_eq!(fails(": x do i ;"), Some(Error::DoWithoutLoop));
    assert_eq!(fails(": x do i then ;"), Some(Error::ThenBeforeIf));
    assert_eq!(fails(": x if i loop ;"), Some(Error::LoopBeforeDo));
    assert_eq!(fails(": x .\" abc ;"), Some(Error::LQuoteMissingRQuote));
    assert_eq!(fails(": caf\u{e9} 7 ;"), Some(Error::Bump(BumpError::CantAllocUtf8)));
}

#[test]
fn compile_error_leaves_the_word_undefined() {
    let mut vm = machine();
    assert_eq!(run(&mut vm, ": x 7 nope ;"), Err(Error::LookupFailed));
    assert_eq!(vm.run_dict_tail, 0);
    assert!(vm.dict_alloc.used() > 0);
    assert_eq!(run(&mut vm, "x"), Err(Error::LookupFailed));
    assert_eq!(vm.mode, Mode::Compile);
}

#[test]
fn compile_needs_the_words_it_relies_on() {
    let table = vec![forth3::dictionary::BuiltinEntry::new(":", WordFunc::Colon)];
    let mut vm: Forth<()> =
        Forth::new(4, 4, 4, (0x1000, 256), WordStrBuf::new(64), OutputBuf::new(64), (), table)
            .unwrap();
    assert_eq!(run(&mut vm, ": x 5 ;"), Err(Error::WordNotInDict));
    assert_eq!(run(&mut vm, ": x if then ;"), Err(Error::WordNotInDict));
    assert_eq!(run(&mut vm, ": x do loop ;"), Err(Error::WordNotInDict));
    assert_eq!(run(&mut vm, ": x .\" a\" ;"), Err(Error::WordNotInDict));
    assert_eq!(run(&mut vm, ": x ;"), Ok(()));
    assert_eq!(run(&mut vm, "x"), Ok(()));
}

#[test]
fn compile_runs_out_of_arena() {
    let mut vm: Forth<()> = Forth::new(
        4,
        4,
        4,
        (0x1000, 40),
        WordStrBuf::new(64),
        OutputBuf::new(64),
        (),
        Forth::<()>::full_builtins(),
    )
    .unwrap();
    assert_eq!(run(&mut vm, ": x 7 8 9 ;"), Err(Error::Bump(BumpError::OutOfMemory)));
    assert!(vm.dict_alloc.used() <= vm.dict_alloc.capacity());
    let mut vm: Forth<()> = Forth::new(
        4,
        4,
        4,
        (0x1000, 10),
        WordStrBuf::new(64),
        OutputBuf::new(64),
        (),
        Forth::<()>::full_builtins(),
    )
    .unwrap();
    assert_eq!(run(&mut vm, ": x ;"), Err(Error::Bump(BumpError::OutOfMemory)));
    assert_eq!(run(&mut vm, ": abcdefghijkl ;"), Err(Error::Bump(BumpError::OutOfMemory)));
}

#[test]
fn compile_refuses_a_string_that_is_too_long() {
    let mut vm: Forth<()> = Forth::new(
        4,
        4,
        4,
        (0x1000, 256),
        WordStrBuf::new(70000),
        OutputBuf::new(64),
        (),
        Forth::<()>::full_builtins(),
    )
    .unwrap();
    let mut line = String::from(": x .\" ");
    for _ in 0..65536 {
        line.push('a');
    }
    line.push_str("\" ;");
    assert_eq!(run(&mut vm, &line), Err(Error::LiteralStringTooLong));
}

#[test]
fn lookup_order() {
    let mut vm = machine();
    assert_eq!(vm.lookup(";"), Ok(Lookup::Semicolon));
    assert_eq!(vm.lookup("if"), Ok(Lookup::If));
    assert_eq!(vm.lookup("else"), Ok(Lookup::Else));
    assert_eq!(vm.lookup("then"), Ok(Lookup::Then));
    assert_eq!(vm.lookup("do"), Ok(Lookup::Do));
    assert_eq!(vm.lookup("loop"), Ok(Lookup::Loop));
    assert_eq!(vm.lookup("("), Ok(Lookup::LParen));
    assert_eq!(vm.lookup(".\""), Ok(Lookup::LQuote));
    assert_eq!(vm.lookup("+"), Ok(Lookup::Builtin { bi: 0 }));
    assert_eq!(vm.lookup("(variable)"), Ok(Lookup::Builtin { bi: 55 }));
    assert_eq!(vm.lookup("1"), Ok(Lookup::Builtin { bi: 48 }));
    assert_eq!(vm.lookup("2"), Ok(Lookup::Literal { val: 2 }));
    assert_eq!(vm.lookup("-17"), Ok(Lookup::Literal { val: -17 }));
    assert_eq!(vm.lookup("nope"), Err(Error::LookupFailed));
    assert_eq!(vm.lookup("DUP"), Err(Error::LookupFailed));
    assert_eq!(vm.find_word("+"), Some(BUILTIN_BASE));
    assert_eq!(vm.find_word("nope"), None);
    // a word of the dictionary goes before a builtin and before a number
    assert_eq!(run(&mut vm, ": dup 7 ; : 2 8 ;"), Ok(()));
    assert_eq!(run(&mut vm, "dup 2"), Ok(()));
    assert_eq!(data(&vm), vec![7, 8]);
    assert!(matches!(vm.lookup("dup"), Ok(Lookup::Dict { .. })));
    // the newest definition wins
    assert_eq!(run(&mut vm, ": dup 9 ; dup"), Ok(()));
    assert_eq!(data(&vm), vec![7, 8, 9]);
    assert!(ASYNC_BASE > BUILTIN_BASE);
    assert_eq!(vm.dict_alloc.read_word(0x1000), Some(Word::data(i32::from_le_bytes(*b"dup\0"))));
}

#[test]
fn compiled_comment_inside_a_structure() {
    let mut vm = machine();
    assert_eq!(run(&mut vm, ": c if ( the true side ) 7 else ( the other ) 8 then ;"), Ok(()));
    let lit = word(&vm, "(literal)");
    assert_eq!(
        body(&vm),
        vec![word(&vm, "(jump-zero)"), 5, lit, 7, word(&vm, "(jmp)"), 3, lit, 8]
    );
    assert_eq!(run(&mut vm, ": d 3 0 do ( count ) i loop ;"), Ok(()));
    assert_eq!(run(&mut vm, "1 c 0 c d"), Ok(()));
    assert_eq!(data(&vm), vec![7, 8, 0, 1, 2]);
    // a comment that runs to the end of the line leaves the structure open
    assert_eq!(run(&mut vm, ": e if 7 ( then ;"), Err(Error::IfWithoutThen));
}

#[test]
fn compiled_empty_string_literal() {
    let mut vm = machine();
    assert_eq!(run(&mut vm, ": e .\" \" 7 ;"), Ok(()));
    assert_eq!(body(&vm), vec![word(&vm, "(write-str)"), 0, word(&vm, "(literal)"), 7]);
    vm.output.clear();
    assert_eq!(run(&mut vm, "e"), Ok(()));
    assert_eq!(output(&vm), "ok.\n");
    assert_eq!(data(&vm), vec![7]);
}
