use forth3::input::{FillError, StrLiteralError, WordStrBuf};
use forth3::number::{decimal_len, parse_num, push_decimal};
use forth3::output::{OutputBuf, OutputError};
use forth3::stack::{Stack, StackError};
use forth3::word::{wrap_i64, wrapping_div, wrapping_rem, Word};
use forth3::CallContext;
use forth3::Error;

#[test]
fn stack_is_last_in_first_out() {
    let mut s: Stack<Word> = Stack::new(3);
    assert_eq!(s.capacity(), 3);
    assert_eq!(s.push(Word::data(1)), Ok(()));
    assert_eq!(s.push(Word::data(2)), Ok(()));
    assert_eq!(s.push(Word::data(3)), Ok(()));
    assert_eq!(s.push(Word::data(4)), Err(StackError::StackFull));
    assert_eq!(s.depth(), 3);
    assert_eq!(s.try_peek(), Ok(Word::data(3)));
    assert_eq!(s.try_peek_back_n(2), Ok(Word::data(1)));
    assert_eq!(s.try_peek_back_n(3), Err(StackError::StackEmpty));
    assert_eq!(s.overwrite_back_n(1, Word::data(20)), Ok(()));
    assert_eq!(s.overwrite_back_n(3, Word::data(0)), Err(StackError::OverwriteInvalid));
    assert_eq!(s.try_pop(), Ok(Word::data(3)));
    assert_eq!(s.pop(), Some(Word::data(20)));
    assert_eq!(s.try_pop(), Ok(Word::data(1)));
    assert_eq!(s.try_pop(), Err(StackError::StackEmpty));
    assert_eq!(s.pop(), None);
    assert_eq!(s.try_peek(), Err(StackError::StackEmpty));
}

#[test]
fn stack_clear_empties() {
    let mut s: Stack<Word> = Stack::new(2);
    s.push(Word::data(1)).unwrap();
    s.clear();
    assert_eq!(s.depth(), 0);
    assert_eq!(s.push(Word::data(1)), Ok(()));
}

#[test]
fn stack_of_no_capacity_is_always_full() {
    let mut s: Stack<Word> = Stack::new(0);
    assert_eq!(s.push(Word::data(1)), Err(StackError::StackFull));
}

#[test]
fn word_views() {
    assert_eq!(Word::data(-5).data, -5);
    assert_eq!(Word::ptr(0x1234).data, 0x1234);
    assert_eq!(Word::ptr(0x1234).addr(), Some(0x1234));
    assert_eq!(Word::data(-1).addr(), None);
    assert!(Word::data(0).is_zero());
    assert!(!Word::data(1).is_zero());
}

#[test]
fn word_division_rounds_toward_zero() {
    assert_eq!(wrapping_div(7, 2), 3);
    assert_eq!(wrapping_div(-7, 2), -3);
    assert_eq!(wrapping_div(7, -2), -3);
    assert_eq!(wrapping_div(-7, -2), 3);
    assert_eq!(wrapping_div(i32::MIN, -1), i32::MIN);
    assert_eq!(wrapping_rem(7, 2), 1);
    assert_eq!(wrapping_rem(-7, 2), -1);
    assert_eq!(wrapping_rem(7, -2), 1);
    assert_eq!(wrapping_rem(i32::MIN, -1), 0);
}

#[test]
fn word_wraps_64_bits_to_32() {
    assert_eq!(wrap_i64(5), 5);
    assert_eq!(wrap_i64(-5), -5);
    assert_eq!(wrap_i64(0x1_0000_0005), 5);
    assert_eq!(wrap_i64(0x8000_0000), i32::MIN);
    assert_eq!(wrap_i64(-0x8000_0001), i32::MAX);
}

#[test]
fn call_context_offset() {
    let mut c = CallContext { eh: 1, idx: 5, len: 10 };
    assert_eq!(c.offset(3), Ok(()));
    assert_eq!(c.idx, 8);
    assert_eq!(c.offset(-8), Ok(()));
    assert_eq!(c.idx, 0);
    assert_eq!(c.offset(-1), Err(Error::BadCfaOffset));
    assert_eq!(c.idx, 0);
    assert_eq!(c.offset(65535), Ok(()));
    assert_eq!(c.offset(1), Err(Error::BadCfaOffset));
    assert_eq!(c.idx, 65535);
}

#[test]
fn output_takes_whole_writes_or_none() {
    let mut o = OutputBuf::new(5);
    assert_eq!(o.capacity(), 5);
    assert_eq!(o.push_str("abc"), Ok(()));
    assert_eq!(o.remaining(), 2);
    assert_eq!(o.push_bstr(b"def"), Err(OutputError::Full));
    assert_eq!(o.as_bytes(), b"abc");
    assert_eq!(o.push_byte(b'd'), Ok(()));
    assert_eq!(o.push_bstr(b"e"), Ok(()));
    assert_eq!(o.push_byte(b'f'), Err(OutputError::Full));
    assert_eq!(o.as_bytes(), b"abcde");
    o.clear();
    assert_eq!(o.as_bytes(), b"");
    assert_eq!(o.push_bstr(b""), Ok(()));
}

#[test]
fn decimal_writing() {
    let mut o = OutputBuf::new(64);
    assert_eq!(push_decimal(&mut o, 0, b' '), Ok(()));
    assert_eq!(push_decimal(&mut o, 7, b' '), Ok(()));
    assert_eq!(push_decimal(&mut o, -7, b' '), Ok(()));
    assert_eq!(push_decimal(&mut o, 2147483647, b','), Ok(()));
    assert_eq!(push_decimal(&mut o, -2147483648, b','), Ok(()));
    assert_eq!(push_decimal(&mut o, 4294967295, b'.'), Ok(()));
    assert_eq!(o.as_bytes(), b"0 7 -7 2147483647,-2147483648,4294967295.");
    assert_eq!(decimal_len(0), 1);
    assert_eq!(decimal_len(9), 1);
    assert_eq!(decimal_len(10), 2);
    assert_eq!(decimal_len(u64::MAX), 20);
}

#[test]
fn decimal_writing_is_refused_whole() {
    let mut o = OutputBuf::new(3);
    assert_eq!(push_decimal(&mut o, -12, b' '), Err(OutputError::Full));
    assert_eq!(o.as_bytes(), b"");
    assert_eq!(push_decimal(&mut o, 12, b' '), Ok(()));
    assert_eq!(o.as_bytes(), b"12 ");
    let mut o = OutputBuf::new(20);
    assert_eq!(push_decimal(&mut o, i64::MIN, b' '), Err(OutputError::Full));
    let mut o = OutputBuf::new(21);
    assert_eq!(push_decimal(&mut o, i64::MIN, b' '), Ok(()));
    assert_eq!(o.as_bytes(), b"-9223372036854775808 ");
}

#[test]
fn numbers_are_signed_decimals_of_32_bits() {
    assert_eq!(parse_num(b"0"), Some(0));
    assert_eq!(parse_num(b"42"), Some(42));
    assert_eq!(parse_num(b"-42"), Some(-42));
    assert_eq!(parse_num(b"+42"), Some(42));
    assert_eq!(parse_num(b"0042"), Some(42));
    assert_eq!(parse_num(b"2147483647"), Some(2147483647));
    assert_eq!(parse_num(b"2147483648"), None);
    assert_eq!(parse_num(b"-2147483648"), Some(-2147483648));
    assert_eq!(parse_num(b"-2147483649"), None);
    assert_eq!(parse_num(b"00000000000000000000000000000000000007"), Some(7));
    assert_eq!(parse_num(b"99999999999999999999999999"), None);
    assert_eq!(parse_num(b""), None);
    assert_eq!(parse_num(b"-"), None);
    assert_eq!(parse_num(b"+"), None);
    assert_eq!(parse_num(b"1a"), None);
    assert_eq!(parse_num(b"a1"), None);
    assert_eq!(parse_num(b"1.5"), None);
    assert_eq!(parse_num(b"--1"), None);
    assert_eq!(parse_num(b" 1"), None);
}

#[test]
fn tokenizer_splits_at_whitespace() {
    let mut t = WordStrBuf::new(64);
    assert_eq!(t.capacity(), 64);
    assert_eq!(t.cur_word(), None);
    assert_eq!(t.fill("  one\ttwo \n three  "), Ok(()));
    assert_eq!(t.cur_word(), None);
    t.advance();
    assert_eq!(t.cur_word(), Some(&b"one"[..]));
    t.advance();
    assert_eq!(t.cur_word(), Some(&b"two"[..]));
    t.advance();
    assert_eq!(t.cur_word(), Some(&b"three"[..]));
    t.advance();
    assert_eq!(t.cur_word(), None);
    t.advance();
    assert_eq!(t.cur_word(), None);
}

#[test]
fn tokenizer_folds_words_to_lower_case() {
    let mut t = WordStrBuf::new(64);
    t.fill("DUP Swap .\" Hello World\" X").unwrap();
    t.advance();
    assert_eq!(t.cur_word(), Some(&b"dup"[..]));
    t.advance();
    assert_eq!(t.cur_word(), Some(&b"swap"[..]));
    t.advance();
    assert_eq!(t.cur_word(), Some(&b".\""[..]));
    assert_eq!(t.advance_str(), Ok(()));
    assert_eq!(t.cur_str_literal(), Some(&b"Hello World"[..]));
    t.advance();
    assert_eq!(t.cur_word(), Some(&b"x"[..]));
}

#[test]
fn tokenizer_string_literals() {
    let mut t = WordStrBuf::new(64);
    assert_eq!(t.cur_str_literal(), None);
    t.fill("   say \\\"hi\\\" now\" rest").unwrap();
    assert_eq!(t.advance_str(), Ok(()));
    assert_eq!(t.cur_str_literal(), Some(&b"say \\\"hi\\\" now"[..]));
    t.advance();
    assert_eq!(t.cur_word(), Some(&b"rest"[..]));

    t.fill("\"\"").unwrap();
    assert_eq!(t.advance_str(), Ok(()));
    assert_eq!(t.cur_str_literal(), Some(&b""[..]));

    t.fill("no end").unwrap();
    assert_eq!(t.advance_str(), Err(StrLiteralError::Unterminated));
    t.advance();
    assert_eq!(t.cur_word(), Some(&b"no"[..]));
}

#[test]
fn tokenizer_refuses_long_lines() {
    let mut t = WordStrBuf::new(4);
    assert_eq!(t.fill("12345"), Err(FillError::TooLong));
    assert_eq!(t.fill("1234"), Ok(()));
    t.advance();
    assert_eq!(t.cur_word(), Some(&b"1234"[..]));
    assert_eq!(t.fill_bytes(b"123456"), Err(FillError::TooLong));
    assert_eq!(t.cur_word(), Some(&b"1234"[..]));
}
