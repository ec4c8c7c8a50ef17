use core::mem::size_of;
use forth3::dictionary::{
    AsyncBuiltinEntry, BuiltinEntry, BumpError, DictionaryBump, DictionaryEntry, EntryHeader,
    EntryKind, ENTRY_SIZE,
};
use forth3::word::Word;
use forth3::WordFunc;

#[test]
fn sizes() {
    assert_eq!(size_of::<EntryHeader<()>>(), 3 * size_of::<usize>());
    assert_eq!(size_of::<BuiltinEntry<()>>(), 4 * size_of::<usize>());
    assert_eq!(size_of::<AsyncBuiltinEntry<()>>(), 3 * size_of::<usize>());
}

#[test]
fn do_a_bump() {
    let mut bump = DictionaryBump::new(0x1000, 256);

    // Be annoying
    let _b = bump.bump_u8().unwrap();

    // ALLOT 10
    let d = bump.bump::<DictionaryEntry<()>>().unwrap();
    assert_eq!(d % core::mem::align_of::<DictionaryEntry<()>>(), 0);

    let walign = core::mem::align_of::<DictionaryEntry<()>>();
    for _w in 0..10 {
        let w = bump.bump::<Word>().unwrap();
        assert_eq!(w % walign, 0);
    }
}

#[test]
fn arena_used_never_exceeds_capacity() {
    let mut bump = DictionaryBump::new(16, 10);
    assert_eq!(bump.capacity(), 10);
    assert_eq!(bump.used(), 0);
    assert_eq!(bump.bump_u8s(3), Some(16));
    assert_eq!(bump.used(), 3);
    // aligned to 4: three bytes used, one of padding, four for the cell
    assert_eq!(bump.bump_layout(4, 4), Ok(20));
    assert_eq!(bump.used(), 8);
    let before = bump.cur();
    assert_eq!(bump.bump_layout(4, 4), Err(BumpError::OutOfMemory));
    assert_eq!(bump.cur(), before);
    assert_eq!(bump.bump_u8s(3), None);
    assert_eq!(bump.cur(), before);
    assert_eq!(bump.bump_u8s(0), None);
    assert_eq!(bump.bump_u8(), Some(24));
    assert_eq!(bump.bump_u8(), Some(25));
    assert_eq!(bump.bump_u8(), None);
    assert_eq!(bump.used(), 10);
    assert!(bump.used() <= bump.capacity());
    assert_eq!(bump.bump_write(Word::data(1)), Err(BumpError::OutOfMemory));
    assert_eq!(bump.used(), 10);
}

#[test]
fn arena_zeroes_padding() {
    let mut bump = DictionaryBump::new(8, 16);
    assert!(bump.write_bytes(8, &[0xFF; 16]));
    assert_eq!(bump.bump_u8(), Some(8));
    assert_eq!(bump.bump_layout(4, 8), Ok(16));
    assert_eq!(bump.bytes(8, 12).unwrap(), &[0xFF, 0, 0, 0, 0, 0, 0, 0, 0xFF, 0xFF, 0xFF, 0xFF][..]);
    assert_eq!(bump.cur(), 20);
}

#[test]
fn arena_contains() {
    let bump = DictionaryBump::new(100, 10);
    assert_eq!(bump.start(), 100);
    assert_eq!(bump.end(), 110);
    assert!(!bump.contains(99));
    assert!(bump.contains(100));
    assert!(bump.contains(109));
    assert!(!bump.contains(110));
    assert!(bump.holds(106, 4));
    assert!(!bump.holds(107, 4));
    assert!(!bump.holds(99, 1));
}

#[test]
fn arena_cells_are_little_endian() {
    let mut bump = DictionaryBump::new(4, 16);
    assert_eq!(bump.bump_write(Word::data(0x0102_0304)), Ok(()));
    assert_eq!(bump.bump_write(Word::data(-2)), Ok(()));
    assert_eq!(bump.bytes(4, 8).unwrap(), &[4, 3, 2, 1, 0xFE, 0xFF, 0xFF, 0xFF][..]);
    assert_eq!(bump.read_word(4), Some(Word::data(0x0102_0304)));
    assert_eq!(bump.read_word(8), Some(Word::data(-2)));
    assert_eq!(bump.read_u32(8), Some(0xFFFF_FFFE));
    assert_eq!(bump.read_word(17), None);
    assert_eq!(bump.read_word(3), None);
    assert!(bump.write_word(12, Word::data(i32::MIN)));
    assert_eq!(bump.read_u32(12), Some(0x8000_0000));
    assert!(!bump.write_word(18, Word::data(1)));
    assert!(bump.write_u32(16, 7));
    assert_eq!(bump.read_word(16), Some(Word::data(7)));
}

#[test]
fn arena_interns_names_in_lower_case() {
    let mut bump = DictionaryBump::new(1, 64);
    let name = bump.bump_str("FooBar").unwrap();
    assert_eq!(name.addr, 1);
    assert_eq!(bump.bytes(1, 6).unwrap(), b"foobar");
    assert_eq!(name.len_hash.raw(), forth3::fastr::LenHash::from_str("foobar").raw());
    assert_eq!(bump.cur(), 7);
    let long = bump.bump_str("ABCDEFGHIJKLMNOPQRSTUVWXYZ0123456789").unwrap();
    assert_eq!(long.len_hash.len(), 31);
    assert_eq!(bump.bytes(7, 31).unwrap(), b"abcdefghijklmnopqrstuvwxyz01234");
    assert_eq!(bump.cur(), 38);
}

#[test]
fn arena_refuses_names() {
    let mut bump = DictionaryBump::new(1, 4);
    assert_eq!(bump.bump_str("caf\u{e9}").err(), Some(BumpError::CantAllocUtf8));
    assert_eq!(bump.bump_str("12345").err(), Some(BumpError::OutOfMemory));
    assert_eq!(bump.bump_str("").err(), Some(BumpError::OutOfMemory));
    assert_eq!(bump.cur(), 1);
    assert!(bump.bump_str("1234").is_ok());
    assert_eq!(bump.used(), 4);
    // Only the 31 bytes that count are looked at.
    let mut bump = DictionaryBump::new(1, 64);
    assert!(bump.bump_str("abcdefghijklmnopqrstuvwxyz01234\u{e9}").is_ok());
    assert!(bump.bump_bytes(b"AbC", false).is_ok());
    assert_eq!(bump.bytes(32, 3).unwrap(), b"AbC");
}

#[test]
fn arena_rewind_zeroes_what_it_gives_up() {
    let mut bump = DictionaryBump::new(10, 8);
    assert!(bump.write_bytes(10, &[1, 2, 3, 4, 5, 6, 7, 8]));
    assert_eq!(bump.bump_u8s(6), Some(10));
    assert!(!bump.rewind(17));
    assert!(!bump.rewind(9));
    assert!(!bump.rewind(18));
    assert!(bump.rewind(12));
    assert_eq!(bump.cur(), 12);
    assert_eq!(bump.bytes(10, 8).unwrap(), &[1, 2, 0, 0, 0, 0, 7, 8][..]);
}

#[test]
fn arena_entries_round_trip() {
    let mut bump = DictionaryBump::new(4, 64);
    let name = bump.bump_str("Hi").unwrap();
    let at = bump.bump_layout(ENTRY_SIZE, 4).unwrap() as u32;
    assert_eq!(at, 8);
    assert!(bump.entry_at::<()>(at).is_none());
    assert!(bump.write_entry(at, name, EntryKind::Dictionary, 3, WordFunc::Interpret, 0));
    let e = bump.entry_at::<()>(at).unwrap();
    assert_eq!(bump.name_at(at).unwrap().as_bytes(), b"hi");
    assert_eq!(e.name_addr, 4);
    assert_eq!(e.kind, EntryKind::Dictionary);
    assert_eq!(e.len, 3);
    assert_eq!(e.func, WordFunc::Interpret);
    assert_eq!(e.link(), 0);
    assert_eq!(DictionaryEntry::<()>::pfa(at), at + 20);
    assert!(bump.entry_at::<()>(0).is_none());
    assert!(bump.entry_at::<()>(60).is_none());
    assert!(!bump.write_entry(60, name, EntryKind::Dictionary, 0, WordFunc::Interpret, 0));
    // a link that does not lie below the entry makes it no entry
    assert!(bump.write_entry(at, name, EntryKind::Dictionary, 3, WordFunc::Interpret, at));
    assert!(bump.entry_at::<()>(at).is_none());
}

#[test]
fn entry_kind_and_routine_codes() {
    assert_eq!(EntryKind::from_code(EntryKind::Dictionary.code()), Some(EntryKind::Dictionary));
    assert_eq!(EntryKind::from_code(EntryKind::AsyncBuiltin.code()), Some(EntryKind::AsyncBuiltin));
    assert_eq!(EntryKind::from_code(4), None);
    assert_eq!(WordFunc::from_code(WordFunc::Add.code()), Some(WordFunc::Add));
    assert_eq!(WordFunc::from_code(WordFunc::Interpret.code()), Some(WordFunc::Interpret));
    assert_eq!(WordFunc::from_code(0), None);
    assert_eq!(WordFunc::from_code(58), None);
}
