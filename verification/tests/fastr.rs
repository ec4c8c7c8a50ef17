use forth3::fastr::{bytes_eq, FaStr, LenHash, TmpFaStr};

fn fnv1a(bytes: &[u8]) -> u32 {
    let mut h: u32 = 0x811c_9dc5;
    for b in bytes {
        h ^= *b as u32;
        h = h.wrapping_mul(0x0100_0193);
    }
    h
}

#[test]
fn len_hash_of_one_letter() {
    // FNV-1a of "a" is 0xe40c292c; 24 bits of it under a length of 1.
    let lh = LenHash::from_str("a");
    assert_eq!(lh.raw(), 0x010c_292c);
    assert_eq!(lh.len(), 1);
    assert_eq!(lh.bits(), 0);
}

#[test]
fn len_hash_of_empty_name() {
    let lh = LenHash::from_bstr(b"");
    assert_eq!(lh.raw(), 0x811c_9dc5 & 0x00FF_FFFF);
    assert_eq!(lh.len(), 0);
}

#[test]
fn len_hash_known_values() {
    // FNV-1a test vectors: "foobar" is 0xbf9cf968.
    assert_eq!(LenHash::from_str("foobar").raw(), (6 << 24) | 0x009c_f968);
    assert_eq!(LenHash::from_str("b").raw(), (1 << 24) | (0xe70c_2de5 & 0x00FF_FFFF));
}

#[test]
fn len_hash_follows_the_hash_of_the_name() {
    for name in ["dup", "swap", "(literal)", "a-rather-long-name", "x"] {
        let lh = LenHash::from_str(name);
        assert_eq!(lh.len(), name.len());
        assert_eq!(lh.raw() & 0x00FF_FFFF, fnv1a(name.as_bytes()) & 0x00FF_FFFF);
        assert_eq!(lh.raw() >> 24, name.len() as u32);
    }
}

#[test]
fn len_hash_takes_31_bytes_at_most() {
    let long = "abcdefghijklmnopqrstuvwxyz0123456789";
    let lh = LenHash::from_str(long);
    assert_eq!(lh.len(), 31);
    assert_eq!(lh.raw() & 0x00FF_FFFF, fnv1a(&long.as_bytes()[..31]) & 0x00FF_FFFF);
    let other = "abcdefghijklmnopqrstuvwxyz01234ZZZZZ";
    assert!(lh.eq_ignore_bits(&LenHash::from_str(other)));
}

#[test]
fn eq_ignore_bits_ignores_the_reserved_bits() {
    let a = LenHash::from_raw(0x010c_292c);
    let b = LenHash::from_raw(0xE10c_292c);
    let c = LenHash::from_raw(0x020c_292c);
    let d = LenHash::from_raw(0x010c_292d);
    assert!(a.eq_ignore_bits(&b));
    assert!(b.eq_ignore_bits(&a));
    assert!(!a.eq_ignore_bits(&c));
    assert!(!a.eq_ignore_bits(&d));
    assert_eq!(b.bits(), 7);
    assert_eq!(b.len(), 1);
}

#[test]
fn fastr_equality_is_an_equivalence() {
    let a = FaStr::new(b"hello");
    let b = FaStr::new(b"hello");
    let c = FaStr::new(b"hello");
    let d = FaStr::new(b"world");
    assert!(a == a);
    assert!(a == b && b == a);
    assert!(a == b && b == c && a == c);
    assert!(a != d && d != a);
}

#[test]
fn fastr_names_collapse_to_31_bytes() {
    let a = FaStr::new(b"abcdefghijklmnopqrstuvwxyz0123456789");
    let b = FaStr::new(b"abcdefghijklmnopqrstuvwxyz01234");
    assert!(a == b);
    assert_eq!(a.as_bytes(), b"abcdefghijklmnopqrstuvwxyz01234");
}

#[test]
fn fastr_collision_of_the_hash_is_caught_by_the_bytes() {
    // Look for two names of four bytes whose 24 hash bits agree.
    let mut seen: std::collections::HashMap<u32, [u8; 4]> = std::collections::HashMap::new();
    let mut found: Option<([u8; 4], [u8; 4])> = None;
    let mut n: u32 = 0;
    while found.is_none() {
        let name = [
            b'a' + (n % 26) as u8,
            b'a' + (n / 26 % 26) as u8,
            b'a' + (n / 676 % 26) as u8,
            b'a' + (n / 17576 % 26) as u8,
        ];
        let h = fnv1a(&name) & 0x00FF_FFFF;
        if let Some(other) = seen.get(&h) {
            found = Some((*other, name));
        } else {
            seen.insert(h, name);
        }
        n += 1;
    }
    let (x, y) = found.unwrap();
    assert_ne!(x, y);
    let fx = FaStr::new(&x);
    let fy = FaStr::new(&y);
    assert!(fx.len_hash().eq_ignore_bits(&fy.len_hash()));
    assert!(fx != fy);
}

#[test]
fn fastr_from_stored_takes_the_length_from_the_descriptor() {
    let lh = LenHash::from_str("dup");
    let f = FaStr::from_stored(b"duplicate", lh).unwrap();
    assert_eq!(f.as_bytes(), b"dup");
    assert!(f == FaStr::new(b"dup"));
    assert!(FaStr::from_stored(b"du", lh).is_none());
}

#[test]
fn tmp_fastr_borrows_a_string() {
    let t = TmpFaStr::new_from("swap");
    assert!(*t.deref() == FaStr::new(b"swap"));
    assert_eq!(t.deref().len_hash().len(), 4);
}

#[test]
fn bytes_eq_compares_bytes() {
    assert!(bytes_eq(b"", b""));
    assert!(bytes_eq(b"abc", b"abc"));
    assert!(!bytes_eq(b"abc", b"abd"));
    assert!(!bytes_eq(b"abc", b"ab"));
}

#[test]
fn fastr_as_str_checks_the_bytes() {
    assert_eq!(FaStr::new(b"dup").as_str(), Some("dup"));
    assert_eq!(FaStr::new("caf\u{e9}".as_bytes()).as_str(), Some("caf\u{e9}"));
    assert_eq!(FaStr::new(&[b'a', 0xFF, b'b']).as_str(), None);
    // a name cut in the middle of a character is no string
    let long = "abcdefghijklmnopqrstuvwxyz0123\u{e9}\u{e9}";
    assert_eq!(FaStr::new(long.as_bytes()).as_bytes().len(), 31);
    assert_eq!(FaStr::new(long.as_bytes()).as_str(), None);
    assert_eq!(FaStr::new(b"").as_str(), Some(""));
}
