//! Names with a fingerprint: at most 31 bytes, with their length and a hash of
//! 24 bits packed into 32 bits.

use vstd::prelude::*;
use vstd::std_specs::cmp::PartialEqSpecImpl;
use vstd::string::StringSliceAdditionalSpecFns;

verus! {

/// Longest name, in bytes, that takes part in a word's identity.
pub const MAX_NAME_LEN: usize = 31;

pub const HASH_MASK: u32 = 0x00FF_FFFF;

pub const BITS_MASK: u32 = 0xE000_0000;

pub const LEN_MASK: u32 = 0x1F00_0000;

pub const FNV_BASIS: u32 = 0x811c_9dc5;

pub const FNV_PRIME: u32 = 0x0100_0193;

/// One round of the hash: fold in a byte, then multiply modulo 2^32.
pub open spec fn fnv1a_round(state: u32, byte: u8) -> u32 {
    (((state ^ (byte as u32)) as int * (FNV_PRIME as int)) % 0x1_0000_0000) as u32
}

/// The 32-bit FNV-1a hash of `bytes`.
pub open spec fn fnv1a(bytes: Seq<u8>) -> u32
    decreases bytes.len(),
{
    if bytes.len() == 0 {
        FNV_BASIS
    } else {
        fnv1a_round(fnv1a(bytes.drop_last()), bytes.last())
    }
}

/// The part of `bytes` that identifies a name: its first 31 bytes at most.
pub open spec fn name_prefix(bytes: Seq<u8>) -> Seq<u8> {
    if bytes.len() <= MAX_NAME_LEN {
        bytes
    } else {
        bytes.take(MAX_NAME_LEN as int)
    }
}

/// Length in bits 24..29, the low 24 bits of the hash in bits 0..24.
pub open spec fn pack_len_hash(len: u32, hash: u32) -> u32 {
    (len << 24) | (hash & HASH_MASK)
}

/// The packed descriptor of the name `bytes`.
pub open spec fn len_hash_of(bytes: Seq<u8>) -> u32 {
    pack_len_hash(name_prefix(bytes).len() as u32, fnv1a(name_prefix(bytes)))
}

pub open spec fn len_field(inner: u32) -> nat {
    ((inner & LEN_MASK) >> 24) as nat
}

pub open spec fn hash_field(inner: u32) -> u32 {
    inner & HASH_MASK
}

pub open spec fn bits_field(inner: u32) -> u8 {
    ((inner & BITS_MASK) >> 29) as u8
}

/// Two descriptors agree when length and hash fields agree; the three
/// reserved bits do not count.
pub open spec fn len_hash_eq(a: u32, b: u32) -> bool {
    len_field(a) == len_field(b) && hash_field(a) == hash_field(b)
}

/// Packing keeps the length, keeps the low 24 bits of the hash, and leaves the
/// reserved bits clear.
pub proof fn lemma_pack_fields(len: u32, hash: u32)
    requires
        len <= 31,
    ensures
        len_field(pack_len_hash(len, hash)) == len,
        hash_field(pack_len_hash(len, hash)) == hash & HASH_MASK,
        bits_field(pack_len_hash(len, hash)) == 0,
{
    let p = pack_len_hash(len, hash);
    assert(((((len << 24) | (hash & 0x00FF_FFFFu32)) & 0x1F00_0000u32) >> 24) == len) by (bit_vector)
        requires
            len <= 31,
    ;
    assert((((len << 24) | (hash & 0x00FF_FFFFu32)) & 0x00FF_FFFFu32) == hash & 0x00FF_FFFFu32)
        by (bit_vector)
        requires
            len <= 31,
    ;
    assert(((((len << 24) | (hash & 0x00FF_FFFFu32)) & 0xE000_0000u32) >> 29) == 0) by (bit_vector)
        requires
            len <= 31,
    ;
}

/// Comparing all but the reserved bits is comparing the two fields.
pub proof fn lemma_masked_eq(a: u32, b: u32)
    ensures
        ((a & !BITS_MASK) == (b & !BITS_MASK)) == len_hash_eq(a, b),
        len_field(a) <= 31,
{
    assert(((a & !0xE000_0000u32) == (b & !0xE000_0000u32)) == (((a & 0x1F00_0000u32) >> 24) == ((b
        & 0x1F00_0000u32) >> 24) && (a & 0x00FF_FFFFu32) == (b & 0x00FF_FFFFu32))) by (bit_vector);
    assert(((a & 0x1F00_0000u32) >> 24) <= 31) by (bit_vector);
}

/// Calls `hash32::FnvHasher`: a fresh hasher is fed `bytes` in one `write` and
/// read with `finish32`. That hasher starts from the FNV offset basis and, for
/// each byte in order, xors the byte into its state and multiplies the state by
/// the FNV prime modulo 2^32, which is what `fnv1a` states.
#[verifier::external_body]
fn fnv_hash32(bytes: &[u8]) -> (h: u32)
    ensures
        h == fnv1a(bytes@),
{
    let mut hasher = hash32::FnvHasher::default();
    core::hash::Hasher::write(&mut hasher, bytes);
    hash32::Hasher::finish32(&hasher)
}

/// Calls `core::str::from_utf8`, which checks that the bytes are valid UTF-8
/// and then hands out the same bytes as a string.
#[verifier::external_body]
fn str_of_bytes<'a>(bytes: &'a [u8]) -> (r: Option<&'a str>)
    ensures
        r.is_some() == vstd::utf8::valid_utf8(bytes@),
        r matches Some(s) ==> s.spec_bytes() == bytes@,
{
    core::str::from_utf8(bytes).ok()
}

/// Length and hash of a name, packed into 32 bits.
#[derive(Clone, Copy, Debug)]
pub struct LenHash {
    inner: u32,
}

impl View for LenHash {
    type V = u32;

    closed spec fn view(&self) -> u32 {
        self.inner
    }
}

impl LenHash {
    /// The descriptor of the first 31 bytes, at most, of `s`.
    pub fn from_str(s: &str) -> (r: Self)
        ensures
            r@ == len_hash_of(s.spec_bytes()),
    {
        Self::from_bstr(s.as_bytes())
    }

    /// The descriptor of the first 31 bytes, at most, of `s`.
    pub fn from_bstr(s: &[u8]) -> (r: Self)
        ensures
            r@ == len_hash_of(s@),
    {
        let len: usize = if s.len() < MAX_NAME_LEN {
            s.len()
        } else {
            MAX_NAME_LEN
        };
        let head = vstd::slice::slice_subrange(s, 0, len);
        assert(head@ =~= name_prefix(s@));
        let hash = fnv_hash32(head);
        let inner = ((len as u32) << 24) | (hash & HASH_MASK);
        LenHash { inner }
    }

    pub closed spec fn from_raw_spec(inner: u32) -> Self {
        LenHash { inner }
    }

    /// A descriptor with exactly these 32 bits.
    #[verifier::when_used_as_spec(from_raw_spec)]
    pub fn from_raw(inner: u32) -> (r: Self)
        ensures
            r@ == inner,
            r == Self::from_raw_spec(inner),
    {
        LenHash { inner }
    }

    /// The 32 bits of the descriptor.
    pub fn raw(&self) -> (r: u32)
        ensures
            r == self@,
    {
        self.inner
    }

    /// The length field: 0 to 31.
    #[allow(clippy::len_without_is_empty)]
    pub fn len(&self) -> (n: usize)
        ensures
            n == len_field(self@),
            n <= MAX_NAME_LEN,
    {
        let inner = self.inner;
        let len_u32 = (inner & LEN_MASK) >> 24;
        assert(((inner & 0x1F00_0000u32) >> 24) <= 31) by (bit_vector);
        len_u32 as usize
    }

    /// The three reserved bits.
    pub fn bits(&self) -> (b: u8)
        ensures
            b == bits_field(self@),
    {
        let inner = self.inner;
        let bits_u32 = (inner & BITS_MASK) >> 29;
        assert(((inner & 0xE000_0000u32) >> 29) <= 7) by (bit_vector);
        bits_u32 as u8
    }

    /// Equality of length and hash, whatever the reserved bits hold.
    pub fn eq_ignore_bits(&self, other: &Self) -> (r: bool)
        ensures
            r == len_hash_eq(self@, other@),
    {
        proof {
            lemma_masked_eq(self.inner, other.inner);
        }
        (self.inner & !BITS_MASK) == (other.inner & !BITS_MASK)
    }
}

/// A name as a value: its bytes and the 32 bits of its descriptor.
pub struct NameView {
    pub bytes: Seq<u8>,
    pub len_hash: u32,
}

impl NameView {
    /// The name made of the first 31 bytes, at most, of `bytes`.
    pub open spec fn of(bytes: Seq<u8>) -> NameView {
        NameView { bytes: name_prefix(bytes), len_hash: len_hash_of(bytes) }
    }

    /// What `==` decides: descriptors agree in length and hash, and the bytes
    /// are the same.
    pub open spec fn same_name(self, other: NameView) -> bool {
        len_hash_eq(self.len_hash, other.len_hash) && self.bytes == other.bytes
    }
}

/// Byte-wise equality of two slices.
pub fn bytes_eq(a: &[u8], b: &[u8]) -> (r: bool)
    ensures
        r == (a@ == b@),
{
    if a.len() != b.len() {
        return false;
    }
    let mut i: usize = 0;
    while i < a.len()
        invariant
            a@.len() == b@.len(),
            i <= a@.len(),
            forall|j: int| 0 <= j < i ==> a@[j] == b@[j],
        decreases a@.len() - i,
    {
        if a[i] != b[i] {
            return false;
        }
        i += 1;
    }
    assert(a@ =~= b@);
    true
}

/// A borrowed name of at most 31 bytes together with its packed descriptor.
#[derive(Clone, Copy, Debug)]
pub struct FaStr<'a> {
    bytes: &'a [u8],
    len_hash: LenHash,
}

impl<'a> View for FaStr<'a> {
    type V = NameView;

    open spec fn view(&self) -> NameView {
        NameView { bytes: self.spec_bytes(), len_hash: self.spec_len_hash() }
    }
}

impl<'a> FaStr<'a> {
    /// The bytes the name refers to.
    pub closed spec fn spec_bytes(&self) -> Seq<u8> {
        self.bytes@
    }

    /// The 32 bits of the descriptor carried with the name.
    pub closed spec fn spec_len_hash(&self) -> u32 {
        self.len_hash@
    }

    /// The descriptor is the one computed from the bytes.
    pub open spec fn canonical(&self) -> bool {
        self.spec_bytes().len() <= MAX_NAME_LEN && self.spec_len_hash() == len_hash_of(
            self.spec_bytes(),
        )
    }

    /// What `==` decides: descriptors agree in length and hash, and the bytes
    /// are the same.
    pub open spec fn same_name(&self, other: &Self) -> bool {
        self@.same_name(other@)
    }

    /// The name made of the first 31 bytes, at most, of `bytes`.
    pub fn new(bytes: &'a [u8]) -> (r: Self)
        ensures
            r.spec_bytes() == name_prefix(bytes@),
            r.spec_len_hash() == len_hash_of(bytes@),
            r@ == NameView::of(bytes@),
            r.canonical(),
    {
        let len: usize = if bytes.len() < MAX_NAME_LEN {
            bytes.len()
        } else {
            MAX_NAME_LEN
        };
        let head = vstd::slice::slice_subrange(bytes, 0, len);
        assert(head@ =~= name_prefix(bytes@));
        assert(name_prefix(head@) =~= head@);
        let len_hash = LenHash::from_bstr(head);
        FaStr { bytes: head, len_hash }
    }

    /// A name with a descriptor that was stored beside it: the first
    /// `len_hash.len()` bytes of `bytes`, or `None` when there are fewer.
    pub fn from_stored(bytes: &'a [u8], len_hash: LenHash) -> (r: Option<Self>)
        ensures
            r.is_some() == (len_field(len_hash@) <= bytes@.len()),
            r.is_some() ==> r.unwrap().spec_bytes() == bytes@.take(len_field(len_hash@) as int)
                && r.unwrap().spec_len_hash() == len_hash@,
    {
        let n = len_hash.len();
        if n <= bytes.len() {
            let head = vstd::slice::slice_subrange(bytes, 0, n);
            assert(head@ =~= bytes@.take(n as int));
            Some(FaStr { bytes: head, len_hash })
        } else {
            None
        }
    }

    pub fn as_bytes(&self) -> (b: &'a [u8])
        ensures
            b@ == self.spec_bytes(),
    {
        self.bytes
    }

    /// The name as a string, where its bytes are valid UTF-8.
    pub fn as_str(&self) -> (r: Option<&'a str>)
        ensures
            r.is_some() == vstd::utf8::valid_utf8(self.spec_bytes()),
            r matches Some(s) ==> s.spec_bytes() == self.spec_bytes(),
    {
        str_of_bytes(self.bytes)
    }

    pub fn len_hash(&self) -> (lh: LenHash)
        ensures
            lh@ == self.spec_len_hash(),
    {
        self.len_hash
    }
}

impl<'a> PartialEq for FaStr<'a> {
    fn eq(&self, other: &Self) -> (r: bool) {
        if self.len_hash.eq_ignore_bits(&other.len_hash) {
            bytes_eq(self.bytes, other.bytes)
        } else {
            false
        }
    }
}

impl<'a> PartialEqSpecImpl for FaStr<'a> {
    open spec fn obeys_eq_spec() -> bool {
        true
    }

    open spec fn eq_spec(&self, other: &Self) -> bool {
        self.same_name(other)
    }
}

/// A name borrowed from a string for the length of a lookup.
pub struct TmpFaStr<'a> {
    fastr: FaStr<'a>,
}

impl<'a> TmpFaStr<'a> {
    pub closed spec fn spec_fastr(&self) -> FaStr<'a> {
        self.fastr
    }

    pub fn new_from(stir: &'a str) -> (r: Self)
        ensures
            r.spec_fastr()@ == NameView::of(stir.spec_bytes()),
            r.spec_fastr().spec_bytes() == name_prefix(stir.spec_bytes()),
            r.spec_fastr().spec_len_hash() == len_hash_of(stir.spec_bytes()),
            r.spec_fastr().canonical(),
    {
        TmpFaStr { fastr: FaStr::new(stir.as_bytes()) }
    }

    pub fn deref(&self) -> (r: &FaStr<'a>)
        ensures
            *r == self.spec_fastr(),
    {
        &self.fastr
    }
}

/// A name equals itself.
pub proof fn lemma_fastr_eq_reflexive(a: FaStr)
    ensures
        a.same_name(&a),
{
}

/// Equality does not depend on the side a name stands on.
pub proof fn lemma_fastr_eq_symmetric(a: FaStr, b: FaStr)
    ensures
        a.same_name(&b) == b.same_name(&a),
{
}

/// Two names equal to a third are equal to each other.
pub proof fn lemma_fastr_eq_transitive(a: FaStr, b: FaStr, c: FaStr)
    requires
        a.same_name(&b),
        b.same_name(&c),
    ensures
        a.same_name(&c),
{
}

/// Names over different bytes are unequal, whatever their descriptors: a
/// collision of the 24 hash bits is caught by the comparison of the bytes.
pub proof fn lemma_fastr_distinct_bytes_unequal(a: FaStr, b: FaStr)
    requires
        a.spec_bytes() != b.spec_bytes(),
    ensures
        !a.same_name(&b),
{
}

/// Names computed from the same bytes are equal.
pub proof fn lemma_fastr_same_bytes_equal(a: FaStr, b: FaStr)
    requires
        a.canonical(),
        b.canonical(),
        a.spec_bytes() == b.spec_bytes(),
    ensures
        a.same_name(&b),
{
}

} // verus!
