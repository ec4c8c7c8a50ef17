//! The dictionary arena: a bump allocator over bytes, the entries that it
//! holds, and the chain that links them.

use crate::fastr::{
    len_field, len_hash_eq, len_hash_of, name_prefix, FaStr, LenHash, NameView, MAX_NAME_LEN,
};
use crate::word::Word;
use crate::WordFunc;
use core::marker::PhantomData;
use vstd::prelude::*;
use vstd::string::StringSliceAdditionalSpecFns;

verus! {

/// Why the arena refused an allocation.
#[derive(Clone, Copy, Debug, PartialEq, Eq, Structural)]
pub enum BumpError {
    /// The request does not fit between the cursor and the end of the arena.
    OutOfMemory,
    /// The name holds a byte that is not ASCII.
    CantAllocUtf8,
}

/// The unsigned value of four bytes, least significant first.
pub open spec fn le_u32(b: Seq<u8>) -> u32
    recommends
        b.len() == 4,
{
    (b[0] as int + 256 * (b[1] as int) + 65536 * (b[2] as int) + 16777216 * (b[3] as int)) as u32
}

/// The four bytes of `x`, least significant first.
pub open spec fn u32_le_bytes(x: u32) -> Seq<u8> {
    seq![
        (x as int % 256) as u8,
        (x as int / 256 % 256) as u8,
        (x as int / 65536 % 256) as u8,
        (x as int / 16777216) as u8,
    ]
}

/// The bit pattern of a cell, read as an unsigned number.
pub open spec fn cell_bits(v: i32) -> u32 {
    if v >= 0 {
        v as u32
    } else {
        (v as int + 0x1_0000_0000) as u32
    }
}

/// The cell whose bit pattern is `u`.
pub open spec fn bits_cell(u: u32) -> i32 {
    if u < 0x8000_0000 {
        u as i32
    } else {
        (u as int - 0x1_0000_0000) as i32
    }
}

/// `n` zero bytes.
pub open spec fn zeros(n: nat) -> Seq<u8> {
    Seq::new(n, |i: int| 0u8)
}

/// `mem` with `bytes` written over the positions from `at` on.
pub open spec fn splice(mem: Seq<u8>, at: int, bytes: Seq<u8>) -> Seq<u8> {
    Seq::new(
        mem.len(),
        |i: int|
            if at <= i < at + bytes.len() {
                bytes[i - at]
            } else {
                mem[i]
            },
    )
}

pub open spec fn lower_byte(b: u8) -> u8 {
    if 65 <= b <= 90 {
        (b + 32) as u8
    } else {
        b
    }
}

/// `bytes` with the ASCII capitals folded to lower case.
pub open spec fn lower(bytes: Seq<u8>) -> Seq<u8> {
    Seq::new(bytes.len(), |i: int| lower_byte(bytes[i]))
}

pub open spec fn is_ascii_bytes(bytes: Seq<u8>) -> bool {
    forall|i: int| 0 <= i < bytes.len() ==> bytes[i] < 128
}

/// Decoding what was encoded gives the value back, for numbers and for cells.
pub proof fn lemma_le_roundtrip(x: u32)
    ensures
        u32_le_bytes(x).len() == 4,
        le_u32(u32_le_bytes(x)) == x,
{
}

pub proof fn lemma_cell_roundtrip(v: i32)
    ensures
        bits_cell(cell_bits(v)) == v,
{
}

/// Where a stored name lies and what its descriptor is.
#[derive(Clone, Copy, Debug)]
pub struct NameRef {
    pub addr: usize,
    pub len_hash: LenHash,
}

/// The arena as a value: the address of its first byte, the cursor, and the
/// bytes it holds. Its end is `start + mem.len()`.
pub struct ArenaView {
    pub start: nat,
    pub cur: nat,
    pub mem: Seq<u8>,
}

impl ArenaView {
    pub open spec fn end(self) -> nat {
        self.start + self.mem.len()
    }

    pub open spec fn wf(self) -> bool {
        self.start <= self.cur <= self.end() && self.end() <= usize::MAX
    }

    /// The `n` bytes from `addr` on all lie in the arena.
    pub open spec fn holds(self, addr: int, n: int) -> bool {
        self.start <= addr && 0 <= n && addr + n <= self.end()
    }

    pub open spec fn bytes(self, addr: int, n: int) -> Seq<u8> {
        self.mem.subrange(addr - self.start, addr - self.start + n)
    }

    pub open spec fn read_u32(self, addr: int) -> u32 {
        le_u32(self.bytes(addr, 4))
    }

    pub open spec fn read_word(self, addr: int) -> Word {
        Word { data: bits_cell(self.read_u32(addr)) }
    }

    pub open spec fn store(self, addr: int, bytes: Seq<u8>) -> ArenaView {
        ArenaView { mem: splice(self.mem, addr - self.start, bytes), ..self }
    }

    pub open spec fn store_u32(self, addr: int, x: u32) -> ArenaView {
        self.store(addr, u32_le_bytes(x))
    }

    pub open spec fn store_word(self, addr: int, w: Word) -> ArenaView {
        self.store_u32(addr, cell_bits(w.data))
    }

    pub open spec fn with_cur(self, cur: nat) -> ArenaView {
        ArenaView { cur, ..self }
    }

    /// Bytes to skip so that the cursor becomes a multiple of `align`.
    pub open spec fn padding(self, align: nat) -> nat {
        ((align - self.cur % align) % (align as int)) as nat
    }

    /// The part of the padding that lies inside the arena.
    pub open spec fn padding_inside(self, align: nat) -> nat {
        if self.cur + self.padding(align) <= self.end() {
            self.padding(align)
        } else {
            (self.end() - self.cur) as nat
        }
    }

    /// The arena after an aligned allocation of `size` bytes was asked for:
    /// the padding is zeroed in any case, the cursor moves only on success.
    pub open spec fn bumped(self, size: nat, align: nat) -> ArenaView {
        let padded = self.store(self.cur as int, zeros(self.padding_inside(align)));
        if self.bump_fits(size, align) {
            padded.with_cur(self.cur + self.padding(align) + size)
        } else {
            padded
        }
    }

    pub open spec fn bump_fits(self, size: nat, align: nat) -> bool {
        self.cur + self.padding(align) + size <= self.end()
    }

    /// The address an aligned allocation returns.
    pub open spec fn bump_addr(self, align: nat) -> nat {
        self.cur + self.padding(align)
    }

    /// The arena after `n` raw bytes were asked for.
    pub open spec fn bumped_u8s(self, n: nat) -> ArenaView {
        if n > 0 && self.cur + n <= self.end() {
            self.with_cur(self.cur + n)
        } else {
            self
        }
    }

    /// The arena after the cell `w` was appended.
    pub open spec fn word_written(self, w: Word) -> ArenaView {
        if self.bump_fits(4, 4) {
            self.bumped(4, 4).store_word(self.bump_addr(4) as int, w)
        } else {
            self.bumped(4, 4)
        }
    }

    /// What interning `s` answers.
    pub open spec fn intern_result(self, s: Seq<u8>) -> Result<NameRef, BumpError> {
        let name = name_prefix(s);
        if !is_ascii_bytes(name) {
            Err(BumpError::CantAllocUtf8)
        } else if name.len() == 0 || self.cur + name.len() > self.end() {
            Err(BumpError::OutOfMemory)
        } else {
            Ok(NameRef { addr: self.cur as usize, len_hash: LenHash::from_raw_spec(len_hash_of(lower(name))) })
        }
    }

    /// The arena after interning `s`: on success the lowercased name stands at
    /// the old cursor; otherwise nothing changed.
    pub open spec fn interned(self, s: Seq<u8>) -> ArenaView {
        let name = name_prefix(s);
        if self.intern_result(s).is_ok() {
            self.store(self.cur as int, lower(name)).with_cur(self.cur + name.len())
        } else {
            self
        }
    }

    /// The arena after everything from `addr` on was given up: the bytes from
    /// `addr` to the old cursor are zero and the cursor stands at `addr`.
    pub open spec fn rewound(self, addr: nat) -> ArenaView {
        self.store(addr as int, zeros((self.cur - addr) as nat)).with_cur(addr)
    }
}

/// A bump allocator over a fixed region of bytes. Allocation only moves the
/// cursor forward; `rewind` is the one way back.
pub struct DictionaryBump {
    start: usize,
    cur: usize,
    mem: Vec<u8>,
}

impl View for DictionaryBump {
    type V = ArenaView;

    closed spec fn view(&self) -> ArenaView {
        ArenaView { start: self.start as nat, cur: self.cur as nat, mem: self.mem@ }
    }
}

impl DictionaryBump {
    pub open spec fn wf(&self) -> bool {
        self@.wf()
    }

    /// Is the arena in order?
    pub fn is_wf(&self) -> (r: bool)
        ensures
            r == self.wf(),
    {
        self.start <= self.cur && self.mem.len() <= usize::MAX - self.start && self.cur
            - self.start <= self.mem.len()
    }

    /// An arena of `size` zero bytes whose first byte has the address `bottom`.
    pub fn new(bottom: usize, size: usize) -> (r: Self)
        requires
            bottom + size <= usize::MAX,
        ensures
            r.wf(),
            r@.start == bottom,
            r@.cur == bottom,
            r@.mem == zeros(size as nat),
    {
        let mut mem: Vec<u8> = Vec::with_capacity(size);
        let mut i: usize = 0;
        while i < size
            invariant
                i <= size,
                mem@.len() == i,
                forall|j: int| 0 <= j < i ==> mem@[j] == 0u8,
            decreases size - i,
        {
            mem.push(0u8);
            i += 1;
        }
        assert(mem@ =~= zeros(size as nat));
        DictionaryBump { start: bottom, cur: bottom, mem }
    }

    pub fn start(&self) -> (a: usize)
        ensures
            a == self@.start,
    {
        self.start
    }

    pub fn cur(&self) -> (a: usize)
        ensures
            a == self@.cur,
    {
        self.cur
    }

    pub fn end(&self) -> (a: usize)
        requires
            self.wf(),
        ensures
            a == self@.end(),
    {
        self.start + self.mem.len()
    }

    /// Is the given address within the arena?
    pub fn contains(&self, addr: usize) -> (r: bool)
        requires
            self.wf(),
        ensures
            r == (self@.start <= addr < self@.end()),
    {
        addr >= self.start && addr - self.start < self.mem.len()
    }

    pub fn capacity(&self) -> (n: usize)
        requires
            self.wf(),
        ensures
            n == self@.end() - self@.start,
    {
        self.mem.len()
    }

    pub fn used(&self) -> (n: usize)
        requires
            self.wf(),
        ensures
            n == self@.cur - self@.start,
            n <= self@.end() - self@.start,
    {
        self.cur - self.start
    }

    /// Do the `n` bytes from `addr` on lie in the arena?
    pub fn holds(&self, addr: usize, n: usize) -> (r: bool)
        requires
            self.wf(),
        ensures
            r == self@.holds(addr as int, n as int),
    {
        addr >= self.start && addr - self.start <= self.mem.len() && n <= self.mem.len() - (addr
            - self.start)
    }

    /// Overwrites `n` bytes from `addr` on with zero.
    fn zero_range(&mut self, addr: usize, n: usize)
        requires
            old(self).wf(),
            old(self)@.holds(addr as int, n as int),
        ensures
            final(self)@ == old(self)@.store(addr as int, zeros(n as nat)),
    {
        let base = addr - self.start;
        let mut i: usize = 0;
        while i < n
            invariant
                i <= n,
                base + n <= self.mem@.len(),
                base + n <= usize::MAX,
                self.mem@.len() == old(self).mem@.len(),
                self.start == old(self).start,
                self.cur == old(self).cur,
                base == addr - self.start,
                forall|j: int|
                    0 <= j < self.mem@.len() ==> self.mem@[j] == if base <= j < base + i {
                        0u8
                    } else {
                        old(self).mem@[j]
                    },
            decreases n - i,
        {
            self.mem.set(base + i, 0u8);
            i += 1;
        }
        assert(self.mem@ =~= splice(old(self).mem@, addr - self.start, zeros(n as nat)));
    }

    /// Allocates `size` bytes at the next multiple of `align`. The padding
    /// skipped is zeroed. On `OutOfMemory` the cursor stays where it was.
    pub fn bump_layout(&mut self, size: usize, align: usize) -> (r: Result<usize, BumpError>)
        requires
            old(self).wf(),
            align > 0,
        ensures
            final(self).wf(),
            final(self)@ == old(self)@.bumped(size as nat, align as nat),
            old(self)@.bump_fits(size as nat, align as nat) ==> r == Ok::<usize, BumpError>(
                old(self)@.bump_addr(align as nat) as usize,
            ),
            !old(self)@.bump_fits(size as nat, align as nat) ==> r == Err::<usize, BumpError>(
                BumpError::OutOfMemory,
            ),
    {
        let end = self.start + self.mem.len();
        let pad = (align - self.cur % align) % align;
        let room = end - self.cur;
        if pad <= room && size <= room - pad {
            self.zero_range(self.cur, pad);
            let addr = self.cur + pad;
            self.cur = addr + size;
            Ok(addr)
        } else {
            let inside = if pad <= room {
                pad
            } else {
                room
            };
            self.zero_range(self.cur, inside);
            Err(BumpError::OutOfMemory)
        }
    }

    /// Allocates room for one `T`, aligned for `T`.
    pub fn bump<T: Sized>(&mut self) -> (r: Result<usize, BumpError>)
        requires
            old(self).wf(),
        ensures
            final(self).wf(),
            final(self)@ == old(self)@.bumped(
                vstd::layout::size_of::<T>(),
                vstd::layout::align_of::<T>(),
            ),
            old(self)@.bump_fits(vstd::layout::size_of::<T>(), vstd::layout::align_of::<T>()) ==> r
                == Ok::<usize, BumpError>(
                old(self)@.bump_addr(vstd::layout::align_of::<T>()) as usize,
            ),
            !old(self)@.bump_fits(vstd::layout::size_of::<T>(), vstd::layout::align_of::<T>())
                ==> r == Err::<usize, BumpError>(BumpError::OutOfMemory),
    {
        broadcast use vstd::layout::align_nonzero;

        self.bump_layout(core::mem::size_of::<T>(), core::mem::align_of::<T>())
    }

    /// Allocates `n` bytes at the cursor, or nothing when `n` is 0 or the
    /// bytes do not fit.
    pub fn bump_u8s(&mut self, n: usize) -> (r: Option<usize>)
        requires
            old(self).wf(),
        ensures
            final(self).wf(),
            final(self)@ == old(self)@.bumped_u8s(n as nat),
            r.is_some() == (n > 0 && old(self)@.cur + n <= old(self)@.end()),
            r.is_some() ==> r.unwrap() == old(self)@.cur,
    {
        if n == 0 {
            return None;
        }
        let room = self.start + self.mem.len() - self.cur;
        if n > room {
            None
        } else {
            let addr = self.cur;
            self.cur = self.cur + n;
            Some(addr)
        }
    }

    /// Allocates one byte at the cursor.
    pub fn bump_u8(&mut self) -> (r: Option<usize>)
        requires
            old(self).wf(),
        ensures
            final(self).wf(),
            final(self)@ == old(self)@.bumped_u8s(1),
            r.is_some() == (old(self)@.cur < old(self)@.end()),
            r.is_some() ==> r.unwrap() == old(self)@.cur,
    {
        self.bump_u8s(1)
    }

    /// Reads the four bytes at `addr` as an unsigned number.
    pub fn read_u32(&self, addr: usize) -> (r: Option<u32>)
        requires
            self.wf(),
        ensures
            r.is_some() == self@.holds(addr as int, 4),
            r.is_some() ==> r.unwrap() == self@.read_u32(addr as int),
    {
        if !self.holds(addr, 4) {
            return None;
        }
        let base = addr - self.start;
        let b0 = self.mem[base] as u32;
        let b1 = self.mem[base + 1] as u32;
        let b2 = self.mem[base + 2] as u32;
        let b3 = self.mem[base + 3] as u32;
        Some(b0 + 256 * b1 + 65536 * b2 + 16777216 * b3)
    }

    /// Reads the cell at `addr`.
    pub fn read_word(&self, addr: usize) -> (r: Option<Word>)
        requires
            self.wf(),
        ensures
            r.is_some() == self@.holds(addr as int, 4),
            r.is_some() ==> r.unwrap() == self@.read_word(addr as int),
    {
        match self.read_u32(addr) {
            None => None,
            Some(u) => {
                let data: i32 = if u < 0x8000_0000 {
                    u as i32
                } else {
                    (u as i64 - 0x1_0000_0000) as i32
                };
                Some(Word { data })
            },
        }
    }

    /// Writes `x` over the four bytes at `addr`; `false`, and nothing
    /// written, when they do not all lie in the arena.
    pub fn write_u32(&mut self, addr: usize, x: u32) -> (r: bool)
        requires
            old(self).wf(),
        ensures
            final(self).wf(),
            r == old(self)@.holds(addr as int, 4),
            r ==> final(self)@ == old(self)@.store_u32(addr as int, x),
            !r ==> final(self)@ == old(self)@,
    {
        if !self.holds(addr, 4) {
            return false;
        }
        let base = addr - self.start;
        self.mem.set(base, (x % 256) as u8);
        self.mem.set(base + 1, (x / 256 % 256) as u8);
        self.mem.set(base + 2, (x / 65536 % 256) as u8);
        self.mem.set(base + 3, (x / 16777216) as u8);
        assert(self.mem@ =~= splice(old(self).mem@, addr - self.start, u32_le_bytes(x)));
        true
    }

    /// Writes the cell `w` at `addr`.
    pub fn write_word(&mut self, addr: usize, w: Word) -> (r: bool)
        requires
            old(self).wf(),
        ensures
            final(self).wf(),
            r == old(self)@.holds(addr as int, 4),
            r ==> final(self)@ == old(self)@.store_word(addr as int, w),
            !r ==> final(self)@ == old(self)@,
    {
        let u: u32 = if w.data >= 0 {
            w.data as u32
        } else {
            (w.data as i64 + 0x1_0000_0000) as u32
        };
        self.write_u32(addr, u)
    }

    /// Appends the cell `val`: an aligned allocation of four bytes that then
    /// hold `val`.
    pub fn bump_write(&mut self, val: Word) -> (r: Result<(), BumpError>)
        requires
            old(self).wf(),
        ensures
            final(self).wf(),
            final(self)@ == old(self)@.word_written(val),
            old(self)@.bump_fits(4, 4) ==> r == Ok::<(), BumpError>(()),
            !old(self)@.bump_fits(4, 4) ==> r == Err::<(), BumpError>(BumpError::OutOfMemory),
    {
        match self.bump_layout(4, 4) {
            Ok(addr) => {
                let done = self.write_word(addr, val);
                assert(done);
                Ok(())
            },
            Err(e) => Err(e),
        }
    }

    /// The `n` bytes at `addr`, or `None` when they do not all lie in the arena.
    pub fn bytes(&self, addr: usize, n: usize) -> (r: Option<&[u8]>)
        requires
            self.wf(),
        ensures
            r.is_some() == self@.holds(addr as int, n as int),
            r.is_some() ==> r.unwrap()@ == self@.bytes(addr as int, n as int),
    {
        if !self.holds(addr, n) {
            return None;
        }
        let base = addr - self.start;
        Some(vstd::slice::slice_subrange(self.mem.as_slice(), base, base + n))
    }

    /// Copies `src` to `addr`, folding ASCII capitals to lower case when
    /// `fold` is set.
    fn copy_in(&mut self, addr: usize, src: &[u8], fold: bool)
        requires
            old(self).wf(),
            old(self)@.holds(addr as int, src@.len() as int),
        ensures
            final(self)@ == old(self)@.store(
                addr as int,
                if fold {
                    lower(src@)
                } else {
                    src@
                },
            ),
    {
        let base = addr - self.start;
        let n = src.len();
        let ghost wanted = if fold {
            lower(src@)
        } else {
            src@
        };
        let mut i: usize = 0;
        while i < n
            invariant
                i <= n,
                n == src@.len(),
                wanted.len() == n,
                forall|j: int| 0 <= j < n ==> wanted[j] == if fold { lower_byte(src@[j]) } else { src@[j] },
                base + n <= self.mem@.len(),
                base + n <= usize::MAX,
                self.mem@.len() == old(self).mem@.len(),
                self.start == old(self).start,
                self.cur == old(self).cur,
                base == addr - self.start,
                forall|j: int|
                    0 <= j < self.mem@.len() ==> self.mem@[j] == if base <= j < base + i {
                        wanted[j - base]
                    } else {
                        old(self).mem@[j]
                    },
            decreases n - i,
        {
            let b = src[i];
            let c: u8 = if fold && 65 <= b && b <= 90 {
                b + 32
            } else {
                b
            };
            self.mem.set(base + i, c);
            i += 1;
        }
        assert(self.mem@ =~= splice(old(self).mem@, addr - self.start, wanted));
    }

    /// Writes `src` over the bytes from `addr` on; `false`, and nothing
    /// written, when they do not all lie in the arena.
    pub fn write_bytes(&mut self, addr: usize, src: &[u8]) -> (r: bool)
        requires
            old(self).wf(),
        ensures
            final(self).wf(),
            r == old(self)@.holds(addr as int, src@.len() as int),
            r ==> final(self)@ == old(self)@.store(addr as int, src@),
            !r ==> final(self)@ == old(self)@,
    {
        if !self.holds(addr, src.len()) {
            return false;
        }
        self.copy_in(addr, src, false);
        true
    }

    /// Interns a name: copies at most 31 bytes of `s`, lowercased, to the
    /// cursor. A byte that is not ASCII among them is refused; an empty name
    /// is answered like one that does not fit.
    pub fn bump_str(&mut self, s: &str) -> (r: Result<NameRef, BumpError>)
        requires
            old(self).wf(),
        ensures
            final(self).wf(),
            final(self)@ == old(self)@.interned(s.spec_bytes()),
            r.is_ok() == old(self)@.intern_result(s.spec_bytes()).is_ok(),
            r.is_ok() ==> r.unwrap().addr == old(self)@.cur && r.unwrap().len_hash@ == len_hash_of(
                lower(name_prefix(s.spec_bytes())),
            ),
            r.is_err() ==> r == old(self)@.intern_result(s.spec_bytes()),
    {
        self.bump_bytes(s.as_bytes(), true)
    }

    /// Stores a name given as bytes: as `bump_str`, with the folding to lower
    /// case only when `fold` is set.
    pub fn bump_bytes(&mut self, s: &[u8], fold: bool) -> (r: Result<NameRef, BumpError>)
        requires
            old(self).wf(),
        ensures
            final(self).wf(),
            fold ==> final(self)@ == old(self)@.interned(s@),
            fold ==> r.is_ok() == old(self)@.intern_result(s@).is_ok(),
            fold ==> (r.is_err() ==> r == old(self)@.intern_result(s@)),
            r.is_ok() ==> r.unwrap().addr == old(self)@.cur && r.unwrap().len_hash@ == len_hash_of(
                if fold {
                    lower(name_prefix(s@))
                } else {
                    name_prefix(s@)
                },
            ) && final(self)@ == old(self)@.store(
                old(self)@.cur as int,
                if fold {
                    lower(name_prefix(s@))
                } else {
                    name_prefix(s@)
                },
            ).with_cur(old(self)@.cur + name_prefix(s@).len()),
            r.is_err() ==> final(self)@ == old(self)@,
            r.is_ok() == (is_ascii_bytes(name_prefix(s@)) && name_prefix(s@).len() > 0 && old(
                self)@.cur + name_prefix(s@).len() <= old(self)@.end()),
            r.is_err() ==> r == Err::<NameRef, BumpError>(
                if is_ascii_bytes(name_prefix(s@)) {
                    BumpError::OutOfMemory
                } else {
                    BumpError::CantAllocUtf8
                },
            ),
    {
        let len: usize = if s.len() < MAX_NAME_LEN {
            s.len()
        } else {
            MAX_NAME_LEN
        };
        let head = vstd::slice::slice_subrange(s, 0, len);
        assert(head@ =~= name_prefix(s@));
        if !all_ascii(head) {
            return Err(BumpError::CantAllocUtf8);
        }
        match self.bump_u8s(len) {
            None => Err(BumpError::OutOfMemory),
            Some(addr) => {
                self.copy_in(addr, head, fold);
                let stored = match self.bytes(addr, len) {
                    Some(b) => b,
                    None => head,
                };
                let ghost wanted = if fold {
                    lower(head@)
                } else {
                    head@
                };
                assert(stored@ =~= wanted);
                assert(name_prefix(wanted) =~= wanted);
                let len_hash = LenHash::from_bstr(stored);
                Ok(NameRef { addr, len_hash })
            },
        }
    }

    /// Gives up everything from `addr` on: zeroes the bytes from `addr` to the
    /// cursor and moves the cursor back to `addr`. `false`, and nothing
    /// changed, unless `addr` lies in the arena at or below the cursor.
    pub fn rewind(&mut self, addr: usize) -> (r: bool)
        requires
            old(self).wf(),
        ensures
            final(self).wf(),
            r == (old(self)@.start <= addr < old(self)@.end() && addr <= old(self)@.cur),
            r ==> final(self)@ == old(self)@.rewound(addr as nat),
            !r ==> final(self)@ == old(self)@,
    {
        if !(self.contains(addr) && addr <= self.cur) {
            return false;
        }
        let n = self.cur - addr;
        self.zero_range(addr, n);
        self.cur = addr;
        true
    }
}

/// True when every byte is below 128.
pub fn all_ascii(bytes: &[u8]) -> (r: bool)
    ensures
        r == is_ascii_bytes(bytes@),
{
    let mut i: usize = 0;
    while i < bytes.len()
        invariant
            i <= bytes@.len(),
            forall|j: int| 0 <= j < i ==> bytes@[j] < 128,
        decreases bytes@.len() - i,
    {
        if bytes[i] >= 128 {
            return false;
        }
        i += 1;
    }
    true
}


/// What kind of word an entry describes.
#[derive(Clone, Copy, Debug, PartialEq, Eq, Structural)]
pub enum EntryKind {
    /// A word of the builtin table the machine was made with.
    StaticBuiltin,
    /// A builtin that was added later and lives in the dictionary.
    RuntimeBuiltin,
    /// A word defined with `:`; its body follows its entry.
    Dictionary,
    /// A word that the host runs.
    AsyncBuiltin,
}

impl EntryKind {
    pub open spec fn spec_code(self) -> u32 {
        match self {
            EntryKind::StaticBuiltin => 0,
            EntryKind::RuntimeBuiltin => 1,
            EntryKind::Dictionary => 2,
            EntryKind::AsyncBuiltin => 3,
        }
    }

    pub open spec fn spec_from_code(code: u32) -> Option<EntryKind> {
        if code == 0 {
            Some(EntryKind::StaticBuiltin)
        } else if code == 1 {
            Some(EntryKind::RuntimeBuiltin)
        } else if code == 2 {
            Some(EntryKind::Dictionary)
        } else if code == 3 {
            Some(EntryKind::AsyncBuiltin)
        } else {
            None
        }
    }

    #[verifier::when_used_as_spec(spec_code)]
    pub fn code(self) -> (c: u32)
        ensures
            c == self.spec_code(),
    {
        match self {
            EntryKind::StaticBuiltin => 0,
            EntryKind::RuntimeBuiltin => 1,
            EntryKind::Dictionary => 2,
            EntryKind::AsyncBuiltin => 3,
        }
    }

    #[verifier::when_used_as_spec(spec_from_code)]
    pub fn from_code(code: u32) -> (r: Option<EntryKind>)
        ensures
            r == EntryKind::spec_from_code(code),
    {
        if code == 0 {
            Some(EntryKind::StaticBuiltin)
        } else if code == 1 {
            Some(EntryKind::RuntimeBuiltin)
        } else if code == 2 {
            Some(EntryKind::Dictionary)
        } else if code == 3 {
            Some(EntryKind::AsyncBuiltin)
        } else {
            None
        }
    }
}

/// What every entry starts with: the name, the kind, and the number of cells
/// in the body (0 for builtins).
pub struct EntryHeader<'a, T> {
    pub name: &'a [u8],
    pub len_hash: LenHash,
    pub kind: EntryKind,
    pub len: u16,
    pub _pd: PhantomData<T>,
}

impl<'a, T> EntryHeader<'a, T> {
    pub open spec fn spec_name(&self) -> Seq<u8> {
        self.name@
    }

    pub open spec fn spec_len_hash(&self) -> u32 {
        self.len_hash@
    }

    /// The descriptor gives the length of the name.
    pub open spec fn wf(&self) -> bool {
        self.spec_name().len() == len_field(self.spec_len_hash())
    }

    /// Does `name` name this entry?
    pub open spec fn named(&self, name: NameView) -> bool {
        len_hash_eq(self.spec_len_hash(), name.len_hash) && self.spec_name() == name.bytes
    }

    /// A header for the name made of the first 31 bytes, at most, of `name`.
    pub fn new(name: &'a [u8], kind: EntryKind, len: u16) -> (r: Self)
        ensures
            r.wf(),
            r.spec_name() == name_prefix(name@),
            r.spec_len_hash() == len_hash_of(name@),
            r.kind == kind,
            r.len == len,
    {
        let fastr = FaStr::new(name);
        proof {
            crate::fastr::lemma_pack_fields(
                name_prefix(name@).len() as u32,
                crate::fastr::fnv1a(name_prefix(name@)),
            );
        }
        EntryHeader { name: fastr.as_bytes(), len_hash: fastr.len_hash(), kind, len, _pd: PhantomData }
    }

    /// A header for a name stored with its descriptor `len_hash`: the first
    /// `len_hash.len()` bytes of `name`, or `None` where there are fewer.
    pub fn from_stored(name: &'a [u8], len_hash: LenHash, kind: EntryKind, len: u16) -> (r: Option<
        Self,
    >)
        ensures
            r.is_some() == (len_field(len_hash@) <= name@.len()),
            r.is_some() ==> r.unwrap().wf() && r.unwrap().spec_name() == name@.take(
                len_field(len_hash@) as int,
            ) && r.unwrap().spec_len_hash() == len_hash@ && r.unwrap().kind == kind
                && r.unwrap().len == len,
    {
        match FaStr::from_stored(name, len_hash) {
            Some(f) => Some(
                EntryHeader { name: f.as_bytes(), len_hash: f.len_hash(), kind, len, _pd: PhantomData },
            ),
            None => None,
        }
    }

    /// The name of the entry.
    pub fn name(&self) -> (r: FaStr<'a>)
        requires
            self.wf(),
        ensures
            r.spec_bytes() == self.spec_name(),
            r.spec_len_hash() == self.spec_len_hash(),
            forall|n: NameView| r@.same_name(n) == self.named(n),
    {
        match FaStr::from_stored(self.name, self.len_hash) {
            Some(f) => {
                assert(self.name@.take(self.name@.len() as int) =~= self.name@);
                f
            },
            None => FaStr::new(self.name),
        }
    }
}

/// An entry of the builtin table.
pub struct BuiltinEntry<T> {
    pub hdr: EntryHeader<'static, T>,
    pub func: WordFunc,
}

impl<T> BuiltinEntry<T> {
    /// The builtin `name`, run by `func`.
    pub fn new(name: &'static str, func: WordFunc) -> (r: Self)
        ensures
            r.hdr.wf(),
            r.hdr.spec_name() == name_prefix(name.spec_bytes()),
            r.hdr.spec_len_hash() == len_hash_of(name.spec_bytes()),
            r.hdr.kind == EntryKind::StaticBuiltin,
            r.hdr.len == 0,
            r.func == func,
    {
        BuiltinEntry { hdr: EntryHeader::new(name.as_bytes(), EntryKind::StaticBuiltin, 0), func }
    }
}

/// An entry of the host's table of words that the host runs itself.
pub struct AsyncBuiltinEntry<T> {
    pub hdr: EntryHeader<'static, T>,
}

impl<T> AsyncBuiltinEntry<T> {
    /// The host's word `name`.
    pub fn new(name: &'static str) -> (r: Self)
        ensures
            r.hdr.wf(),
            r.hdr.spec_name() == name_prefix(name.spec_bytes()),
            r.hdr.spec_len_hash() == len_hash_of(name.spec_bytes()),
            r.hdr.kind == EntryKind::AsyncBuiltin,
            r.hdr.len == 0,
    {
        AsyncBuiltinEntry { hdr: EntryHeader::new(name.as_bytes(), EntryKind::AsyncBuiltin, 0) }
    }
}

/// Bytes an entry occupies in the arena before its body.
pub const ENTRY_SIZE: usize = 20;

/// An entry read from the arena. In the arena it is five cells: the address
/// of the name, the name's descriptor, kind and body length, the routine, and
/// the address of the entry defined before it (0 for none). The body follows.
pub struct DictionaryEntry<T> {
    /// Where the name stands in the arena.
    pub name_addr: u32,
    pub len_hash: LenHash,
    pub kind: EntryKind,
    pub len: u16,
    pub func: WordFunc,
    /// Link field, points back to the previous entry
    pub link: u32,
    pub _pd: PhantomData<T>,
}

impl<T> DictionaryEntry<T> {
    /// The address of the first cell of the body of the entry at `this`.
    pub fn pfa(this: u32) -> (r: u32)
        requires
            this + ENTRY_SIZE <= u32::MAX,
        ensures
            r == this + ENTRY_SIZE,
    {
        this + 20
    }

    pub open spec fn spec_link(&self) -> u32 {
        self.link
    }

    pub fn link(&self) -> (r: u32)
        ensures
            r == self.spec_link(),
    {
        self.link
    }
}

/// The five cells of an entry as numbers.
pub struct RawEntry {
    pub name_addr: u32,
    pub len_hash: u32,
    pub kind: u32,
    pub len: u16,
    pub func: u32,
    pub link: u32,
}

impl ArenaView {
    /// The cells at `addr`, read as an entry.
    pub open spec fn raw_entry(self, addr: int) -> RawEntry {
        RawEntry {
            name_addr: self.read_u32(addr),
            len_hash: self.read_u32(addr + 4),
            kind: (self.read_u32(addr + 8) % 65536) as u32,
            len: (self.read_u32(addr + 8) / 65536) as u16,
            func: self.read_u32(addr + 12),
            link: self.read_u32(addr + 16),
        }
    }

    /// An entry stands at `addr`: its five cells lie in the arena, kind and
    /// routine are known ones, the name lies below the entry, and so does the
    /// entry it links to.
    pub open spec fn entry_ok(self, addr: int) -> bool {
        let e = self.raw_entry(addr);
        &&& addr > 0
        &&& self.holds(addr, ENTRY_SIZE as int)
        &&& (e.kind == 1 || e.kind == 2)
        &&& WordFunc::spec_from_code(e.func).is_some()
        &&& self.start <= e.name_addr
        &&& e.name_addr + len_field(e.len_hash) <= addr
        &&& (e.link == 0 || (self.start <= e.link && e.link + ENTRY_SIZE <= addr))
    }

    /// The name of the entry at `addr`.
    pub open spec fn entry_name(self, addr: int) -> Seq<u8> {
        let e = self.raw_entry(addr);
        self.bytes(e.name_addr as int, len_field(e.len_hash) as int)
    }

    /// Does `name` name the entry at `addr`?
    pub open spec fn entry_named(self, addr: int, name: NameView) -> bool {
        len_hash_eq(self.raw_entry(addr).len_hash, name.len_hash) && self.entry_name(addr)
            == name.bytes
    }

    /// The entries reached from `tail` along the links, newest first. The
    /// walk ends at 0 and at anything that is no entry.
    pub open spec fn chain(self, tail: int) -> Seq<int>
        decreases tail,
    {
        if tail > 0 && self.entry_ok(tail) {
            seq![tail] + self.chain(self.raw_entry(tail).link as int)
        } else {
            Seq::empty()
        }
    }

    /// The newest entry on the chain from `tail` that `name` names.
    pub open spec fn find(self, tail: int, name: NameView) -> Option<u32>
        decreases tail,
    {
        if tail > 0 && self.entry_ok(tail) {
            if self.entry_named(tail, name) {
                Some(tail as u32)
            } else {
                self.find(self.raw_entry(tail).link as int, name)
            }
        } else {
            None
        }
    }

    /// The arena with an entry written at `addr`.
    pub open spec fn store_entry(self, addr: int, e: RawEntry) -> ArenaView {
        self.store_u32(addr, e.name_addr).store_u32(addr + 4, e.len_hash).store_u32(
            addr + 8,
            (e.kind + 65536 * e.len) as u32,
        ).store_u32(addr + 12, e.func).store_u32(addr + 16, e.link)
    }
}

impl DictionaryBump {
    /// Reads the entry at `addr`, or `None` where none stands.
    pub fn entry_at<T>(&self, addr: u32) -> (r: Option<DictionaryEntry<T>>)
        requires
            self.wf(),
        ensures
            r.is_some() == self@.entry_ok(addr as int),
            r.is_some() ==> {
                let e = self@.raw_entry(addr as int);
                let d = r.unwrap();
                &&& d.name_addr == e.name_addr
                &&& d.len_hash@ == e.len_hash
                &&& Some(d.kind) == EntryKind::spec_from_code(e.kind)
                &&& d.len == e.len
                &&& Some(d.func) == WordFunc::spec_from_code(e.func)
                &&& d.spec_link() == e.link
            },
    {
        let a = addr as usize;
        if addr == 0 || !self.holds(a, 20) {
            return None;
        }
        let name_addr = self.read_u32(a).unwrap();
        let len_hash = LenHash::from_raw(self.read_u32(a + 4).unwrap());
        let kl = self.read_u32(a + 8).unwrap();
        let func_code = self.read_u32(a + 12).unwrap();
        let link = self.read_u32(a + 16).unwrap();
        let kind_code = kl % 65536;
        let len = (kl / 65536) as u16;
        if kind_code != 1 && kind_code != 2 {
            return None;
        }
        let kind = EntryKind::from_code(kind_code).unwrap();
        let func = match WordFunc::from_code(func_code) {
            Some(f) => f,
            None => return None,
        };
        let name_len = len_hash.len();
        if (name_addr as usize) < self.start || name_addr as usize > a || name_len > a
            - name_addr as usize {
            return None;
        }
        if link != 0 && ((link as usize) < self.start || link as usize > a || 20 > a
            - link as usize) {
            return None;
        }
        Some(DictionaryEntry { name_addr, len_hash, kind, len, func, link, _pd: PhantomData })
    }

    /// The name of the entry at `addr`, or `None` where no entry stands.
    pub fn name_at(&self, addr: u32) -> (r: Option<FaStr<'_>>)
        requires
            self.wf(),
        ensures
            r.is_some() == self@.entry_ok(addr as int),
            r matches Some(f) ==> f.spec_bytes() == self@.entry_name(addr as int)
                && f.spec_len_hash() == self@.raw_entry(addr as int).len_hash && (forall|
                n: NameView,
            | f@.same_name(n) == self@.entry_named(addr as int, n)),
    {
        match self.entry_at::<u8>(addr) {
            None => None,
            Some(e) => {
                let n = e.len_hash.len();
                match self.bytes(e.name_addr as usize, n) {
                    None => None,
                    Some(name) => {
                        assert(name@.take(name@.len() as int) =~= name@);
                        FaStr::from_stored(name, e.len_hash)
                    },
                }
            },
        }
    }

    /// Writes an entry at `addr`; `false`, and nothing written, where its
    /// five cells do not lie in the arena.
    pub fn write_entry(
        &mut self,
        addr: u32,
        name: NameRef,
        kind: EntryKind,
        len: u16,
        func: WordFunc,
        link: u32,
    ) -> (r: bool)
        requires
            old(self).wf(),
            name.addr <= u32::MAX,
        ensures
            final(self).wf(),
            r == old(self)@.holds(addr as int, ENTRY_SIZE as int),
            r ==> final(self)@ == old(self)@.store_entry(
                addr as int,
                RawEntry {
                    name_addr: name.addr as u32,
                    len_hash: name.len_hash@,
                    kind: kind.spec_code(),
                    len,
                    func: func.spec_code(),
                    link,
                },
            ),
            !r ==> final(self)@ == old(self)@,
    {
        let a = addr as usize;
        if !self.holds(a, 20) {
            return false;
        }
        let kl: u32 = kind.code() + 65536 * (len as u32);
        self.write_u32(a, name.addr as u32);
        self.write_u32(a + 4, name.len_hash.raw());
        self.write_u32(a + 8, kl);
        self.write_u32(a + 12, func.code());
        self.write_u32(a + 16, link);
        true
    }
}


/// Two arenas hold the same bytes below the address `limit`.
pub open spec fn same_below(a: ArenaView, b: ArenaView, limit: int) -> bool {
    &&& a.start == b.start
    &&& a.mem.len() == b.mem.len()
    &&& forall|i: int| 0 <= i < limit - a.start && i < a.mem.len() ==> a.mem[i] == b.mem[i]
}

/// Arenas that hold the same bytes below `limit` read the same below it.
pub proof fn lemma_same_bytes(a: ArenaView, b: ArenaView, limit: int, addr: int, n: int)
    requires
        same_below(a, b, limit),
        a.holds(addr, n),
        addr + n <= limit,
    ensures
        a.bytes(addr, n) == b.bytes(addr, n),
        n == 4 ==> a.read_u32(addr) == b.read_u32(addr),
{
    assert(a.bytes(addr, n) =~= b.bytes(addr, n));
}

/// Arenas that hold the same bytes below `limit` hold the same entry at
/// `addr`, where it ends below `limit`.
pub proof fn lemma_same_entry(a: ArenaView, b: ArenaView, limit: int, addr: int)
    requires
        same_below(a, b, limit),
        addr + ENTRY_SIZE <= limit,
    ensures
        a.entry_ok(addr) == b.entry_ok(addr),
        a.entry_ok(addr) ==> a.raw_entry(addr) == b.raw_entry(addr) && a.entry_name(addr)
            == b.entry_name(addr),
{
    if a.holds(addr, ENTRY_SIZE as int) {
        lemma_same_bytes(a, b, limit, addr, 4);
        lemma_same_bytes(a, b, limit, addr + 4, 4);
        lemma_same_bytes(a, b, limit, addr + 8, 4);
        lemma_same_bytes(a, b, limit, addr + 12, 4);
        lemma_same_bytes(a, b, limit, addr + 16, 4);
        let e = a.raw_entry(addr);
        assert(b.raw_entry(addr) == e);
        if a.entry_ok(addr) {
            lemma_same_bytes(a, b, limit, e.name_addr as int, len_field(e.len_hash) as int);
        }
    }
}

/// The words that a lookup can reach depend only on the bytes below the end
/// of the newest entry: arenas that agree there give the same chain and find
/// the same words.
pub proof fn lemma_same_chain(a: ArenaView, b: ArenaView, limit: int, tail: int, name: NameView)
    requires
        same_below(a, b, limit),
        tail <= 0 || tail + ENTRY_SIZE <= limit,
    ensures
        a.chain(tail) == b.chain(tail),
        a.find(tail, name) == b.find(tail, name),
    decreases tail,
{
    if tail > 0 {
        lemma_same_entry(a, b, limit, tail);
        if a.entry_ok(tail) {
            lemma_same_chain(a, b, limit, a.raw_entry(tail).link as int, name);
        }
    }
}

/// A word that a lookup finds is an entry on the chain: it stands at or
/// below the newest entry.
pub proof fn lemma_find_on_chain(a: ArenaView, tail: int, name: NameView)
    requires
        a.end() <= u32::MAX,
    ensures
        a.find(tail, name) matches Some(x) ==> 0 < x <= tail && a.entry_ok(x as int)
            && a.entry_named(x as int, name) && a.chain(tail).contains(x as int),
        forall|i: int| 0 <= i < a.chain(tail).len() ==> 0 < #[trigger] a.chain(tail)[i] <= tail,
    decreases tail,
{
    if tail > 0 && a.entry_ok(tail) {
        let link = a.raw_entry(tail).link as int;
        lemma_find_on_chain(a, link, name);
        let c = a.chain(tail);
        assert(c[0] == tail);
        assert(c.contains(tail));
        assert forall|i: int| 0 <= i < c.len() implies 0 < #[trigger] c[i] <= tail by {
            if i > 0 {
                assert(c[i] == a.chain(link)[i - 1]);
            }
        }
        if !a.entry_named(tail, name) {
            if a.find(link, name).is_some() {
                let x = a.find(link, name).unwrap() as int;
                let j = choose|j: int| 0 <= j < a.chain(link).len() && a.chain(link)[j] == x;
                assert(c[j + 1] == x);
                assert(c.contains(x));
            }
        }
    }
}

/// Four bytes written as a number read back as that number.
pub proof fn lemma_store_u32(a: ArenaView, addr: int, x: u32)
    requires
        a.holds(addr, 4),
    ensures
        a.store_u32(addr, x).read_u32(addr) == x,
        a.store_u32(addr, x).start == a.start,
        a.store_u32(addr, x).cur == a.cur,
        a.store_u32(addr, x).mem.len() == a.mem.len(),
{
    lemma_le_roundtrip(x);
    assert(a.store_u32(addr, x).bytes(addr, 4) =~= u32_le_bytes(x));
}

/// Writing four bytes leaves what is read elsewhere as it was.
pub proof fn lemma_store_u32_keeps(a: ArenaView, addr: int, x: u32, other: int, n: int)
    requires
        a.holds(addr, 4),
        a.holds(other, n),
        other + n <= addr || addr + 4 <= other,
    ensures
        a.store_u32(addr, x).bytes(other, n) == a.bytes(other, n),
        n == 4 ==> a.store_u32(addr, x).read_u32(other) == a.read_u32(other),
{
    assert(a.store_u32(addr, x).bytes(other, n) =~= a.bytes(other, n));
}

/// Kind and length share a cell: the kind in its low half, the length in
/// its high half.
pub proof fn lemma_kind_len(kind: u32, len: u16)
    requires
        kind < 65536,
    ensures
        ((kind + 65536 * len) as u32) % 65536 == kind,
        ((kind + 65536 * len) as u32) / 65536 == len,
{
}

/// The five cells of an entry written to the arena read back as they were
/// written.
#[verifier::rlimit(100)]
pub proof fn lemma_store_entry_cells(a: ArenaView, addr: int, e: RawEntry)
    requires
        a.holds(addr, ENTRY_SIZE as int),
    ensures
        a.store_entry(addr, e).read_u32(addr) == e.name_addr,
        a.store_entry(addr, e).read_u32(addr + 4) == e.len_hash,
        a.store_entry(addr, e).read_u32(addr + 8) == (e.kind + 65536 * e.len) as u32,
        a.store_entry(addr, e).read_u32(addr + 12) == e.func,
        a.store_entry(addr, e).read_u32(addr + 16) == e.link,
        a.store_entry(addr, e).start == a.start,
        a.store_entry(addr, e).cur == a.cur,
        a.store_entry(addr, e).mem.len() == a.mem.len(),
{
    let kl = (e.kind + 65536 * e.len) as u32;
    let a1 = a.store_u32(addr, e.name_addr);
    lemma_store_u32(a, addr, e.name_addr);
    let a2 = a1.store_u32(addr + 4, e.len_hash);
    lemma_store_u32(a1, addr + 4, e.len_hash);
    lemma_store_u32_keeps(a1, addr + 4, e.len_hash, addr, 4);
    let a3 = a2.store_u32(addr + 8, kl);
    lemma_store_u32(a2, addr + 8, kl);
    lemma_store_u32_keeps(a2, addr + 8, kl, addr, 4);
    lemma_store_u32_keeps(a2, addr + 8, kl, addr + 4, 4);
    let a4 = a3.store_u32(addr + 12, e.func);
    lemma_store_u32(a3, addr + 12, e.func);
    lemma_store_u32_keeps(a3, addr + 12, e.func, addr, 4);
    lemma_store_u32_keeps(a3, addr + 12, e.func, addr + 4, 4);
    lemma_store_u32_keeps(a3, addr + 12, e.func, addr + 8, 4);
    let a5 = a4.store_u32(addr + 16, e.link);
    lemma_store_u32(a4, addr + 16, e.link);
    lemma_store_u32_keeps(a4, addr + 16, e.link, addr, 4);
    lemma_store_u32_keeps(a4, addr + 16, e.link, addr + 4, 4);
    lemma_store_u32_keeps(a4, addr + 16, e.link, addr + 8, 4);
    lemma_store_u32_keeps(a4, addr + 16, e.link, addr + 12, 4);
}

/// An entry written to the arena reads back as it was written.
pub proof fn lemma_store_entry(a: ArenaView, addr: int, e: RawEntry)
    requires
        a.holds(addr, ENTRY_SIZE as int),
        e.kind < 65536,
    ensures
        a.store_entry(addr, e).raw_entry(addr) == e,
        a.store_entry(addr, e).start == a.start,
        a.store_entry(addr, e).cur == a.cur,
        a.store_entry(addr, e).mem.len() == a.mem.len(),
{
    lemma_store_entry_cells(a, addr, e);
    lemma_kind_len(e.kind, e.len);
}

/// Writing an entry leaves what is read outside its five cells as it was.
#[verifier::rlimit(100)]
pub proof fn lemma_store_entry_keeps(a: ArenaView, addr: int, e: RawEntry, other: int, n: int)
    requires
        a.holds(addr, ENTRY_SIZE as int),
        a.holds(other, n),
        other + n <= addr || addr + ENTRY_SIZE <= other,
    ensures
        a.store_entry(addr, e).bytes(other, n) == a.bytes(other, n),
{
    let kl = (e.kind + 65536 * e.len) as u32;
    let a1 = a.store_u32(addr, e.name_addr);
    lemma_store_u32(a, addr, e.name_addr);
    lemma_store_u32_keeps(a, addr, e.name_addr, other, n);
    let a2 = a1.store_u32(addr + 4, e.len_hash);
    lemma_store_u32(a1, addr + 4, e.len_hash);
    lemma_store_u32_keeps(a1, addr + 4, e.len_hash, other, n);
    let a3 = a2.store_u32(addr + 8, kl);
    lemma_store_u32(a2, addr + 8, kl);
    lemma_store_u32_keeps(a2, addr + 8, kl, other, n);
    let a4 = a3.store_u32(addr + 12, e.func);
    lemma_store_u32(a3, addr + 12, e.func);
    lemma_store_u32_keeps(a3, addr + 12, e.func, other, n);
    lemma_store_u32(a4, addr + 16, e.link);
    lemma_store_u32_keeps(a4, addr + 16, e.link, other, n);
}

/// A cell that was appended stands at the first aligned address at or after
/// the old cursor, and the cursor stands behind it.
pub proof fn lemma_word_written(a: ArenaView, w: Word)
    requires
        a.wf(),
        a.bump_fits(4, 4),
    ensures
        a.word_written(w).wf(),
        a.word_written(w).read_word(a.bump_addr(4) as int) == w,
        a.word_written(w).cur == a.bump_addr(4) + 4,
        a.word_written(w).bump_addr(4) == a.bump_addr(4) + 4,
        a.word_written(w).start == a.start,
        a.word_written(w).mem.len() == a.mem.len(),
{
    let b = a.bumped(4, 4);
    let at = a.bump_addr(4) as int;
    lemma_store_u32(b, at, cell_bits(w.data));
    lemma_cell_roundtrip(w.data);
}

/// Appending a cell leaves what lay below the cursor as it was.
pub proof fn lemma_word_written_keeps(a: ArenaView, w: Word, addr: int, n: int)
    requires
        a.wf(),
        a.bump_fits(4, 4),
        a.holds(addr, n),
        addr + n <= a.cur,
    ensures
        a.word_written(w).bytes(addr, n) == a.bytes(addr, n),
        n == 4 ==> a.word_written(w).read_word(addr) == a.read_word(addr),
{
    let b = a.bumped(4, 4);
    let at = a.bump_addr(4) as int;
    assert(b.bytes(addr, n) =~= a.bytes(addr, n));
    lemma_store_u32_keeps(b, at, cell_bits(w.data), addr, n);
}

/// Appending a cell leaves every byte below the cursor as it was.
pub proof fn lemma_word_written_grown(a: ArenaView, w: Word)
    requires
        a.wf(),
        a.bump_fits(4, 4),
    ensures
        same_below(a, a.word_written(w), a.cur as int),
{
    let b = a.word_written(w);
    lemma_word_written(a, w);
    assert forall|i: int| 0 <= i < a.cur - a.start && i < a.mem.len() implies a.mem[i]
        == b.mem[i] by {
        lemma_word_written_keeps(a, w, a.start + i, 1);
        assert(b.bytes(a.start + i, 1)[0] == a.bytes(a.start + i, 1)[0]);
    }
}

/// An aligned allocation leaves every byte below the cursor as it was, and
/// where it fits, what it hands out lies between the old cursor and the new.
pub proof fn lemma_bumped_grown(a: ArenaView, size: nat, align: nat)
    requires
        a.wf(),
        align > 0,
    ensures
        same_below(a, a.bumped(size, align), a.cur as int),
        a.bumped(size, align).wf(),
        a.bump_fits(size, align) ==> a.cur <= a.bump_addr(align) && a.bumped(size, align).cur
            == a.bump_addr(align) + size && a.bumped(size, align).holds(
            a.bump_addr(align) as int,
            size as int,
        ),
{
}

/// Interning a name leaves every byte below the cursor as it was, and puts
/// the folded name at the cursor.
pub proof fn lemma_interned_grown(a: ArenaView, s: Seq<u8>)
    requires
        a.wf(),
        a.intern_result(s).is_ok(),
    ensures
        same_below(a, a.interned(s), a.cur as int),
        a.interned(s).wf(),
        a.interned(s).cur == a.cur + name_prefix(s).len(),
        a.interned(s).bytes(a.cur as int, name_prefix(s).len() as int) == lower(name_prefix(s)),
        a.interned(s).holds(a.cur as int, name_prefix(s).len() as int),
{
    let text = lower(name_prefix(s));
    assert(a.interned(s).bytes(a.cur as int, text.len() as int) =~= text);
}

/// Arenas that agree below a limit, one after the other, agree below the
/// lower limit.
pub proof fn lemma_same_below_trans(a: ArenaView, b: ArenaView, c: ArenaView, low: int, high: int)
    requires
        same_below(a, b, low),
        same_below(b, c, high),
        low <= high,
    ensures
        same_below(a, c, low),
{
}

/// An arena in order stays in order through every allocation, so what is
/// used never exceeds the capacity; and an allocation that is refused leaves
/// the cursor where it was.
pub proof fn lemma_arena_bounds(a: ArenaView, size: nat, align: nat, n: nat, w: Word, s: Seq<u8>)
    requires
        a.wf(),
        align > 0,
    ensures
        a.bumped(size, align).wf(),
        a.bumped_u8s(n).wf(),
        a.word_written(w).wf(),
        a.interned(s).wf(),
        a.bumped(size, align).cur - a.start <= a.end() - a.start,
        a.bumped(size, align).end() == a.end(),
        a.bumped_u8s(n).end() == a.end(),
        a.word_written(w).end() == a.end(),
        a.interned(s).end() == a.end(),
        !a.bump_fits(size, align) ==> a.bumped(size, align).cur == a.cur,
        !(n > 0 && a.cur + n <= a.end()) ==> a.bumped_u8s(n).cur == a.cur,
        !a.bump_fits(4, 4) ==> a.word_written(w).cur == a.cur,
        a.intern_result(s).is_err() ==> a.interned(s).cur == a.cur,
{
}
} // verus!
