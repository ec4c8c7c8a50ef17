//! The compiler: it reads tokens and appends cells to the definition that is
//! being compiled.

use crate::dictionary::BumpError;
use crate::dictionary::ArenaView;
use crate::vm::{Forth, ForthView, ASYNC_BASE, BUILTIN_BASE};
use crate::word::Word;
use crate::{Error, Lookup};
use vstd::prelude::*;
use vstd::string::StringSliceAdditionalSpecFns;

verus! {

/// How a run of compiled words ended.
#[derive(Clone, Copy, Debug, PartialEq, Eq, Structural)]
pub enum BodyEnd {
    /// At `;` or at the end of the line.
    Stop,
    Else,
    Then,
    Loop,
}

/// The errors that stand for a token that closes a structure.
pub open spec fn closes(r: Result<u16, Error>) -> bool {
    r == Err::<u16, Error>(Error::ElseBeforeIf) || r == Err::<u16, Error>(Error::ThenBeforeIf) || r
        == Err::<u16, Error>(Error::LoopBeforeDo)
}

/// The cell that holds the address `addr`.
pub open spec fn ptr_word(addr: u32) -> Word {
    Word { data: addr as i32 }
}

/// A string of `n` bytes behind an aligned address takes `(n + 3) / 4` cells.
pub proof fn lemma_str_cells(a: nat, n: nat)
    requires
        a % 4 == 0,
    ensures
        n / 4 + (if n % 4 == 0 { 0int } else { 1int }) == (n + 3) / 4,
        a + n + ((4 - (a + n) % 4) % 4) == a + 4 * ((n + 3) / 4),
{
}

/// A cell stored in the arena is read back as it was stored, and nothing
/// but its four bytes changed.
pub proof fn lemma_patch(a: ArenaView, addr: int, w: Word)
    requires
        a.holds(addr, 4),
    ensures
        a.store_word(addr, w).read_word(addr) == w,
        a.store_word(addr, w).start == a.start,
        a.store_word(addr, w).cur == a.cur,
        a.store_word(addr, w).mem.len() == a.mem.len(),
        forall|i: int|
            0 <= i < a.mem.len() && !(addr - a.start <= i < addr - a.start + 4) ==> a.store_word(
                addr,
                w,
            ).mem[i] == a.mem[i],
{
    crate::dictionary::lemma_le_roundtrip(crate::dictionary::cell_bits(w.data));
    crate::dictionary::lemma_cell_roundtrip(w.data);
    assert(a.store_word(addr, w).bytes(addr, 4) =~= crate::dictionary::u32_le_bytes(
        crate::dictionary::cell_bits(w.data),
    ));
}

impl<T> ForthView<T> {
    pub open spec fn advanced(self) -> ForthView<T> {
        ForthView { input: self.input.advanced(), ..self }
    }

    /// Appending the cell `w` to the definition that is being compiled, of
    /// `len` cells so far.
    pub open spec fn emit_cell(self, len: u16, w: Word) -> (ForthView<T>, u16, Result<(), Error>) {
        if len >= u16::MAX {
            (self, len, Err(Error::BadCfaOffset))
        } else if !self.arena.bump_fits(4, 4) {
            (
                ForthView { arena: self.arena.word_written(w), ..self },
                len,
                Err(Error::Bump(BumpError::OutOfMemory)),
            )
        } else {
            (ForthView { arena: self.arena.word_written(w), ..self }, (len + 1) as u16, Ok(()))
        }
    }

    /// Appending the cells `w1` and `w2`; the count moves only when both
    /// were appended.
    pub open spec fn emit_cells(self, len: u16, w1: Word, w2: Word) -> (
        ForthView<T>,
        u16,
        Result<(), Error>,
    ) {
        let a1 = self.arena.word_written(w1);
        let a2 = a1.word_written(w2);
        if len + 2 > u16::MAX {
            (self, len, Err(Error::BadCfaOffset))
        } else if !self.arena.bump_fits(4, 4) {
            (ForthView { arena: a1, ..self }, len, Err(Error::Bump(BumpError::OutOfMemory)))
        } else if !a1.bump_fits(4, 4) {
            (ForthView { arena: a2, ..self }, len, Err(Error::Bump(BumpError::OutOfMemory)))
        } else {
            (ForthView { arena: a2, ..self }, (len + 2) as u16, Ok(()))
        }
    }

    /// What stands for a result that cannot come about.
    pub open spec fn no_result(self, len: u16) -> (ForthView<T>, u16, Result<u16, Error>) {
        (self, len, Err(Error::InternalError))
    }

    /// The machine with the cell `off` stored at `at`.
    pub open spec fn patched(self, at: int, off: int) -> ForthView<T> {
        ForthView { arena: self.arena.store_word(at, Word { data: off as i32 }), ..self }
    }

    /// The result `r`, with the count of cells appended since `len` in place
    /// of its own.
    pub open spec fn since(len: u16, r: (ForthView<T>, u16, Result<u16, Error>)) -> (
        ForthView<T>,
        u16,
        Result<u16, Error>,
    ) {
        (
            r.0,
            r.1,
            if r.2.is_err() {
                r.2
            } else {
                Ok((r.1 - len) as u16)
            },
        )
    }

    /// Compiling one token: what the machine is after it, how many cells the
    /// definition has then, and how many were appended. A reserved token that
    /// closes a structure comes back as its error; `;`, a comment and the end
    /// of the line append nothing.
    #[verifier::opaque]
    pub open spec fn munch_one(self, len: u16) -> (ForthView<T>, u16, Result<u16, Error>)
        decreases self.input.remaining(), 1int,
    {
        let s = self.advanced();
        if s.input.remaining() < self.input.remaining() {
            self.one_of(len, s.munch_if(len), s.munch_do(len))
        } else {
            self.one_of(len, s.no_result(len), s.no_result(len))
        }
    }

    /// Compiling one token, where `on_if` and `on_do` are what compiling the
    /// structure behind `if` and behind `do` gives.
    pub open spec fn one_of(
        self,
        len: u16,
        on_if: (ForthView<T>, u16, Result<u16, Error>),
        on_do: (ForthView<T>, u16, Result<u16, Error>),
    ) -> (ForthView<T>, u16, Result<u16, Error>) {
        let s = self.advanced();
        if s.input.word().is_none() {
            (s, len, Ok(0))
        } else {
            let w = s.input.word().unwrap();
            match s.lookup(w) {
                Err(e) => (s, len, Err(e)),
                Ok(Lookup::If) => on_if,
                Ok(Lookup::Else) => (s, len, Err(Error::ElseBeforeIf)),
                Ok(Lookup::Then) => (s, len, Err(Error::ThenBeforeIf)),
                Ok(Lookup::Semicolon) => (s, len, Ok(0)),
                Ok(Lookup::Dict { de }) => {
                    let (s1, l1, r) = s.emit_cell(len, ptr_word(de));
                    (s1, l1, if r.is_err() { Err(r.unwrap_err()) } else { Ok(1) })
                },
                Ok(Lookup::Builtin { bi }) => {
                    let (s1, l1, r) = s.emit_cell(len, ptr_word((BUILTIN_BASE + bi) as u32));
                    (s1, l1, if r.is_err() { Err(r.unwrap_err()) } else { Ok(1) })
                },
                Ok(Lookup::Async { bi }) => {
                    let (s1, l1, r) = s.emit_cell(len, ptr_word((ASYNC_BASE + bi) as u32));
                    (s1, l1, if r.is_err() { Err(r.unwrap_err()) } else { Ok(1) })
                },
                Ok(Lookup::Literal { val }) => match s.find_word("(literal)".spec_bytes()) {
                    None => (s, len, Err(Error::WordNotInDict)),
                    Some(lit) => {
                        let (s1, l1, r) = s.emit_cells(len, ptr_word(lit), Word { data: val });
                        (s1, l1, if r.is_err() { Err(r.unwrap_err()) } else { Ok(2) })
                    },
                },
                Ok(Lookup::Do) => on_do,
                Ok(Lookup::Loop) => (s, len, Err(Error::LoopBeforeDo)),
                Ok(Lookup::LParen) => (s.munch_comment(), len, Ok(0)),
                Ok(Lookup::LQuote) => s.munch_str(len),
            }
        }
    }

    /// Compiling tokens until one appends nothing or closes a structure.
    #[verifier::opaque]
    pub open spec fn munch_until(self, len: u16) -> (ForthView<T>, u16, Result<BodyEnd, Error>)
        decreases self.input.remaining(), 2int,
    {
        let one = self.munch_one(len);
        if one.0.input.remaining() < self.input.remaining() {
            Self::until_of(one, one.0.munch_until(one.1))
        } else {
            Self::until_of(one, (one.0, one.1, Ok(BodyEnd::Stop)))
        }
    }

    /// Compiling tokens until one closes a structure, where `one` is what
    /// compiling the first gave and `rest` what compiling the others gives.
    /// The run stops at `;` and at the end of the line; a comment is passed
    /// over.
    pub open spec fn until_of(
        one: (ForthView<T>, u16, Result<u16, Error>),
        rest: (ForthView<T>, u16, Result<BodyEnd, Error>),
    ) -> (ForthView<T>, u16, Result<BodyEnd, Error>) {
        match one.2 {
            Ok(n) => if n != 0 {
                rest
            } else if one.0.input.word().is_none() || one.0.input.word().unwrap()
                == ";".spec_bytes() {
                (one.0, one.1, Ok(BodyEnd::Stop))
            } else {
                rest
            },
            Err(Error::ElseBeforeIf) => (one.0, one.1, Ok(BodyEnd::Else)),
            Err(Error::ThenBeforeIf) => (one.0, one.1, Ok(BodyEnd::Then)),
            Err(Error::LoopBeforeDo) => (one.0, one.1, Ok(BodyEnd::Loop)),
            Err(e) => (one.0, one.1, Err(e)),
        }
    }

    /// The cells `(jump-zero)` or `(jmp)`, named `word`, and a zero operand,
    /// appended.
    pub open spec fn branch_head(self, len: u16, word: Seq<u8>) -> (
        ForthView<T>,
        u16,
        Result<(), Error>,
    ) {
        match self.find_word(word) {
            None => (self, len, Err(Error::WordNotInDict)),
            Some(a) => self.emit_cells(len, ptr_word(a), Word { data: 0 }),
        }
    }

    /// Where the operand of the branch stands that `branch_head` appends.
    pub open spec fn operand_at(self) -> int {
        (self.arena.bump_addr(4) + 4) as int
    }

    /// Compiling `if`: `(jump-zero)` and its operand, the words up to `else`
    /// or `then`, and after `else` what `munch_else` compiles. The operand is
    /// the number of cells up to `then`, or up to behind the `(jmp)` of the
    /// `else`, counted from the operand itself.
    #[verifier::opaque]
    pub open spec fn munch_if(self, len: u16) -> (ForthView<T>, u16, Result<u16, Error>)
        decreases self.input.remaining(), 4int,
    {
        let head = self.branch_head(len, "(jump-zero)".spec_bytes());
        if head.0.input.remaining() <= self.input.remaining() {
            let body = head.0.munch_until(head.1);
            let s2 = body.0.patched(self.operand_at(), body.1 - head.1 + 3);
            if s2.input.remaining() <= self.input.remaining() {
                self.if_of(len, head, body, s2.munch_else(body.1))
            } else {
                self.if_of(len, head, body, s2.no_result(body.1))
            }
        } else {
            self.no_result(len)
        }
    }

    /// Compiling `if`, where `head` is what appending the branch gave, `body`
    /// what compiling the words up to `else` or `then` gave, and `rest` what
    /// compiling the `else` gives.
    pub open spec fn if_of(
        self,
        len: u16,
        head: (ForthView<T>, u16, Result<(), Error>),
        body: (ForthView<T>, u16, Result<BodyEnd, Error>),
        rest: (ForthView<T>, u16, Result<u16, Error>),
    ) -> (ForthView<T>, u16, Result<u16, Error>) {
        if head.2.is_err() {
            (head.0, head.1, Err(head.2.unwrap_err()))
        } else {
            match body.2 {
                Err(e) => (body.0, body.1, Err(e)),
                Ok(BodyEnd::Stop) => (body.0, body.1, Err(Error::IfWithoutThen)),
                Ok(BodyEnd::Loop) => (body.0, body.1, Err(Error::LoopBeforeDo)),
                Ok(BodyEnd::Then) => (
                    body.0.patched(self.operand_at(), body.1 - head.1 + 1),
                    body.1,
                    Ok((body.1 - len) as u16),
                ),
                Ok(BodyEnd::Else) => Self::since(len, rest),
            }
        }
    }

    /// Compiling what follows `else`: `(jmp)` and its operand, then the words
    /// up to `then`. The operand is the number of cells up to `then`, counted
    /// from the operand itself.
    #[verifier::opaque]
    pub open spec fn munch_else(self, len: u16) -> (ForthView<T>, u16, Result<u16, Error>)
        decreases self.input.remaining(), 3int,
    {
        let head = self.branch_head(len, "(jmp)".spec_bytes());
        if head.0.input.remaining() <= self.input.remaining() {
            self.else_of(len, head, head.0.munch_until(head.1))
        } else {
            self.no_result(len)
        }
    }

    /// Compiling what follows `else`, where `head` is what appending the
    /// branch gave and `body` what compiling the words up to `then` gave.
    pub open spec fn else_of(
        self,
        len: u16,
        head: (ForthView<T>, u16, Result<(), Error>),
        body: (ForthView<T>, u16, Result<BodyEnd, Error>),
    ) -> (ForthView<T>, u16, Result<u16, Error>) {
        if head.2.is_err() {
            (head.0, head.1, Err(head.2.unwrap_err()))
        } else {
            match body.2 {
                Err(e) => (body.0, body.1, Err(e)),
                Ok(BodyEnd::Stop) => (body.0, body.1, Err(Error::IfElseWithoutThen)),
                Ok(BodyEnd::Loop) => (body.0, body.1, Err(Error::LoopBeforeDo)),
                Ok(BodyEnd::Else) => (body.0, body.1, Err(Error::DuplicateElse)),
                Ok(BodyEnd::Then) => (
                    body.0.patched(self.operand_at(), body.1 - head.1 + 1),
                    body.1,
                    Ok((body.1 - len) as u16),
                ),
            }
        }
    }

    /// The cell `2d>2r`, appended.
    pub open spec fn do_head(self, len: u16) -> (ForthView<T>, u16, Result<(), Error>) {
        match self.find_word("2d>2r".spec_bytes()) {
            None => (self, len, Err(Error::WordNotInDict)),
            Some(a) => self.emit_cell(len, ptr_word(a)),
        }
    }

    /// Compiling `do`: `2d>2r`, the words up to `loop`, then `(jmp-doloop)`
    /// with the way back to the first of them as its operand.
    #[verifier::opaque]
    pub open spec fn munch_do(self, len: u16) -> (ForthView<T>, u16, Result<u16, Error>)
        decreases self.input.remaining(), 3int,
    {
        let head = self.do_head(len);
        if head.0.input.remaining() <= self.input.remaining() {
            self.do_of(len, head, head.0.munch_until(head.1))
        } else {
            self.no_result(len)
        }
    }

    /// Compiling `do`, where `head` is what appending `2d>2r` gave and `body`
    /// what compiling the words up to `loop` gave.
    pub open spec fn do_of(
        self,
        len: u16,
        head: (ForthView<T>, u16, Result<(), Error>),
        body: (ForthView<T>, u16, Result<BodyEnd, Error>),
    ) -> (ForthView<T>, u16, Result<u16, Error>) {
        if head.2.is_err() {
            (head.0, head.1, Err(head.2.unwrap_err()))
        } else {
            match body.2 {
                Err(e) => (body.0, body.1, Err(e)),
                Ok(BodyEnd::Stop) => (body.0, body.1, Err(Error::DoWithoutLoop)),
                Ok(BodyEnd::Else) => (body.0, body.1, Err(Error::ElseBeforeIf)),
                Ok(BodyEnd::Then) => (body.0, body.1, Err(Error::ThenBeforeIf)),
                Ok(BodyEnd::Loop) => match body.0.find_word("(jmp-doloop)".spec_bytes()) {
                    None => (body.0, body.1, Err(Error::WordNotInDict)),
                    Some(back) => {
                        let (s2, l2, r2) = body.0.emit_cells(
                            body.1,
                            ptr_word(back),
                            Word { data: (-(body.1 - head.1 + 1)) as i32 },
                        );
                        (
                            s2,
                            l2,
                            if r2.is_err() {
                                Err(r2.unwrap_err())
                            } else {
                                Ok((l2 - len) as u16)
                            },
                        )
                    },
                },
            }
        }
    }

    /// After a comment: the tokens up to the first that ends in `)` are
    /// passed over, or all where none does.
    #[verifier::opaque]
    pub open spec fn munch_comment(self) -> ForthView<T>
        decreases self.input.remaining(),
    {
        let s = self.advanced();
        if s.input.word().is_none() {
            s
        } else if s.input.word().unwrap().last() == 41u8 {
            s
        } else if s.input.remaining() < self.input.remaining() {
            s.munch_comment()
        } else {
            s
        }
    }

    /// Compiling `."`: `(write-str)`, the length of the string literal that
    /// follows in the line, and its bytes in whole cells.
    #[verifier::opaque]
    pub open spec fn munch_str(self, len: u16) -> (ForthView<T>, u16, Result<u16, Error>) {
        let s = ForthView { input: self.input.advanced_str(), ..self };
        let lit = s.input.literal().unwrap();
        let cells = (lit.len() + 3) / 4;
        if !self.input.literal_closed() {
            (self, len, Err(Error::LQuoteMissingRQuote))
        } else if lit.len() > u16::MAX {
            (s, len, Err(Error::LiteralStringTooLong))
        } else {
            match s.find_word("(write-str)".spec_bytes()) {
                None => (s, len, Err(Error::WordNotInDict)),
                Some(ws) => {
                    let (s0, l0, r0) = s.emit_cells(len, ptr_word(ws), Word { data: lit.len() as i32 });
                    if r0.is_err() {
                        (s0, l0, Err(r0.unwrap_err()))
                    } else if l0 + cells > u16::MAX {
                        (s0, l0, Err(Error::BadCfaOffset))
                    } else if lit.len() == 0 {
                        (s0, l0, Ok(2))
                    } else if s0.arena.cur + lit.len() > s0.arena.end() {
                        (s0, l0, Err(Error::Bump(BumpError::OutOfMemory)))
                    } else {
                        (
                            ForthView {
                                arena: s0.arena.store(s0.arena.cur as int, lit).with_cur(
                                    s0.arena.cur + lit.len(),
                                ),
                                ..s0
                            },
                            (l0 + cells) as u16,
                            Ok((2 + cells) as u16),
                        )
                    }
                },
            }
        }
    }

    /// `munch_one`, written out one level.
    pub proof fn lemma_munch_one(self, len: u16)
        ensures
            self.munch_one(len) == if self.advanced().input.remaining() < self.input.remaining() {
                self.one_of(len, self.advanced().munch_if(len), self.advanced().munch_do(len))
            } else {
                self.one_of(len, self.advanced().no_result(len), self.advanced().no_result(len))
            },
    {
        reveal(ForthView::<_>::munch_one);
        reveal(ForthView::<_>::munch_until);
        reveal(ForthView::<_>::munch_if);
        reveal(ForthView::<_>::munch_else);
        reveal(ForthView::<_>::munch_do);
    }

    /// `munch_until`, written out one level.
    pub proof fn lemma_munch_until(self, len: u16)
        ensures
            self.munch_until(len) == if self.munch_one(len).0.input.remaining()
                < self.input.remaining() {
                Self::until_of(
                    self.munch_one(len),
                    self.munch_one(len).0.munch_until(self.munch_one(len).1),
                )
            } else {
                Self::until_of(
                    self.munch_one(len),
                    (self.munch_one(len).0, self.munch_one(len).1, Ok(BodyEnd::Stop)),
                )
            },
    {
        reveal(ForthView::<_>::munch_one);
        reveal(ForthView::<_>::munch_until);
        reveal(ForthView::<_>::munch_if);
        reveal(ForthView::<_>::munch_else);
        reveal(ForthView::<_>::munch_do);
    }

    /// `munch_if`, written out one level.
    pub proof fn lemma_munch_if(self, len: u16)
        ensures
            ({
                let head = self.branch_head(len, "(jump-zero)".spec_bytes());
                let body = head.0.munch_until(head.1);
                let s2 = body.0.patched(self.operand_at(), body.1 - head.1 + 3);
                self.munch_if(len) == if head.0.input.remaining() <= self.input.remaining() {
                    if s2.input.remaining() <= self.input.remaining() {
                        self.if_of(len, head, body, s2.munch_else(body.1))
                    } else {
                        self.if_of(len, head, body, s2.no_result(body.1))
                    }
                } else {
                    self.no_result(len)
                }
            }),
    {
        reveal(ForthView::<_>::munch_one);
        reveal(ForthView::<_>::munch_until);
        reveal(ForthView::<_>::munch_if);
        reveal(ForthView::<_>::munch_else);
        reveal(ForthView::<_>::munch_do);
    }

    /// `munch_else`, written out one level.
    pub proof fn lemma_munch_else(self, len: u16)
        ensures
            ({
                let head = self.branch_head(len, "(jmp)".spec_bytes());
                self.munch_else(len) == if head.0.input.remaining() <= self.input.remaining() {
                    self.else_of(len, head, head.0.munch_until(head.1))
                } else {
                    self.no_result(len)
                }
            }),
    {
        reveal(ForthView::<_>::munch_one);
        reveal(ForthView::<_>::munch_until);
        reveal(ForthView::<_>::munch_if);
        reveal(ForthView::<_>::munch_else);
        reveal(ForthView::<_>::munch_do);
    }

    /// `munch_do`, written out one level.
    pub proof fn lemma_munch_do(self, len: u16)
        ensures
            ({
                let head = self.do_head(len);
                self.munch_do(len) == if head.0.input.remaining() <= self.input.remaining() {
                    self.do_of(len, head, head.0.munch_until(head.1))
                } else {
                    self.no_result(len)
                }
            }),
    {
        reveal(ForthView::<_>::munch_one);
        reveal(ForthView::<_>::munch_until);
        reveal(ForthView::<_>::munch_if);
        reveal(ForthView::<_>::munch_else);
        reveal(ForthView::<_>::munch_do);
    }

    /// What compiling may do to the machine: the line is read further, never
    /// back; the arena keeps its place and size, the cursor only advances,
    /// and what lay below the cursor stays.
    #[verifier::opaque]
    pub open spec fn compiled_from(self, before: ForthView<T>) -> bool {
        &&& self == (ForthView { input: self.input, arena: self.arena, ..before })
        &&& self.input.buf.len() == before.input.buf.len()
        &&& self.input.pos >= before.input.pos
        &&& self.arena.start == before.arena.start
        &&& self.arena.mem.len() == before.arena.mem.len()
        &&& self.arena.cur >= before.arena.cur
        &&& forall|i: int|
            0 <= i < before.arena.cur - before.arena.start ==> self.arena.mem[i]
                == before.arena.mem[i]
    }

    /// The cells appended since `before` stand one behind the other: `n` of
    /// them from the first aligned address at or after the cursor of `before`.
    pub open spec fn appended(self, before: ForthView<T>, n: int) -> bool {
        self.arena.bump_addr(4) == before.arena.bump_addr(4) + 4 * n
    }
}

impl<T> ForthView<T> {
    pub proof fn lemma_compiled_refl(self)
        ensures
            self.compiled_from(self),
    {
        reveal(ForthView::<_>::compiled_from);
    }

    pub proof fn lemma_compiled_trans(self, mid: ForthView<T>, before: ForthView<T>)
        requires
            mid.compiled_from(before),
            self.compiled_from(mid),
        ensures
            self.compiled_from(before),
    {
        reveal(ForthView::<_>::compiled_from);
    }

    /// Reading the line further changes nothing that was compiled.
    pub proof fn lemma_compiled_input(self, before: ForthView<T>)
        requires
            self == (ForthView { input: self.input, ..before }),
            self.input.buf.len() == before.input.buf.len(),
            self.input.pos >= before.input.pos,
        ensures
            self.compiled_from(before),
    {
        reveal(ForthView::<_>::compiled_from);
    }

    /// Changing the arena at or above the cursor of `before` changes nothing
    /// that was compiled before.
    pub proof fn lemma_compiled_arena(self, mid: ForthView<T>, before: ForthView<T>)
        requires
            mid.compiled_from(before),
            self == (ForthView { arena: self.arena, ..mid }),
            self.arena.start == mid.arena.start,
            self.arena.mem.len() == mid.arena.mem.len(),
            self.arena.cur >= mid.arena.cur,
            forall|i: int|
                0 <= i < before.arena.cur - before.arena.start ==> self.arena.mem[i]
                    == mid.arena.mem[i],
        ensures
            self.compiled_from(before),
    {
        reveal(ForthView::<_>::compiled_from);
    }

    /// What lay below the cursor of `before` reads as it did.
    pub proof fn lemma_compiled_read(self, before: ForthView<T>, addr: int)
        requires
            self.compiled_from(before),
            before.arena.start <= addr,
            addr + 4 <= before.arena.cur,
            before.arena.cur <= before.arena.end(),
        ensures
            self.arena.read_word(addr) == before.arena.read_word(addr),
            self.arena.start == before.arena.start,
            self.arena.mem.len() == before.arena.mem.len(),
            self.arena.cur >= before.arena.cur,
    {
        reveal(ForthView::<_>::compiled_from);
        assert(self.arena.bytes(addr, 4) =~= before.arena.bytes(addr, 4));
    }

    /// What lay below the cursor of `before` holds the bytes that it held.
    pub proof fn lemma_compiled_bytes(self, before: ForthView<T>, addr: int, n: int)
        requires
            self.compiled_from(before),
            before.arena.start <= addr,
            0 <= n,
            addr + n <= before.arena.cur,
            before.arena.cur <= before.arena.end(),
        ensures
            self.arena.bytes(addr, n) == before.arena.bytes(addr, n),
    {
        reveal(ForthView::<_>::compiled_from);
        assert(self.arena.bytes(addr, n) =~= before.arena.bytes(addr, n));
    }

    pub proof fn lemma_compiled_bounds(self, before: ForthView<T>)
        requires
            self.compiled_from(before),
        ensures
            self.arena.start == before.arena.start,
            self.arena.mem.len() == before.arena.mem.len(),
            self.arena.cur >= before.arena.cur,
            self.input.buf.len() == before.input.buf.len(),
            self.input.pos >= before.input.pos,
            self == (ForthView { input: self.input, arena: self.arena, ..before }),
    {
        reveal(ForthView::<_>::compiled_from);
    }
}

impl<T> Forth<T> {
    /// Appends the cell `w` to the definition that is being compiled.
    pub fn emit_cell(&mut self, len: &mut u16, w: Word) -> (r: Result<(), Error>)
        requires
            old(self).wf(),
        ensures
            final(self).wf(),
            (final(self)@, *final(len), r) == old(self)@.emit_cell(*old(len), w),
            final(self)@.compiled_from(old(self)@),
            r.is_ok() ==> final(self)@.appended(old(self)@, 1),
            r.is_ok() ==> final(self)@.arena.read_word(old(self)@.arena.bump_addr(4) as int) == w,
            r.is_ok() ==> final(self)@.arena.cur == old(self)@.arena.bump_addr(4) + 4,
    {
        proof {
            reveal(ForthView::<_>::compiled_from);
            if old(self)@.arena.bump_fits(4, 4) {
                crate::dictionary::lemma_word_written(old(self)@.arena, w);
            }
        }
        if *len >= u16::MAX {
            return Err(Error::BadCfaOffset);
        }
        match self.dict_alloc.bump_write(w) {
            Ok(()) => {
                *len = *len + 1;
                Ok(())
            },
            Err(e) => Err(Error::Bump(e)),
        }
    }

    /// Appends the cells `w1` and `w2`.
    pub fn emit_cells(&mut self, len: &mut u16, w1: Word, w2: Word) -> (r: Result<(), Error>)
        requires
            old(self).wf(),
        ensures
            final(self).wf(),
            (final(self)@, *final(len), r) == old(self)@.emit_cells(*old(len), w1, w2),
            final(self)@.compiled_from(old(self)@),
            r.is_ok() ==> final(self)@.appended(old(self)@, 2),
            r.is_ok() ==> final(self)@.arena.read_word(old(self)@.arena.bump_addr(4) + 4int) == w2,
            r.is_ok() ==> final(self)@.arena.read_word(old(self)@.arena.bump_addr(4) as int) == w1,
            r.is_ok() ==> final(self)@.arena.cur == old(self)@.arena.bump_addr(4) + 8,
    {
        proof {
            reveal(ForthView::<_>::compiled_from);
            let a0 = old(self)@.arena;
            if a0.bump_fits(4, 4) && a0.word_written(w1).bump_fits(4, 4) {
                crate::dictionary::lemma_word_written(a0, w1);
                crate::dictionary::lemma_word_written(a0.word_written(w1), w2);
                crate::dictionary::lemma_word_written_keeps(
                    a0.word_written(w1),
                    w2,
                    a0.bump_addr(4) as int,
                    4,
                );
            }
        }
        if *len > u16::MAX - 2 {
            return Err(Error::BadCfaOffset);
        }
        match self.dict_alloc.bump_write(w1) {
            Ok(()) => {},
            Err(e) => {
                return Err(Error::Bump(e));
            },
        }
        match self.dict_alloc.bump_write(w2) {
            Ok(()) => {},
            Err(e) => {
                return Err(Error::Bump(e));
            },
        }
        proof {
            crate::dictionary::lemma_le_roundtrip(crate::dictionary::cell_bits(w2.data));
            crate::dictionary::lemma_cell_roundtrip(w2.data);
            let a = old(self)@.arena.bump_addr(4) + 4;
            assert(self@.arena.bytes(a as int, 4) =~= crate::dictionary::u32_le_bytes(
                crate::dictionary::cell_bits(w2.data),
            ));
        }
        *len = *len + 2;
        Ok(())
    }

    /// Compiles one token.
    pub fn munch_one(&mut self, len: &mut u16) -> (r: Result<u16, Error>)
        requires
            old(self).wf(),
        ensures
            final(self).wf(),
            !(r matches Err(Error::PendingCallAgain)),
            (final(self)@, *final(len), r) == old(self)@.munch_one(*old(len)),
            final(self)@.compiled_from(old(self)@),
            r matches Ok(n) ==> *final(len) == *old(len) + n,
            r.is_ok() || closes(r) ==> *final(len) >= *old(len) && final(self)@.appended(
                old(self)@,
                *final(len) - *old(len),
            ),
            old(self)@.input.advanced().has_word ==> final(self)@.input.pos > old(self)@.input.pos,
            r matches Ok(n) && n > 0 ==> old(self)@.input.advanced().has_word,
            final(self)@.input.has_word ==> old(self)@.input.advanced().has_word,
        decreases old(self)@.input.remaining(), 1int,
    {
        proof {
            old(self)@.lemma_munch_one(*old(len));
        }
        self.input.advance();
        let ghost s = self@;
        proof {
            s.lemma_compiled_input(old(self)@);
        }
        let word = match self.input.cur_word() {
            Some(w) => w,
            None => return Ok(0),
        };
        let found = self.lookup_bytes(word);
        proof {
            s.lemma_compiled_refl();
            s.lemma_compiled_trans(s, old(self)@);
        }
        match found {
            Err(e) => Err(e),
            Ok(Lookup::If) => {
                let r = self.munch_if(len);
                proof {
                    self@.lemma_compiled_bounds(s);
                    self@.lemma_compiled_trans(s, old(self)@);
                }
                r
            },
            Ok(Lookup::Else) => Err(Error::ElseBeforeIf),
            Ok(Lookup::Then) => Err(Error::ThenBeforeIf),
            Ok(Lookup::Semicolon) => Ok(0),
            Ok(Lookup::Dict { de }) => {
                // Dictionary items are put into the CFA array directly as
                // a pointer to the dictionary entry
                let r = self.emit_cell(len, Word::ptr(de));
                proof {
                    self@.lemma_compiled_bounds(s);
                    self@.lemma_compiled_trans(s, old(self)@);
                }
                match r {
                    Ok(()) => Ok(1),
                    Err(e) => Err(e),
                }
            },
            Ok(Lookup::Builtin { bi }) => {
                let r = self.emit_cell(len, Word::ptr(BUILTIN_BASE + bi));
                proof {
                    self@.lemma_compiled_bounds(s);
                    self@.lemma_compiled_trans(s, old(self)@);
                }
                match r {
                    Ok(()) => Ok(1),
                    Err(e) => Err(e),
                }
            },
            Ok(Lookup::Async { bi }) => {
                let r = self.emit_cell(len, Word::ptr(ASYNC_BASE + bi));
                proof {
                    self@.lemma_compiled_bounds(s);
                    self@.lemma_compiled_trans(s, old(self)@);
                }
                match r {
                    Ok(()) => Ok(1),
                    Err(e) => Err(e),
                }
            },
            Ok(Lookup::Literal { val }) => {
                // Literals are added to the CFA as two items:
                //
                // 1. The address of the `literal()` dictionary item
                // 2. The value of the literal, as a data word
                match self.find_word("(literal)") {
                    None => Err(Error::WordNotInDict),
                    Some(literal_dict) => {
                        let r = self.emit_cells(len, Word::ptr(literal_dict), Word::data(val));
                        proof {
                            self@.lemma_compiled_bounds(s);
                            self@.lemma_compiled_trans(s, old(self)@);
                        }
                        match r {
                            Ok(()) => Ok(2),
                            Err(e) => Err(e),
                        }
                    },
                }
            },
            Ok(Lookup::Do) => {
                let r = self.munch_do(len);
                proof {
                    self@.lemma_compiled_bounds(s);
                    self@.lemma_compiled_trans(s, old(self)@);
                }
                r
            },
            Ok(Lookup::Loop) => Err(Error::LoopBeforeDo),
            Ok(Lookup::LParen) => {
                let r = self.munch_comment(len);
                proof {
                    self@.lemma_compiled_bounds(s);
                    self@.lemma_compiled_trans(s, old(self)@);
                }
                r
            },
            Ok(Lookup::LQuote) => {
                let r = self.munch_str(len);
                proof {
                    self@.lemma_compiled_bounds(s);
                    self@.lemma_compiled_trans(s, old(self)@);
                }
                r
            },
        }
    }

    /// Compiles tokens until one appends nothing or closes a structure.
    pub fn munch_until(&mut self, len: &mut u16) -> (r: Result<BodyEnd, Error>)
        requires
            old(self).wf(),
        ensures
            final(self).wf(),
            !(r matches Err(Error::PendingCallAgain)),
            (final(self)@, *final(len), r) == old(self)@.munch_until(*old(len)),
            final(self)@.compiled_from(old(self)@),
            r.is_ok() ==> *final(len) >= *old(len) && final(self)@.appended(
                old(self)@,
                *final(len) - *old(len),
            ),
            r matches Err(e) ==> e != Error::ElseBeforeIf && e != Error::ThenBeforeIf && e
                != Error::LoopBeforeDo,
        decreases old(self)@.input.remaining(), 2int,
    {
        proof {
            old(self)@.lemma_munch_until(*old(len));
        }
        let one = self.munch_one(len);
        let ghost s = self@;
        proof {
            s.lemma_compiled_bounds(old(self)@);
        }
        match one {
            // Nothing was compiled: the run is over at `;` and at the end of
            // the line, and goes on behind a comment.
            Ok(0) => {
                let over = match self.input.cur_word() {
                    None => true,
                    Some(w) => crate::fastr::bytes_eq(w, ";".as_bytes()),
                };
                if over {
                    Ok(BodyEnd::Stop)
                } else {
                    let r = self.munch_until(len);
                    proof {
                        self@.lemma_compiled_trans(s, old(self)@);
                    }
                    r
                }
            },
            // We compiled some stuff, keep going...
            Ok(_) => {
                let r = self.munch_until(len);
                proof {
                    self@.lemma_compiled_trans(s, old(self)@);
                }
                r
            },
            Err(Error::ElseBeforeIf) => Ok(BodyEnd::Else),
            Err(Error::ThenBeforeIf) => Ok(BodyEnd::Then),
            Err(Error::LoopBeforeDo) => Ok(BodyEnd::Loop),
            Err(e) => Err(e),
        }
    }

    /// Compiles `if` with what belongs to it: `n` cells, from cell `*old(len)`
    /// of the definition on. The `(jump-zero)` is the first of them; a jump
    /// from cell `k` with the operand `off` leads to cell `k + off + 1`, so
    /// this one leads to a cell behind the `(jump-zero)` and no further than
    /// the end of the `n` cells: an index from 0 to the length of the
    /// definition. With `t` cells between `if` and `then`, the operand is
    /// `t + 1` and the jump leads to the end of the `n` cells. With `t` cells
    /// between `if` and `else`, the operand is `t + 3` and the jump leads
    /// behind the `(jmp)`, which is cell `t + 2` of the `n`; the `(jmp)` leads
    /// to the end of the `n` cells.
    #[verifier::rlimit(50)]
    pub fn munch_if(&mut self, len: &mut u16) -> (r: Result<u16, Error>)
        requires
            old(self).wf(),
        ensures
            final(self).wf(),
            !(r matches Err(Error::PendingCallAgain)),
            (final(self)@, *final(len), r) == old(self)@.munch_if(*old(len)),
            final(self)@.compiled_from(old(self)@),
            r matches Ok(n) ==> *final(len) == *old(len) + n,
            r.is_ok() || closes(r) ==> *final(len) >= *old(len) && final(self)@.appended(
                old(self)@,
                *final(len) - *old(len),
            ),
            r matches Ok(n) ==> ({
                let off = final(self)@.arena.read_word(old(self)@.operand_at()).data;
                1 <= off && off + 1 <= n
            }),
            r matches Ok(n) ==> ({
                let head = old(self)@.branch_head(*old(len), "(jump-zero)".spec_bytes());
                let body = head.0.munch_until(head.1);
                let t = body.1 - head.1;
                let off = final(self)@.arena.read_word(old(self)@.operand_at()).data;
                let jmp = final(self)@.arena.read_word(old(self)@.operand_at() + 4 * (t + 2)).data;
                &&& body.2 == Ok::<BodyEnd, Error>(BodyEnd::Then) ==> off == t + 1 && n == t + 2
                &&& body.2 == Ok::<BodyEnd, Error>(BodyEnd::Else) ==> off == t + 3 && 1 <= jmp && (t
                    + 2) + jmp + 1 == n
            }),
            r matches Ok(n) ==> ({
                let first = old(self)@.arena.bump_addr(4) as int;
                let head = old(self)@.branch_head(*old(len), "(jump-zero)".spec_bytes());
                let body = head.0.munch_until(head.1);
                let t = body.1 - head.1;
                &&& final(self)@.arena.read_word(first) == ptr_word(
                    old(self)@.find_word("(jump-zero)".spec_bytes()).unwrap(),
                )
                &&& body.2 == Ok::<BodyEnd, Error>(BodyEnd::Else) ==> final(self)@.arena.read_word(
                    first + 4 * (t + 2),
                ) == ptr_word(
                    body.0.patched(old(self)@.operand_at(), t + 3).find_word(
                        "(jmp)".spec_bytes(),
                    ).unwrap(),
                )
            }),
        decreases old(self)@.input.remaining(), 4int,
    {
        proof {
            old(self)@.lemma_munch_if(*old(len));
        }
        let start = *len;
        // Write a conditional jump, followed by space for a literal
        let literal_cj = match self.find_word("(jump-zero)") {
            Some(a) => a,
            None => {
                proof {
                    self@.lemma_compiled_refl();
                }
                return Err(Error::WordNotInDict);
            },
        };
        self.emit_cells(len, Word::ptr(literal_cj), Word::data(0))?;
        let cj_addr = self.dict_alloc.cur() - 4;
        let ghost s0 = self@;
        let if_start = *len;
        // Now work until we hit an else or then statement.
        let until = self.munch_until(len);
        let ghost s1 = self@;
        proof {
            s1.lemma_compiled_bounds(s0);
            s1.lemma_compiled_trans(s0, old(self)@);
        }
        let end = until?;
        let delta = *len - if_start;
        match end {
            // We hit the end of stream before an else/then.
            BodyEnd::Stop => Err(Error::IfWithoutThen),
            BodyEnd::Loop => Err(Error::LoopBeforeDo),
            BodyEnd::Then => {
                // Jump offset is words placed + 1 for the jump-zero literal
                let patched = self.dict_alloc.write_word(cj_addr, Word::data(delta as i32 + 1));
                proof {
                    lemma_patch(s1.arena, cj_addr as int, Word { data: (delta + 1) as i32 });
                    s0.lemma_compiled_bounds(old(self)@);
                    self@.lemma_compiled_arena(s1, old(self)@);
                    let first = old(self)@.arena.bump_addr(4) as int;
                    s1.lemma_compiled_read(s0, first);
                    assert(self@.arena.bytes(first, 4) =~= s1.arena.bytes(first, 4));
                }
                Ok(*len - start)
            },
            BodyEnd::Else => {
                // Jump offset is words placed + 1 (cj lit) + 2 (else cj + lit)
                let patched = self.dict_alloc.write_word(cj_addr, Word::data(delta as i32 + 3));
                let ghost s2 = self@;
                proof {
                    lemma_patch(s1.arena, cj_addr as int, Word { data: (delta + 3) as i32 });
                    s0.lemma_compiled_bounds(old(self)@);
                    s2.lemma_compiled_arena(s1, old(self)@);
                }
                proof {
                    let first = old(self)@.arena.bump_addr(4) as int;
                    s1.lemma_compiled_read(s0, first);
                    assert(s2.arena.bytes(first, 4) =~= s1.arena.bytes(first, 4));
                }
                let rest = self.munch_else(len);
                proof {
                    self@.lemma_compiled_read(s2, cj_addr as int);
                    self@.lemma_compiled_read(s2, old(self)@.arena.bump_addr(4) as int);
                    self@.lemma_compiled_trans(s2, old(self)@);
                }
                let _ = rest?;
                Ok(*len - start)
            },
        }
    }

    /// Compiles what follows `else`: `n` cells, from cell `*old(len)` of the
    /// definition on. The `(jmp)` is the first of them, and its jump leads to
    /// the end of the `n` cells.
    pub fn munch_else(&mut self, len: &mut u16) -> (r: Result<u16, Error>)
        requires
            old(self).wf(),
        ensures
            final(self).wf(),
            !(r matches Err(Error::PendingCallAgain)),
            (final(self)@, *final(len), r) == old(self)@.munch_else(*old(len)),
            final(self)@.compiled_from(old(self)@),
            r matches Ok(n) ==> *final(len) == *old(len) + n,
            r.is_ok() || closes(r) ==> *final(len) >= *old(len) && final(self)@.appended(
                old(self)@,
                *final(len) - *old(len),
            ),
            r matches Ok(n) ==> ({
                let off = final(self)@.arena.read_word(old(self)@.operand_at()).data;
                1 <= off && off + 1 == n
            }),
            r matches Ok(n) ==> final(self)@.arena.read_word(old(self)@.arena.bump_addr(4) as int)
                == ptr_word(old(self)@.find_word("(jmp)".spec_bytes()).unwrap()),
        decreases old(self)@.input.remaining(), 3int,
    {
        proof {
            old(self)@.lemma_munch_else(*old(len));
        }
        let start = *len;
        // Write a jump, followed by space for a literal
        let literal_jmp = match self.find_word("(jmp)") {
            Some(a) => a,
            None => {
                proof {
                    self@.lemma_compiled_refl();
                }
                return Err(Error::WordNotInDict);
            },
        };
        self.emit_cells(len, Word::ptr(literal_jmp), Word::data(0))?;
        let jmp_addr = self.dict_alloc.cur() - 4;
        let ghost s0 = self@;
        let else_start = *len;
        // Now work until we hit a then statement.
        let until = self.munch_until(len);
        let ghost s1 = self@;
        proof {
            s1.lemma_compiled_bounds(s0);
            s1.lemma_compiled_trans(s0, old(self)@);
        }
        let end = until?;
        let delta = *len - else_start;
        match end {
            // We hit the end of stream before a then.
            BodyEnd::Stop => Err(Error::IfElseWithoutThen),
            BodyEnd::Loop => Err(Error::LoopBeforeDo),
            BodyEnd::Else => Err(Error::DuplicateElse),
            BodyEnd::Then => {
                // Jump offset is words placed + 1 (jmp lit)
                let patched = self.dict_alloc.write_word(jmp_addr, Word::data(delta as i32 + 1));
                proof {
                    lemma_patch(s1.arena, jmp_addr as int, Word { data: (delta + 1) as i32 });
                    s0.lemma_compiled_bounds(old(self)@);
                    self@.lemma_compiled_arena(s1, old(self)@);
                    let first = old(self)@.arena.bump_addr(4) as int;
                    s1.lemma_compiled_read(s0, first);
                    assert(self@.arena.bytes(first, 4) =~= s1.arena.bytes(first, 4));
                }
                Ok(*len - start)
            },
        }
    }

    /// Compiles `do` with what belongs to it: `n` cells, from cell
    /// `*old(len)` of the definition on. The `(jmp-doloop)` is the last but
    /// one of them and its operand the last; the jump leads back to the
    /// second of the `n` cells, the one behind `2d>2r`.
    pub fn munch_do(&mut self, len: &mut u16) -> (r: Result<u16, Error>)
        requires
            old(self).wf(),
        ensures
            final(self).wf(),
            !(r matches Err(Error::PendingCallAgain)),
            (final(self)@, *final(len), r) == old(self)@.munch_do(*old(len)),
            final(self)@.compiled_from(old(self)@),
            r matches Ok(n) ==> *final(len) == *old(len) + n,
            r.is_ok() || closes(r) ==> *final(len) >= *old(len) && final(self)@.appended(
                old(self)@,
                *final(len) - *old(len),
            ),
            r matches Ok(n) ==> ({
                let off = final(self)@.arena.read_word(
                    old(self)@.arena.bump_addr(4) + 4 * (n - 1),
                ).data;
                n >= 3 && (n - 2) + off + 1 == 1
            }),
            r matches Ok(n) ==> ({
                let first = old(self)@.arena.bump_addr(4) as int;
                let body = old(self)@.do_head(*old(len)).0.munch_until(
                    old(self)@.do_head(*old(len)).1,
                );
                &&& final(self)@.arena.read_word(first) == ptr_word(
                    old(self)@.find_word("2d>2r".spec_bytes()).unwrap(),
                )
                &&& final(self)@.arena.read_word(first + 4 * (n - 2)) == ptr_word(
                    body.0.find_word("(jmp-doloop)".spec_bytes()).unwrap(),
                )
                &&& final(self)@.arena.read_word(first + 4 * (n - 1)) == (Word {
                    data: (-(n - 2)) as i32,
                })
            }),
        decreases old(self)@.input.remaining(), 3int,
    {
        proof {
            old(self)@.lemma_munch_do(*old(len));
        }
        let start = *len;
        let literal_cj = match self.find_word("2d>2r") {
            Some(a) => a,
            None => {
                proof {
                    self@.lemma_compiled_refl();
                }
                return Err(Error::WordNotInDict);
            },
        };
        self.emit_cell(len, Word::ptr(literal_cj))?;
        let ghost s0 = self@;
        let do_start = *len;
        // Now work until we hit a loop statement.
        let until = self.munch_until(len);
        let ghost s1 = self@;
        proof {
            s1.lemma_compiled_bounds(s0);
            s1.lemma_compiled_trans(s0, old(self)@);
        }
        let end = until?;
        match end {
            // We hit the end of stream before a loop.
            BodyEnd::Stop => Err(Error::DoWithoutLoop),
            BodyEnd::Else => Err(Error::ElseBeforeIf),
            BodyEnd::Then => Err(Error::ThenBeforeIf),
            BodyEnd::Loop => {
                let delta = *len - do_start;
                let offset: i32 = -(delta as i32 + 1);
                let literal_dojmp = match self.find_word("(jmp-doloop)") {
                    Some(a) => a,
                    None => return Err(Error::WordNotInDict),
                };
                let done = self.emit_cells(len, Word::ptr(literal_dojmp), Word::data(offset));
                proof {
                    let first = old(self)@.arena.bump_addr(4) as int;
                    s1.lemma_compiled_read(s0, first);
                    self@.lemma_compiled_bounds(s1);
                    self@.lemma_compiled_read(s1, first);
                    self@.lemma_compiled_trans(s1, old(self)@);
                }
                done?;
                Ok(*len - start)
            },
        }
    }

    /// Passes over a comment: the tokens up to the first that ends in `)`.
    pub fn munch_comment(&mut self, len: &mut u16) -> (r: Result<u16, Error>)
        requires
            old(self).wf(),
        ensures
            final(self).wf(),
            r == Ok::<u16, Error>(0),
            *final(len) == *old(len),
            final(self)@ == old(self)@.munch_comment(),
            final(self)@.arena == old(self)@.arena,
            final(self)@.compiled_from(old(self)@),
    {
        proof {
            old(self)@.lemma_compiled_refl();
        }
        loop
            invariant
                self.wf(),
                *len == *old(len),
                self@.munch_comment() == old(self)@.munch_comment(),
                self@.arena == old(self)@.arena,
                self@.compiled_from(old(self)@),
            decreases self@.input.remaining(),
        {
            proof {
                reveal(ForthView::<_>::munch_comment);
            }
            let ghost before = self@;
            self.input.advance();
            proof {
                self@.lemma_compiled_input(before);
                self@.lemma_compiled_trans(before, old(self)@);
            }
            match self.input.cur_word() {
                Some(s) => {
                    if s[s.len() - 1] == 41 {
                        return Ok(0);
                    }
                },
                None => {
                    return Ok(0);
                },
            }
        }
    }

    /// Compiles `."` with the string literal that follows it in the line.
    #[verifier::rlimit(50)]
    pub fn munch_str(&mut self, len: &mut u16) -> (r: Result<u16, Error>)
        requires
            old(self).wf(),
        ensures
            final(self).wf(),
            !(r matches Err(Error::PendingCallAgain)),
            (final(self)@, *final(len), r) == old(self)@.munch_str(*old(len)),
            final(self)@.compiled_from(old(self)@),
            r matches Ok(n) ==> *final(len) == *old(len) + n,
            r.is_ok() || closes(r) ==> *final(len) >= *old(len) && final(self)@.appended(
                old(self)@,
                *final(len) - *old(len),
            ),
    {
        proof {
            reveal(ForthView::<_>::munch_str);
            old(self)@.lemma_compiled_refl();
        }
        match self.input.advance_str() {
            Ok(()) => {},
            Err(_) => {
                return Err(Error::LQuoteMissingRQuote);
            },
        }
        let ghost s = self@;
        proof {
            s.lemma_compiled_input(old(self)@);
        }
        let n = match self.input.cur_str_literal() {
            Some(lit) => lit.len(),
            None => return Err(Error::LQuoteMissingRQuote),
        };
        if n > 0xFFFF {
            return Err(Error::LiteralStringTooLong);
        }
        let str_len = n as u16;
        let literal_writestr = match self.find_word("(write-str)") {
            Some(a) => a,
            None => return Err(Error::WordNotInDict),
        };
        let done = self.emit_cells(len, Word::ptr(literal_writestr), Word::data(str_len as i32));
        let ghost s0 = self@;
        proof {
            s0.lemma_compiled_bounds(s);
            s0.lemma_compiled_trans(s, old(self)@);
        }
        done?;
        let words_written: u16 = (str_len / 4) + if str_len % 4 == 0 {
            0u16
        } else {
            1u16
        };
        proof {
            lemma_str_cells(s0.arena.cur, n as nat);
        }
        if words_written > u16::MAX - *len {
            return Err(Error::BadCfaOffset);
        }
        if n == 0 {
            return Ok(2);
        }
        let start_ptr = match self.dict_alloc.bump_u8s(n) {
            Some(a) => a,
            None => return Err(Error::Bump(BumpError::OutOfMemory)),
        };
        match self.input.cur_str_literal() {
            Some(lit) => {
                let copied = self.dict_alloc.write_bytes(start_ptr, lit);
            },
            None => {},
        }
        proof {
            s0.lemma_compiled_bounds(old(self)@);
            self@.lemma_compiled_arena(s0, old(self)@);
        }
        *len = *len + words_written;
        Ok(2 + words_written)
    }
}

} // verus!
