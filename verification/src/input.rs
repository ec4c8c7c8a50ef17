//! The tokenizer: one line, split at whitespace into words, with string
//! literals closed by a double quote.

use crate::dictionary::{lower, lower_byte, splice};
use vstd::prelude::*;
use vstd::string::StringSliceAdditionalSpecFns;

verus! {

/// Blank, tab, line feed, vertical tab, form feed, carriage return.
pub open spec fn is_space(b: u8) -> bool {
    b == 32 || (9 <= b <= 13)
}

/// The first position at or after `pos` that holds no whitespace, or the end.
pub open spec fn skip_spaces(buf: Seq<u8>, pos: nat) -> nat
    decreases buf.len() - pos,
{
    if pos < buf.len() && is_space(buf[pos as int]) {
        skip_spaces(buf, pos + 1)
    } else if pos < buf.len() {
        pos
    } else {
        buf.len()
    }
}

/// The first position at or after `pos` that holds whitespace, or the end.
pub open spec fn word_end(buf: Seq<u8>, pos: nat) -> nat
    decreases buf.len() - pos,
{
    if pos < buf.len() && !is_space(buf[pos as int]) {
        word_end(buf, pos + 1)
    } else if pos < buf.len() {
        pos
    } else {
        buf.len()
    }
}

/// A double quote that no backslash stands directly before, none at `from`.
pub open spec fn closes_literal(buf: Seq<u8>, from: nat, pos: nat) -> bool {
    from <= pos < buf.len() && buf[pos as int] == 34 && (pos == from || buf[pos - 1] != 92)
}

/// The first closing quote at or after `pos` of a literal that begins at
/// `from`, or the end where there is none.
pub open spec fn literal_end(buf: Seq<u8>, from: nat, pos: nat) -> nat
    decreases buf.len() - pos,
{
    if pos >= buf.len() {
        buf.len()
    } else if closes_literal(buf, from, pos) {
        pos
    } else {
        literal_end(buf, from, pos + 1)
    }
}

/// A literal ends at or behind the place from which its end is looked for,
/// and within the line.
pub proof fn lemma_literal_end_bounds(buf: Seq<u8>, from: nat, pos: nat)
    requires
        pos <= buf.len(),
    ensures
        pos <= literal_end(buf, from, pos) <= buf.len(),
    decreases buf.len() - pos,
{
    if pos < buf.len() && !closes_literal(buf, from, pos) {
        lemma_literal_end_bounds(buf, from, pos + 1);
    }
}

pub proof fn lemma_word_end_bounds(buf: Seq<u8>, pos: nat)
    requires
        pos <= buf.len(),
    ensures
        pos <= word_end(buf, pos) <= buf.len(),
        pos < buf.len() && !is_space(buf[pos as int]) ==> pos < word_end(buf, pos),
        forall|i: int| pos <= i < word_end(buf, pos) ==> !is_space(#[trigger] buf[i]),
    decreases buf.len() - pos,
{
    if pos < buf.len() && !is_space(buf[pos as int]) {
        lemma_word_end_bounds(buf, pos + 1);
    }
}

/// Before the first byte that is no whitespace, everything is whitespace.
pub proof fn lemma_skip_spaces_bounds(buf: Seq<u8>, pos: nat)
    requires
        pos <= buf.len(),
    ensures
        pos <= skip_spaces(buf, pos) <= buf.len(),
        skip_spaces(buf, pos) < buf.len() ==> !is_space(buf[skip_spaces(buf, pos) as int]),
    decreases buf.len() - pos,
{
    if pos < buf.len() && is_space(buf[pos as int]) {
        lemma_skip_spaces_bounds(buf, pos + 1);
    }
}

/// The tokenizer as a value: the line, the position the next scan starts at,
/// and the ranges of the current word and string literal, where there is one.
pub struct InputView {
    pub buf: Seq<u8>,
    pub pos: nat,
    pub has_word: bool,
    pub word_start: nat,
    pub word_end: nat,
    pub has_lit: bool,
    pub lit_start: nat,
    pub lit_end: nat,
}

impl InputView {
    pub open spec fn wf(self) -> bool {
        &&& self.pos <= self.buf.len()
        &&& self.has_word ==> self.word_start < self.word_end <= self.pos
        &&& self.has_lit ==> self.lit_start <= self.lit_end <= self.pos
    }

    /// Bytes not yet scanned.
    pub open spec fn remaining(self) -> nat {
        (self.buf.len() - self.pos) as nat
    }

    /// The current word, where there is one.
    pub open spec fn word(self) -> Option<Seq<u8>> {
        if self.has_word {
            Some(self.buf.subrange(self.word_start as int, self.word_end as int))
        } else {
            None
        }
    }

    /// The current string literal, where there is one.
    pub open spec fn literal(self) -> Option<Seq<u8>> {
        if self.has_lit {
            Some(self.buf.subrange(self.lit_start as int, self.lit_end as int))
        } else {
            None
        }
    }

    /// After a scan for the next word: whitespace is skipped, the word runs
    /// to the next whitespace and is folded to lower case in the line. At the
    /// end of the line there is no current word.
    pub open spec fn advanced(self) -> InputView {
        let s = skip_spaces(self.buf, self.pos);
        let e = word_end(self.buf, s);
        if s < self.buf.len() {
            InputView {
                buf: splice(self.buf, s as int, lower(self.buf.subrange(s as int, e as int))),
                pos: e,
                has_word: true,
                word_start: s,
                word_end: e,
                ..self
            }
        } else {
            InputView { pos: self.buf.len(), has_word: false, ..self }
        }
    }

    /// A scan for the next word keeps the length of the line and reads
    /// onward: where it finds a word, the position has moved.
    pub proof fn lemma_advanced(self)
        requires
            self.wf(),
        ensures
            self.advanced().wf(),
            self.advanced().buf.len() == self.buf.len(),
            self.advanced().pos >= self.pos,
            self.advanced().has_word ==> self.advanced().pos > self.pos,
            !self.advanced().has_word ==> self.advanced().pos == self.buf.len(),
    {
        lemma_skip_spaces_bounds(self.buf, self.pos);
        lemma_word_end_bounds(self.buf, skip_spaces(self.buf, self.pos));
    }

    /// A scan for a string literal that a quote closes keeps the length of
    /// the line and reads onward, past the quote.
    pub proof fn lemma_advanced_str(self)
        requires
            self.wf(),
        ensures
            self.advanced_str().wf(),
            self.advanced_str().buf.len() == self.buf.len(),
            self.advanced_str().pos >= self.pos,
            self.literal_closed() ==> self.advanced_str().pos > self.pos,
    {
        lemma_skip_spaces_bounds(self.buf, self.pos);
        lemma_literal_end_bounds(
            self.buf,
            skip_spaces(self.buf, self.pos),
            skip_spaces(self.buf, self.pos),
        );
    }

    /// Does a string literal start here that a quote closes?
    pub open spec fn literal_closed(self) -> bool {
        literal_end(self.buf, skip_spaces(self.buf, self.pos), skip_spaces(self.buf, self.pos))
            < self.buf.len()
    }

    /// After a scan for a string literal: whitespace is skipped, the literal
    /// runs to the closing quote, and scanning goes on behind that quote.
    /// Without a closing quote nothing changes.
    pub open spec fn advanced_str(self) -> InputView {
        let s = skip_spaces(self.buf, self.pos);
        let e = literal_end(self.buf, s, s);
        if self.literal_closed() {
            InputView { pos: e + 1, has_lit: true, lit_start: s, lit_end: e, ..self }
        } else {
            self
        }
    }
}

/// The line tokenizer: it owns one line and hands out words split at
/// whitespace, and string literals closed by a double quote.
pub struct WordStrBuf {
    buf: Vec<u8>,
    cap: usize,
    pos: usize,
    has_word: bool,
    word_start: usize,
    word_end: usize,
    has_lit: bool,
    lit_start: usize,
    lit_end: usize,
}

impl View for WordStrBuf {
    type V = InputView;

    closed spec fn view(&self) -> InputView {
        InputView {
            buf: self.buf@,
            pos: self.pos as nat,
            has_word: self.has_word,
            word_start: self.word_start as nat,
            word_end: self.word_end as nat,
            has_lit: self.has_lit,
            lit_start: self.lit_start as nat,
            lit_end: self.lit_end as nat,
        }
    }
}

/// Why a string literal could not be read.
#[derive(Clone, Copy, Debug, PartialEq, Eq, Structural)]
pub enum StrLiteralError {
    /// The line ends before the closing quote.
    Unterminated,
}

/// Why a line could not be loaded.
#[derive(Clone, Copy, Debug, PartialEq, Eq, Structural)]
pub enum FillError {
    /// The line is longer than the tokenizer's capacity.
    TooLong,
}

impl WordStrBuf {
    pub closed spec fn spec_capacity(&self) -> nat {
        self.cap as nat
    }

    pub open spec fn wf(&self) -> bool {
        self@.wf() && self@.buf.len() <= self.spec_capacity()
    }

    /// Is the tokenizer in order?
    pub fn is_wf(&self) -> (r: bool)
        ensures
            r == self.wf(),
    {
        self.pos <= self.buf.len() && (!self.has_word || (self.word_start < self.word_end
            && self.word_end <= self.pos)) && (!self.has_lit || (self.lit_start <= self.lit_end
            && self.lit_end <= self.pos)) && self.buf.len() <= self.cap
    }

    /// A tokenizer for lines of at most `cap` bytes, holding the empty line.
    pub fn new(cap: usize) -> (r: Self)
        ensures
            r.wf(),
            r.spec_capacity() == cap,
            r@.buf == Seq::<u8>::empty(),
            r@.pos == 0,
            !r@.has_word,
            !r@.has_lit,
    {
        WordStrBuf {
            buf: Vec::with_capacity(cap),
            cap,
            pos: 0,
            has_word: false,
            word_start: 0,
            word_end: 0,
            has_lit: false,
            lit_start: 0,
            lit_end: 0,
        }
    }

    pub fn capacity(&self) -> (c: usize)
        ensures
            c == self.spec_capacity(),
    {
        self.cap
    }

    /// Replaces the line by `line` and starts scanning at its beginning. A
    /// line longer than the capacity is refused and the old line stays.
    pub fn fill_bytes(&mut self, line: &[u8]) -> (r: Result<(), FillError>)
        requires
            old(self).wf(),
        ensures
            final(self).wf(),
            final(self).spec_capacity() == old(self).spec_capacity(),
            r.is_ok() == (line@.len() <= old(self).spec_capacity()),
            r.is_ok() ==> final(self)@.buf == line@ && final(self)@.pos == 0 && !final(
                self)@.has_word && !final(self)@.has_lit,
            r.is_err() ==> final(self)@ == old(self)@,
    {
        if line.len() > self.cap {
            return Err(FillError::TooLong);
        }
        self.buf.clear();
        self.pos = 0;
        self.has_word = false;
        self.has_lit = false;
        self.word_start = 0;
        self.word_end = 0;
        self.lit_start = 0;
        self.lit_end = 0;
        let mut i: usize = 0;
        while i < line.len()
            invariant
                i <= line@.len(),
                line@.len() <= self.cap,
                self.cap == old(self).cap,
                self.pos == 0,
                !self.has_word,
                !self.has_lit,
                self.buf@ == line@.take(i as int),
            decreases line@.len() - i,
        {
            self.buf.push(line[i]);
            i += 1;
            assert(self.buf@ =~= line@.take(i as int));
        }
        assert(line@.take(line@.len() as int) =~= line@);
        Ok(())
    }

    /// Replaces the line by the bytes of `line`.
    pub fn fill(&mut self, line: &str) -> (r: Result<(), FillError>)
        requires
            old(self).wf(),
        ensures
            final(self).wf(),
            final(self).spec_capacity() == old(self).spec_capacity(),
            r.is_ok() == (line.spec_bytes().len() <= old(self).spec_capacity()),
            r.is_ok() ==> final(self)@.buf == line.spec_bytes() && final(self)@.pos == 0 && !final(
                self)@.has_word && !final(self)@.has_lit,
            r.is_err() ==> final(self)@ == old(self)@,
    {
        self.fill_bytes(line.as_bytes())
    }

    /// Scans for the next word.
    pub fn advance(&mut self)
        requires
            old(self).wf(),
        ensures
            final(self).wf(),
            final(self).spec_capacity() == old(self).spec_capacity(),
            final(self)@ == old(self)@.advanced(),
            final(self)@.buf.len() == old(self)@.buf.len(),
            final(self)@.pos >= old(self)@.pos,
            final(self)@.has_word ==> final(self)@.pos > old(self)@.pos,
            !final(self)@.has_word ==> final(self)@.pos == final(self)@.buf.len(),
    {
        let len = self.buf.len();
        let mut s = self.pos;
        while s < len && byte_is_space(self.buf[s])
            invariant
                self.pos <= s <= len,
                len == self.buf@.len(),
                self.buf@ == old(self).buf@,
                skip_spaces(self.buf@, s as nat) == skip_spaces(self.buf@, self.pos as nat),
            decreases len - s,
        {
            s += 1;
        }
        if s >= len {
            self.pos = len;
            self.has_word = false;
            return ;
        }
        let mut e = s;
        while e < len && !byte_is_space(self.buf[e])
            invariant
                s <= e <= len,
                len == self.buf@.len(),
                self.buf@.len() == old(self).buf@.len(),
                self.cap == old(self).cap,
                self.pos == old(self).pos,
                self.has_lit == old(self).has_lit,
                self.lit_start == old(self).lit_start,
                self.lit_end == old(self).lit_end,
                word_end(old(self).buf@, e as nat) == word_end(old(self).buf@, s as nat),
                forall|j: int|
                    0 <= j < len ==> self.buf@[j] == if s <= j < e {
                        lower_byte(old(self).buf@[j])
                    } else {
                        old(self).buf@[j]
                    },
            decreases len - e,
        {
            let b = self.buf[e];
            let c: u8 = if 65 <= b && b <= 90 {
                b + 32
            } else {
                b
            };
            self.buf.set(e, c);
            e += 1;
        }
        proof {
            lemma_word_end_bounds(old(self).buf@, s as nat);
            assert(self.buf@ =~= splice(
                old(self).buf@,
                s as int,
                lower(old(self).buf@.subrange(s as int, e as int)),
            ));
        }
        self.pos = e;
        self.has_word = true;
        self.word_start = s;
        self.word_end = e;
    }

    /// The current word: the one the last `advance` found.
    pub fn cur_word(&self) -> (r: Option<&[u8]>)
        requires
            self.wf(),
        ensures
            r.is_some() == self@.has_word,
            r.is_some() ==> Some(r.unwrap()@) == self@.word(),
            r.is_some() ==> r.unwrap()@.len() > 0,
    {
        if self.has_word {
            Some(vstd::slice::slice_subrange(self.buf.as_slice(), self.word_start, self.word_end))
        } else {
            None
        }
    }

    /// Scans for a string literal that a double quote closes.
    pub fn advance_str(&mut self) -> (r: Result<(), StrLiteralError>)
        requires
            old(self).wf(),
        ensures
            final(self).wf(),
            final(self).spec_capacity() == old(self).spec_capacity(),
            final(self)@ == old(self)@.advanced_str(),
            r.is_ok() == old(self)@.literal_closed(),
            final(self)@.buf == old(self)@.buf,
            final(self)@.pos >= old(self)@.pos,
    {
        let len = self.buf.len();
        let mut s = self.pos;
        while s < len && byte_is_space(self.buf[s])
            invariant
                self.pos <= s <= len,
                len == self.buf@.len(),
                skip_spaces(self.buf@, s as nat) == skip_spaces(self.buf@, self.pos as nat),
            decreases len - s,
        {
            s += 1;
        }
        assert(s == skip_spaces(self.buf@, self.pos as nat));
        let mut e = s;
        while e < len && !(self.buf[e] == 34 && (e == s || self.buf[e - 1] != 92))
            invariant
                s <= e <= len,
                len == self.buf@.len(),
                literal_end(self.buf@, s as nat, e as nat) == literal_end(
                    self.buf@,
                    s as nat,
                    s as nat,
                ),
            decreases len - e,
        {
            e += 1;
        }
        if e >= len {
            return Err(StrLiteralError::Unterminated);
        }
        self.pos = e + 1;
        self.has_lit = true;
        self.lit_start = s;
        self.lit_end = e;
        Ok(())
    }

    /// The current string literal: the one the last `advance_str` found.
    pub fn cur_str_literal(&self) -> (r: Option<&[u8]>)
        requires
            self.wf(),
        ensures
            r.is_some() == self@.has_lit,
            r.is_some() ==> Some(r.unwrap()@) == self@.literal(),
    {
        if self.has_lit {
            Some(vstd::slice::slice_subrange(self.buf.as_slice(), self.lit_start, self.lit_end))
        } else {
            None
        }
    }
}

pub fn byte_is_space(b: u8) -> (r: bool)
    ensures
        r == is_space(b),
{
    b == 32 || (9 <= b && b <= 13)
}

} // verus!
