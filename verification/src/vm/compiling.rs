//! Laws of the compiler: the cells that a plain definition is compiled to.

use crate::dictionary::{
    lemma_same_bytes, lemma_same_chain, lemma_word_written, same_below, ArenaView, EntryKind,
    RawEntry, ENTRY_SIZE,
};
use crate::fastr::{len_field, NameView};
use crate::vm::builtins::Target;
use crate::vm::duality::{
    all_called, body_holds, body_runs, called, cell_ok, cells_at, code, cost, first_cells, height,
    lemma_code_rest, lemma_comment, lemma_comment_same, lemma_compile_interpret_duality,
    lemma_not_semicolon, lemma_resolve_same, line_runs, next_is, passed, plain_ok, same_result,
    same_stacks, text_cells, Cell, Plain,
};
use crate::vm::munch::ptr_word;
use crate::vm::{ForthView, BUILTIN_BASE};
use crate::word::Word;
use crate::{CallContext, Error, Mode, WordFunc};
use vstd::prelude::*;
use vstd::string::StringSliceAdditionalSpecFns;

verus! {

/// The machine `b` has the dictionary of `a`, with an arena that holds what
/// the arena of `a` held below its cursor, and the line and the tables of `a`.
pub open spec fn grown_from<T>(b: ForthView<T>, a: ForthView<T>) -> bool {
    &&& b == (ForthView { arena: b.arena, mode: b.mode, ..a })
    &&& same_below(a.arena, b.arena, a.arena.cur as int)
    &&& a.arena.cur <= b.arena.cur
    &&& a.tail == 0 || a.tail + ENTRY_SIZE <= a.arena.cur
}

/// What a token is does not change where the arena grows.
pub proof fn lemma_lookup_stable<T>(a: ForthView<T>, b: ForthView<T>, w: Seq<u8>)
    requires
        a.tail == b.tail,
        a.builtins == b.builtins,
        a.async_builtins == b.async_builtins,
        same_below(a.arena, b.arena, a.arena.cur as int),
        a.tail == 0 || a.tail + ENTRY_SIZE <= a.arena.cur,
    ensures
        a.lookup(w) == b.lookup(w),
        a.find_word(w) == b.find_word(w),
{
    lemma_same_chain(a.arena, b.arena, a.arena.cur as int, a.tail as int, NameView::of(w));
}

/// What is left of the line is the tokens `ps`, each of them plain, then
/// `;`, and nothing behind it.
pub open spec fn definition_is<T>(s: ForthView<T>, ps: Seq<Plain>) -> bool
    decreases ps.len(),
{
    if ps.len() == 0 {
        s.input.wf() && s.advanced().input.word() == Some(";".spec_bytes())
            && s.advanced().advanced().input.word().is_none()
    } else {
        next_is(s, ps[0]) && plain_ok(s, ps[0]) && definition_is(
            passed(s, ps[0]),
            ps.drop_first(),
        )
    }
}

/// What is left of a line does not change where the arena grows.
pub proof fn lemma_definition_grown<T>(a: ForthView<T>, b: ForthView<T>, ps: Seq<Plain>)
    requires
        grown_from(b, a),
        definition_is(a, ps),
    ensures
        definition_is(b, ps),
    decreases ps.len(),
{
    reveal(next_is);
    if ps.len() > 0 {
        a.input.lemma_advanced();
        lemma_lookup_stable(a.advanced(), b.advanced(), a.advanced().input.word().unwrap());
        lemma_comment(a.advanced());
        lemma_comment(b.advanced());
        lemma_comment_same(a.advanced(), b.advanced());
        lemma_lookup_stable(a.advanced(), b.advanced(), "(write-str)".spec_bytes());
        a.advanced().input.lemma_advanced_str();
        lemma_definition_grown(passed(a, ps[0]), passed(b, ps[0]), ps.drop_first());
    }
}

/// The machine after the token `p` was compiled.
#[verifier::opaque]
pub open spec fn compiled_one<T>(s: ForthView<T>, p: Plain, lit: u32) -> ForthView<T> {
    match p {
        Plain::Word { bi } => ForthView {
            arena: s.arena.word_written(ptr_word((BUILTIN_BASE + bi) as u32)),
            ..s.advanced()
        },
        Plain::Number { val } => ForthView {
            arena: s.arena.word_written(ptr_word(lit)).word_written(Word { data: val }),
            ..s.advanced()
        },
        Plain::Comment => s.advanced().munch_comment(),
        Plain::Call { de, body } => ForthView {
            arena: s.arena.word_written(ptr_word(de)),
            ..s.advanced()
        },
        Plain::Str { text, ws } => ForthView {
            arena: text_written(
                s.arena.word_written(ptr_word(ws)).word_written(Word { data: text.len() as i32 }),
                text,
            ),
            input: s.advanced().input.advanced_str(),
            ..s.advanced()
        },
    }
}

/// The arena after the bytes `text` were put at its cursor.
pub open spec fn text_written(a: ArenaView, text: Seq<u8>) -> ArenaView {
    if text.len() == 0 {
        a
    } else {
        a.store(a.cur as int, text).with_cur(a.cur + text.len())
    }
}

/// The machine after the tokens `ps` were compiled and the `;` behind them
/// was read.
pub open spec fn compiled<T>(s: ForthView<T>, ps: Seq<Plain>, lit: u32) -> ForthView<T>
    decreases ps.len(),
{
    if ps.len() == 0 {
        s.advanced()
    } else {
        compiled(compiled_one(s, ps[0], lit), ps.drop_first(), lit)
    }
}

/// There is room in the arena for the cells of the tokens `ps`.
#[verifier::opaque]
pub open spec fn room_for<T>(s: ForthView<T>, len: u16, ps: Seq<Plain>, lit: u32) -> bool {
    &&& s.arena.wf()
    &&& s.tail == 0 || s.tail + ENTRY_SIZE <= s.arena.cur
    &&& s.arena.bump_addr(4) + 4 * code(ps, lit).len() <= s.arena.end()
    &&& len + code(ps, lit).len() <= u16::MAX
}

/// Where the cells of the definition of the word at `eh` stand: cell `len`
/// is the next to be appended.
pub open spec fn appending_at<T>(s: ForthView<T>, eh: u32, len: int) -> bool {
    s.arena.bump_addr(4) == eh + ENTRY_SIZE + 4 * len
}

/// The machine `t` is what compiling the first of the tokens `ps` makes of
/// the machine `s`, and stands before the other tokens as `s` stood before
/// all of them.
#[verifier::opaque]
pub open spec fn compiled_step<T>(
    s: ForthView<T>,
    t: ForthView<T>,
    len: u16,
    n: int,
    ps: Seq<Plain>,
    lit: u32,
    eh: u32,
) -> bool {
    &&& t == compiled_one(s, ps[0], lit)
    &&& s.munch_one(len).0 == t
    &&& s.munch_one(len).1 == len + n
    &&& s.munch_one(len).2 == Ok::<u16, Error>(n as u16)
    &&& n == code(ps, lit).len() - code(ps.drop_first(), lit).len()
    &&& 0 <= n
    &&& n == first_cells(ps[0], lit).len()
    &&& n == 0 ==> t.input.word().is_some() && t.input.word().unwrap() != ";".spec_bytes()
    &&& grown_from(t, passed(s, ps[0]))
    &&& t == (ForthView { arena: t.arena, input: t.input, ..s })
    &&& same_below(s.arena, t.arena, s.arena.cur as int)
    &&& s.arena.cur <= t.arena.cur
    &&& t.input.remaining() < s.input.remaining()
    &&& t.input.pos >= s.input.pos
    &&& t.input.wf()
    &&& t.input.buf.len() == s.input.buf.len()
    &&& room_for(t, (len + n) as u16, ps.drop_first(), lit)
    &&& appending_at(t, eh, len + n)
    &&& t.find_word("(literal)".spec_bytes()) == Some(lit)
}

/// A cell that was appended stands in the body.
pub proof fn lemma_cell_written(a: ArenaView, w: Word, eh: u32, k: int)
    requires
        a.wf(),
        a.bump_fits(4, 4),
        a.bump_addr(4) == eh + ENTRY_SIZE + 4 * k,
    ensures
        cells_at(a.word_written(w), eh, k, seq![Cell::Is { w }]),
{
    lemma_word_written(a, w);
    let cells = seq![Cell::Is { w }];
    assert(cells.drop_first().len() == 0);
    assert(cells_at(a.word_written(w), eh, k + 1, cells.drop_first()));
    assert(cell_ok(a.word_written(w), eh + ENTRY_SIZE + 4 * k, cells[0]));
}

/// Two cells that were appended stand in the body.
pub proof fn lemma_cells_written(a: ArenaView, w1: Word, w2: Word, eh: u32, k: int)
    requires
        a.wf(),
        a.bump_fits(4, 4),
        a.word_written(w1).bump_fits(4, 4),
        a.bump_addr(4) == eh + ENTRY_SIZE + 4 * k,
    ensures
        cells_at(
            a.word_written(w1).word_written(w2),
            eh,
            k,
            seq![Cell::Is { w: w1 }, Cell::Is { w: w2 }],
        ),
{
    let a1 = a.word_written(w1);
    let a2 = a1.word_written(w2);
    lemma_word_written(a, w1);
    lemma_word_written(a1, w2);
    lemma_cell_written(a1, w2, eh, k + 1);
    crate::dictionary::lemma_word_written_keeps(a1, w2, eh + ENTRY_SIZE + 4 * k, 4);
    let cells = seq![Cell::Is { w: w1 }, Cell::Is { w: w2 }];
    assert(cells.drop_first() =~= seq![Cell::Is { w: w2 }]);
    assert(cell_ok(a2, eh + ENTRY_SIZE + 4 * k, cells[0]));
}

/// Compiling a token that names a stack builtin.
pub proof fn lemma_step_word<T>(s: ForthView<T>, len: u16, ps: Seq<Plain>, lit: u32, eh: u32)
    requires
        ps.len() > 0,
        ps[0] is Word,
        next_is(s, ps[0]),
        plain_ok(s, ps[0]),
        room_for(s, len, ps, lit),
        appending_at(s, eh, len as int),
        s.find_word("(literal)".spec_bytes()) == Some(lit),
    ensures
        compiled_step(s, compiled_one(s, ps[0], lit), len, 1, ps, lit, eh),
        cells_at(compiled_one(s, ps[0], lit).arena, eh, len as int, first_cells(ps[0], lit)),
{
    reveal(compiled_step);
    reveal(room_for);
    reveal(compiled_one);
    reveal(next_is);
    lemma_code_rest(ps, lit);
    s.input.lemma_advanced();
    let bi = ps[0]->bi;
    let cell = ptr_word((BUILTIN_BASE + bi) as u32);
    let a = s.advanced();
    let t = compiled_one(s, ps[0], lit);
    crate::vm::duality::lemma_compiled_word(s, len, bi);
    lemma_cell_written(s.arena, cell, eh, len as int);
    lemma_word_written(s.arena, cell);
    crate::dictionary::lemma_word_written_grown(s.arena, cell);
    lemma_lookup_stable(s, a, "(literal)".spec_bytes());
    lemma_lookup_stable(a, t, "(literal)".spec_bytes());
}

/// Compiling a token that names a compiled word.
pub proof fn lemma_step_call<T>(s: ForthView<T>, len: u16, ps: Seq<Plain>, lit: u32, eh: u32)
    requires
        ps.len() > 0,
        ps[0] is Call,
        next_is(s, ps[0]),
        room_for(s, len, ps, lit),
        appending_at(s, eh, len as int),
        s.find_word("(literal)".spec_bytes()) == Some(lit),
    ensures
        compiled_step(s, compiled_one(s, ps[0], lit), len, 1, ps, lit, eh),
        cells_at(compiled_one(s, ps[0], lit).arena, eh, len as int, first_cells(ps[0], lit)),
{
    reveal(compiled_step);
    reveal(room_for);
    reveal(compiled_one);
    reveal(next_is);
    lemma_code_rest(ps, lit);
    s.input.lemma_advanced();
    let cell = ptr_word(ps[0]->de);
    let a = s.advanced();
    let t = compiled_one(s, ps[0], lit);
    crate::vm::duality::lemma_compiled_call(s, len, ps[0]->de);
    lemma_cell_written(s.arena, cell, eh, len as int);
    lemma_word_written(s.arena, cell);
    crate::dictionary::lemma_word_written_grown(s.arena, cell);
    lemma_lookup_stable(s, a, "(literal)".spec_bytes());
    lemma_lookup_stable(a, t, "(literal)".spec_bytes());
}

/// Bytes that were put at the cursor stand there, and nothing below them
/// changed.
pub proof fn lemma_text_written(a: ArenaView, text: Seq<u8>)
    requires
        a.wf(),
        a.cur + text.len() <= a.end(),
    ensures
        text_written(a, text).wf(),
        text_written(a, text).start == a.start,
        text_written(a, text).mem.len() == a.mem.len(),
        text_written(a, text).cur == a.cur + text.len(),
        text_written(a, text).holds(a.cur as int, text.len() as int),
        text_written(a, text).bytes(a.cur as int, text.len() as int) == text,
        same_below(a, text_written(a, text), a.cur as int),
{
    let b = text_written(a, text);
    assert(b.bytes(a.cur as int, text.len() as int) =~= text);
}

/// The arena after `(write-str)`, the length of a string literal and its
/// bytes were appended to the body of the word at `eh`, behind `k` cells.
pub open spec fn str_written(a: ArenaView, ws: u32, text: Seq<u8>) -> ArenaView {
    text_written(
        a.word_written(ptr_word(ws)).word_written(Word { data: text.len() as i32 }),
        text,
    )
}

/// What appending a string literal leaves of an arena.
pub proof fn lemma_str_written(a: ArenaView, ws: u32, text: Seq<u8>, eh: u32, k: int)
    requires
        a.wf(),
        a.bump_addr(4) == eh + ENTRY_SIZE + 4 * k,
        a.bump_addr(4) + 8 + 4 * ((text.len() + 3) / 4) <= a.end(),
    ensures
        a.bump_fits(4, 4),
        a.word_written(ptr_word(ws)).bump_fits(4, 4),
        str_written(a, ws, text).wf(),
        str_written(a, ws, text).start == a.start,
        str_written(a, ws, text).mem.len() == a.mem.len(),
        a.cur <= str_written(a, ws, text).cur,
        a.word_written(ptr_word(ws)).word_written(Word { data: text.len() as i32 }).cur
            + text.len() <= a.end(),
        same_below(a, str_written(a, ws, text), a.cur as int),
        str_written(a, ws, text).bump_addr(4) == eh + ENTRY_SIZE + 4 * (k + 2 + (text.len() + 3)
            / 4),
        cells_at(
            str_written(a, ws, text),
            eh,
            k,
            first_cells(Plain::Str { text, ws }, 0),
        ),
{
    let w1 = ptr_word(ws);
    let w2 = Word { data: text.len() as i32 };
    let a1 = a.word_written(w1);
    lemma_word_written(a, w1);
    let a2 = a1.word_written(w2);
    lemma_word_written(a1, w2);
    let t = str_written(a, ws, text);
    lemma_cells_written(a, w1, w2, eh, k);
    crate::dictionary::lemma_word_written_grown(a, w1);
    crate::dictionary::lemma_word_written_grown(a1, w2);
    crate::dictionary::lemma_same_below_trans(a, a1, a2, a.cur as int, a1.cur as int);
    crate::vm::munch::lemma_str_cells(a2.cur, text.len());
    lemma_text_written(a2, text);
    crate::dictionary::lemma_same_below_trans(a, a2, t, a.cur as int, a2.cur as int);
    lemma_text_cells(t, eh, k + 2, text);
    lemma_cells_joined(a2, t, eh, k, seq![Cell::Is { w: w1 }, Cell::Is { w: w2 }], text_cells(text));
}

/// Compiling `."` with its string literal appends `(write-str)`, the length
/// of the literal and its bytes, in whole cells.
pub proof fn lemma_compiled_str<T>(s: ForthView<T>, len: u16, text: Seq<u8>, ws: u32)
    requires
        next_is(s, Plain::Str { text, ws }),
        text.len() <= u16::MAX,
        s.arena.bump_fits(4, 4),
        s.arena.word_written(ptr_word(ws)).bump_fits(4, 4),
        s.arena.word_written(ptr_word(ws)).word_written(Word { data: text.len() as i32 }).cur
            + text.len() <= s.arena.end(),
        len + 2 + (text.len() + 3) / 4 <= u16::MAX,
    ensures
        s.munch_one(len) == (
            ForthView {
                arena: str_written(s.arena, ws, text),
                input: s.advanced().input.advanced_str(),
                ..s.advanced()
            },
            (len + 2 + (text.len() + 3) / 4) as u16,
            Ok::<u16, Error>((2 + (text.len() + 3) / 4) as u16),
        ),
{
    reveal(ForthView::<_>::munch_str);
    reveal(next_is);
    s.lemma_munch_one(len);
    s.input.lemma_advanced();
}

/// Compiling `."` with its string literal.
pub proof fn lemma_step_str<T>(s: ForthView<T>, len: u16, ps: Seq<Plain>, lit: u32, eh: u32)
    requires
        ps.len() > 0,
        ps[0] is Str,
        next_is(s, ps[0]),
        plain_ok(s, ps[0]),
        room_for(s, len, ps, lit),
        appending_at(s, eh, len as int),
        s.find_word("(literal)".spec_bytes()) == Some(lit),
    ensures
        compiled_step(
            s,
            compiled_one(s, ps[0], lit),
            len,
            (2 + (ps[0]->text.len() + 3) / 4) as int,
            ps,
            lit,
            eh,
        ),
        cells_at(compiled_one(s, ps[0], lit).arena, eh, len as int, first_cells(ps[0], lit)),
{
    reveal(compiled_step);
    reveal(room_for);
    reveal(compiled_one);
    reveal(next_is);
    lemma_code_rest(ps, lit);
    s.input.lemma_advanced();
    let text = ps[0]->text;
    let ws = ps[0]->ws;
    let a = s.advanced();
    a.input.lemma_advanced_str();
    let t = compiled_one(s, ps[0], lit);
    lemma_str_written(s.arena, ws, text, eh, len as int);
    lemma_compiled_str(s, len, text, ws);
    assert(t.arena == str_written(s.arena, ws, text));
    lemma_lookup_stable(s, a, "(literal)".spec_bytes());
    lemma_lookup_stable(a, t, "(literal)".spec_bytes());
}

/// Bytes that stand in the body of a word, below the cursor, are the cells
/// of a string literal.
pub proof fn lemma_text_cells(a: ArenaView, eh: u32, k: int, text: Seq<u8>)
    requires
        text.len() > 0 ==> cell_ok(a, eh + ENTRY_SIZE + 4 * k, Cell::Text { bytes: text }),
    ensures
        cells_at(a, eh, k, text_cells(text)),
{
    reveal(text_cells);
    if text.len() > 0 {
        let cells = text_cells(text);
        lemma_any_cells(a, eh, k + 1, cells.drop_first());
    }
}

/// Cells of which nothing is known stand anywhere.
pub proof fn lemma_any_cells(a: ArenaView, eh: u32, k: int, cells: Seq<Cell>)
    requires
        forall|i: int| 0 <= i < cells.len() ==> cells[i] == Cell::Any,
    ensures
        cells_at(a, eh, k, cells),
    decreases cells.len(),
{
    if cells.len() > 0 {
        lemma_any_cells(a, eh, k + 1, cells.drop_first());
    }
}

/// Compiling a token that is a number.
pub proof fn lemma_step_number<T>(s: ForthView<T>, len: u16, ps: Seq<Plain>, lit: u32, eh: u32)
    requires
        ps.len() > 0,
        ps[0] is Number,
        next_is(s, ps[0]),
        room_for(s, len, ps, lit),
        appending_at(s, eh, len as int),
        s.find_word("(literal)".spec_bytes()) == Some(lit),
    ensures
        compiled_step(s, compiled_one(s, ps[0], lit), len, 2, ps, lit, eh),
        cells_at(compiled_one(s, ps[0], lit).arena, eh, len as int, first_cells(ps[0], lit)),
{
    reveal(compiled_step);
    reveal(room_for);
    reveal(compiled_one);
    reveal(next_is);
    lemma_code_rest(ps, lit);
    s.input.lemma_advanced();
    let val = ps[0]->val;
    let a = s.advanced();
    let t = compiled_one(s, ps[0], lit);
    let a1 = s.arena.word_written(ptr_word(lit));
    lemma_lookup_stable(s, a, "(literal)".spec_bytes());
    lemma_word_written(s.arena, ptr_word(lit));
    lemma_word_written(a1, Word { data: val });
    crate::vm::duality::lemma_compiled_number(s, len, val, lit);
    lemma_cells_written(s.arena, ptr_word(lit), Word { data: val }, eh, len as int);
    crate::dictionary::lemma_word_written_grown(s.arena, ptr_word(lit));
    crate::dictionary::lemma_word_written_grown(a1, Word { data: val });
    crate::dictionary::lemma_same_below_trans(
        s.arena,
        a1,
        t.arena,
        s.arena.cur as int,
        a1.cur as int,
    );
    lemma_lookup_stable(a, t, "(literal)".spec_bytes());
}

/// Compiling a comment: nothing but passing over it.
pub proof fn lemma_step_comment<T>(s: ForthView<T>, len: u16, ps: Seq<Plain>, lit: u32, eh: u32)
    requires
        ps.len() > 0,
        ps[0] is Comment,
        next_is(s, ps[0]),
        room_for(s, len, ps, lit),
        appending_at(s, eh, len as int),
        s.find_word("(literal)".spec_bytes()) == Some(lit),
    ensures
        compiled_step(s, compiled_one(s, ps[0], lit), len, 0, ps, lit, eh),
        cells_at(compiled_one(s, ps[0], lit).arena, eh, len as int, first_cells(ps[0], lit)),
{
    reveal(compiled_step);
    reveal(room_for);
    reveal(compiled_one);
    reveal(next_is);
    lemma_code_rest(ps, lit);
    s.input.lemma_advanced();
    s.lemma_munch_one(len);
    let a = s.advanced();
    let t = compiled_one(s, ps[0], lit);
    lemma_comment(a);
    lemma_not_semicolon(t.input.word().unwrap());
    lemma_lookup_stable(s, t, "(literal)".spec_bytes());
}

/// `colon_body`, written out one level.
pub proof fn lemma_colon_body<T>(s: ForthView<T>, len: u16, name: (u32, u32), base: u32, mode: Mode)
    ensures
        s.colon_body(len, name, base, mode) == if s.munch_one(len).0.input.remaining()
            < s.input.remaining() {
            ForthView::<T>::colon_of(
                s.munch_one(len),
                name,
                base,
                mode,
                s.munch_one(len).0.colon_body(s.munch_one(len).1, name, base, mode),
            )
        } else {
            ForthView::<T>::colon_of(
                s.munch_one(len),
                name,
                base,
                mode,
                (s.munch_one(len).0, Err::<(), Error>(Error::InternalError)),
            )
        },
{
    reveal(ForthView::<_>::colon_body);
}

/// At the `;` that ends a definition nothing is compiled.
pub proof fn lemma_step_semicolon<T>(s: ForthView<T>, len: u16)
    requires
        s.input.wf(),
        s.advanced().input.word() == Some(";".spec_bytes()),
    ensures
        s.munch_one(len) == (s.advanced(), len, Ok::<u16, Error>(0)),
        s.advanced().input.remaining() < s.input.remaining(),
{
    s.lemma_munch_one(len);
    s.input.lemma_advanced();
}

/// What compiling the tokens of a definition leaves: the machine `f` is the
/// machine `s` but for the line, which is read, and the arena, which has
/// grown by the cells `cells` of the definition of the word at `eh`, behind
/// the `len` cells that it had.
#[verifier::opaque]
pub open spec fn definition_grown<T>(
    s: ForthView<T>,
    f: ForthView<T>,
    eh: u32,
    len: int,
    cells: Seq<Cell>,
) -> bool {
    &&& f == (ForthView { arena: f.arena, input: f.input, ..s })
    &&& same_below(s.arena, f.arena, s.arena.cur as int)
    &&& f.arena.wf()
    &&& s.arena.cur <= f.arena.cur
    &&& appending_at(f, eh, len + cells.len())
    &&& cells_at(f.arena, eh, len, cells)
    &&& f.input.wf()
    &&& f.input.buf.len() == s.input.buf.len()
    &&& f.input.pos >= s.input.pos
    &&& f.advanced().input.word().is_none()
}

/// What compiling the tokens of a definition leaves, written out.
pub proof fn lemma_grown<T>(s: ForthView<T>, f: ForthView<T>, eh: u32, len: int, cells: Seq<Cell>)
    requires
        definition_grown(s, f, eh, len, cells),
    ensures
        f == (ForthView { arena: f.arena, input: f.input, ..s }),
        same_below(s.arena, f.arena, s.arena.cur as int),
        f.arena.wf(),
        s.arena.cur <= f.arena.cur,
        appending_at(f, eh, len + cells.len()),
        cells_at(f.arena, eh, len, cells),
        f.input.wf(),
        f.input.buf.len() == s.input.buf.len(),
        f.input.pos >= s.input.pos,
        f.advanced().input.word().is_none(),
{
    reveal(definition_grown);
}

/// Cells that stand below the cursor stand there still where the arena has
/// grown.
pub proof fn lemma_cells_grown(a: ArenaView, b: ArenaView, eh: u32, k: int, cells: Seq<Cell>)
    requires
        same_below(a, b, a.cur as int),
        a.cur <= b.cur,
        cells_at(a, eh, k, cells),
    ensures
        cells_at(b, eh, k, cells),
    decreases cells.len(),
{
    if cells.len() > 0 {
        let addr = eh + ENTRY_SIZE + 4 * k;
        match cells[0] {
            Cell::Is { w } => {
                lemma_same_bytes(a, b, a.cur as int, addr, 4);
            },
            Cell::Any => {},
            Cell::Text { bytes } => {
                lemma_same_bytes(a, b, a.cur as int, addr, bytes.len() as int);
            },
        }
        lemma_cells_grown(a, b, eh, k + 1, cells.drop_first());
    }
}

/// Compiled words that lie below the cursor are there still where the arena
/// has grown.
pub proof fn lemma_called_grown(a: ArenaView, b: ArenaView, ps: Seq<Plain>, lit: u32)
    requires
        same_below(a, b, a.cur as int),
        a.cur <= b.cur,
        all_called(a, ps, lit),
    ensures
        all_called(b, ps, lit),
    decreases ps,
{
    if ps.len() > 0 {
        match ps[0] {
            Plain::Call { de, body } => {
                assert(called(a, ps[0], lit));
                crate::dictionary::lemma_same_entry(a, b, a.cur as int, de as int);
                lemma_cells_grown(a, b, de, 0, code(body, lit));
                assert(de + ENTRY_SIZE <= b.cur);
                lemma_called_grown(a, b, body, lit);
            },
            _ => {},
        }
        lemma_called_grown(a, b, ps.drop_first(), lit);
    }
}

/// Behind a token that was compiled, the definition goes on with the other
/// tokens.
pub proof fn lemma_colon_step<T>(
    s: ForthView<T>,
    t: ForthView<T>,
    len: u16,
    n: int,
    name: (u32, u32),
    base: u32,
    mode: Mode,
)
    requires
        0 <= n,
        len + n <= u16::MAX,
        s.munch_one(len) == (t, (len + n) as u16, Ok::<u16, Error>(n as u16)),
        t.input.remaining() < s.input.remaining(),
        n == 0 ==> t.input.word().is_some() && t.input.word().unwrap() != ";".spec_bytes(),
    ensures
        s.colon_body(len, name, base, mode) == t.colon_body((len + n) as u16, name, base, mode),
{
    lemma_colon_body(s, len, name, base, mode);
}

/// At its `;` the definition is closed.
pub proof fn lemma_colon_end<T>(s: ForthView<T>, len: u16, name: (u32, u32), base: u32, mode: Mode)
    requires
        s.input.wf(),
        s.advanced().input.word() == Some(";".spec_bytes()),
    ensures
        s.advanced().input.wf(),
        s.colon_body(len, name, base, mode).1.is_ok(),
        s.colon_body(len, name, base, mode).0 == s.advanced().defined(len, name, base, mode),
{
    lemma_colon_body(s, len, name, base, mode);
    lemma_step_semicolon(s, len);
    s.input.lemma_advanced();
}

/// The cells of the first token and the cells of the others, which stand
/// behind them, are the cells of all tokens.
pub proof fn lemma_cells_joined(
    t: ArenaView,
    f: ArenaView,
    eh: u32,
    len: int,
    first: Seq<Cell>,
    rest: Seq<Cell>,
)
    requires
        same_below(t, f, t.cur as int),
        t.cur <= f.cur,
        cells_at(t, eh, len, first),
        cells_at(f, eh, len + first.len(), rest),
    ensures
        cells_at(f, eh, len, first + rest),
    decreases first.len(),
{
    if first.len() == 0 {
        assert(first + rest =~= rest);
    } else {
        lemma_cells_grown(t, f, eh, len, first);
        lemma_cells_joined(t, f, eh, len + 1, first.drop_first(), rest);
        assert((first + rest).drop_first() =~= first.drop_first() + rest);
    }
}

/// Compiling the first token of a plain definition appends its cells.
pub proof fn lemma_step_first<T>(s: ForthView<T>, len: u16, ps: Seq<Plain>, lit: u32, eh: u32)
    requires
        ps.len() > 0,
        next_is(s, ps[0]),
        plain_ok(s, ps[0]),
        room_for(s, len, ps, lit),
        appending_at(s, eh, len as int),
        s.find_word("(literal)".spec_bytes()) == Some(lit),
    ensures
        compiled_step(
            s,
            compiled_one(s, ps[0], lit),
            len,
            code(ps, lit).len() - code(ps.drop_first(), lit).len(),
            ps,
            lit,
            eh,
        ),
        cells_at(compiled_one(s, ps[0], lit).arena, eh, len as int, first_cells(ps[0], lit)),
{
    lemma_code_rest(ps, lit);
    match ps[0] {
        Plain::Word { bi } => {
            lemma_step_word(s, len, ps, lit, eh);
        },
        Plain::Number { val } => {
            lemma_step_number(s, len, ps, lit, eh);
        },
        Plain::Comment => {
            lemma_step_comment(s, len, ps, lit, eh);
        },
        Plain::Call { de, body } => {
            lemma_step_call(s, len, ps, lit, eh);
        },
        Plain::Str { text, ws } => {
            lemma_step_str(s, len, ps, lit, eh);
        },
    }
}

/// Behind the first token of a definition, compiling goes on with the other
/// tokens as it began with all of them.
pub proof fn lemma_step_goes_on<T>(
    s: ForthView<T>,
    t: ForthView<T>,
    len: u16,
    n: int,
    name: (u32, u32),
    base: u32,
    mode: Mode,
    ps: Seq<Plain>,
    lit: u32,
)
    requires
        ps.len() > 0,
        definition_is(s, ps),
        compiled_step(s, t, len, n, ps, lit, base),
    ensures
        s.colon_body(len, name, base, mode) == t.colon_body((len + n) as u16, name, base, mode),
        t == compiled_one(s, ps[0], lit),
        definition_is(t, ps.drop_first()),
        room_for(t, (len + n) as u16, ps.drop_first(), lit),
        appending_at(t, base, len + n),
        t.find_word("(literal)".spec_bytes()) == Some(lit),
        0 <= n,
        len + n <= u16::MAX,
        n + code(ps.drop_first(), lit).len() == code(ps, lit).len(),
{
    reveal(compiled_step);
    lemma_colon_step(s, t, len, n, name, base, mode);
    lemma_definition_grown(passed(s, ps[0]), t, ps.drop_first());
}

/// Where no token is left before the `;`, the definition is closed.
pub proof fn lemma_compiled_none<T>(
    s: ForthView<T>,
    len: u16,
    name: (u32, u32),
    base: u32,
    mode: Mode,
    ps: Seq<Plain>,
    lit: u32,
)
    requires
        ps.len() == 0,
        definition_is(s, ps),
        room_for(s, len, ps, lit),
        appending_at(s, base, len as int),
    ensures
        s.colon_body(len, name, base, mode).1.is_ok(),
        s.colon_body(len, name, base, mode).0 == compiled(s, ps, lit).defined(
            (len + code(ps, lit).len()) as u16,
            name,
            base,
            mode,
        ),
        definition_grown(s, compiled(s, ps, lit), base, len as int, code(ps, lit)),
{
    reveal(room_for);
    reveal(definition_grown);
    lemma_colon_end(s, len, name, base, mode);
    s.input.lemma_advanced();
}

/// Compiling the tokens of a plain definition up to its `;` appends the
/// cells of the tokens, one token after the other, and then closes the
/// definition.
pub proof fn lemma_compiled_line<T>(
    s: ForthView<T>,
    len: u16,
    name: (u32, u32),
    base: u32,
    mode: Mode,
    ps: Seq<Plain>,
    lit: u32,
)
    requires
        definition_is(s, ps),
        room_for(s, len, ps, lit),
        appending_at(s, base, len as int),
        s.find_word("(literal)".spec_bytes()) == Some(lit),
    ensures
        s.colon_body(len, name, base, mode).1.is_ok(),
        s.colon_body(len, name, base, mode).0 == compiled(s, ps, lit).defined(
            (len + code(ps, lit).len()) as u16,
            name,
            base,
            mode,
        ),
        definition_grown(s, compiled(s, ps, lit), base, len as int, code(ps, lit)),
    decreases ps.len(),
{
    if ps.len() == 0 {
        lemma_compiled_none(s, len, name, base, mode, ps, lit);
    } else {
        let rest = ps.drop_first();
        let t = compiled_one(s, ps[0], lit);
        let n = (code(ps, lit).len() - code(rest, lit).len()) as int;
        lemma_code_rest(ps, lit);
        lemma_step_first(s, len, ps, lit, base);
        lemma_step_goes_on(s, t, len, n, name, base, mode, ps, lit);
        lemma_compiled_line(t, (len + n) as u16, name, base, mode, rest, lit);
        lemma_grown_joined(s, t, compiled(t, rest, lit), len, n, base, ps, lit);
    }
}

/// Where the first token was compiled and then the others, all were.
pub proof fn lemma_grown_joined<T>(
    s: ForthView<T>,
    t: ForthView<T>,
    f: ForthView<T>,
    len: u16,
    n: int,
    base: u32,
    ps: Seq<Plain>,
    lit: u32,
)
    requires
        ps.len() > 0,
        appending_at(s, base, len as int),
        compiled_step(s, t, len, n, ps, lit, base),
        cells_at(t.arena, base, len as int, first_cells(ps[0], lit)),
        definition_grown(t, f, base, len + n, code(ps.drop_first(), lit)),
    ensures
        definition_grown(s, f, base, len as int, code(ps, lit)),
{
    let rest = ps.drop_first();
    reveal(compiled_step);
    reveal(definition_grown);
    crate::dictionary::lemma_same_below_trans(
        s.arena,
        t.arena,
        f.arena,
        s.arena.cur as int,
        t.arena.cur as int,
    );
    lemma_code_rest(ps, lit);
    lemma_cells_joined(
        t.arena,
        f.arena,
        base,
        len as int,
        first_cells(ps[0], lit),
        code(rest, lit),
    );
}


/// Writing the entry of a word leaves the cells of its body as they are.
pub proof fn lemma_cells_after_entry(a: ArenaView, eh: u32, e: RawEntry, k: int, cells: Seq<Cell>)
    requires
        a.holds(eh as int, ENTRY_SIZE as int),
        0 <= k,
        cells_at(a, eh, k, cells),
    ensures
        cells_at(a.store_entry(eh as int, e), eh, k, cells),
    decreases cells.len(),
{
    if cells.len() > 0 {
        let addr = eh + ENTRY_SIZE + 4 * k;
        crate::dictionary::lemma_store_entry_cells(a, eh as int, e);
        match cells[0] {
            Cell::Is { w } => {
                crate::dictionary::lemma_store_entry_keeps(a, eh as int, e, addr, 4);
            },
            Cell::Any => {},
            Cell::Text { bytes } => {
                crate::dictionary::lemma_store_entry_keeps(a, eh as int, e, addr, bytes.len() as int);
            },
        }
        lemma_cells_after_entry(a, eh, e, k + 1, cells.drop_first());
    }
}

/// Room for the entry of the word that is being defined was taken at `base`,
/// behind its name and behind the newest entry of the dictionary.
pub open spec fn entry_reserved<T>(s: ForthView<T>, name: (u32, u32), base: u32) -> bool {
    &&& 0 < base
    &&& s.arena.holds(base as int, ENTRY_SIZE as int)
    &&& s.arena.end() <= crate::vm::ARENA_LIMIT
    &&& s.arena.start <= name.0
    &&& name.0 + len_field(name.1) <= base
    &&& s.tail == 0 || (s.arena.start <= s.tail && s.tail + ENTRY_SIZE <= base)
}

/// A definition that was closed is a compiled word of as many cells as were
/// compiled, and its cells stand in its body.
pub proof fn lemma_defined_entry<T>(
    f: ForthView<T>,
    len: u16,
    name: (u32, u32),
    base: u32,
    mode: Mode,
    cells: Seq<Cell>,
)
    requires
        entry_reserved(f, name, base),
        cells_at(f.arena, base, 0, cells),
    ensures
        f.defined(len, name, base, mode).resolve(base) == Ok::<Target, Error>(
            Target::Word { func: WordFunc::Interpret, len },
        ),
        cells_at(f.defined(len, name, base, mode).arena, base, 0, cells),
        f.defined(len, name, base, mode).tail == base,
        same_stacks(f.defined(len, name, base, mode), f),
        f.defined(len, name, base, mode).builtins == f.builtins,
        f.defined(len, name, base, mode).async_builtins == f.async_builtins,
{
    reveal(ForthView::<_>::resolve);
    let e = RawEntry {
        name_addr: name.0,
        len_hash: name.1,
        kind: EntryKind::Dictionary.spec_code(),
        len,
        func: WordFunc::Interpret.spec_code(),
        link: f.tail,
    };
    crate::dictionary::lemma_store_entry(f.arena, base as int, e);
    lemma_cells_after_entry(f.arena, base, e, 0, cells);
    let done = f.defined(len, name, base, mode);
    assert(done.arena.raw_entry(base as int) == e);
    assert(WordFunc::spec_from_code(e.func) == Some(WordFunc::Interpret));
    assert(done.arena.entry_ok(base as int));
}

/// A definition that was closed is found under its name.
pub proof fn lemma_defined_found<T>(
    f: ForthView<T>,
    len: u16,
    name: (u32, u32),
    base: u32,
    mode: Mode,
    text: Seq<u8>,
)
    requires
        entry_reserved(f, name, base),
        text.len() <= 31,
        name.1 == crate::fastr::len_hash_of(text),
        f.arena.holds(name.0 as int, text.len() as int),
        f.arena.bytes(name.0 as int, text.len() as int) == text,
    ensures
        f.defined(len, name, base, mode).find_in_dict(NameView::of(text)) == Some(base),
        f.defined(len, name, base, mode).arena.wf() == f.arena.wf(),
        f.defined(len, name, base, mode).arena.start == f.arena.start,
        f.defined(len, name, base, mode).arena.cur == f.arena.cur,
        f.defined(len, name, base, mode).arena.mem.len() == f.arena.mem.len(),
{
    let e = RawEntry {
        name_addr: name.0,
        len_hash: name.1,
        kind: EntryKind::Dictionary.spec_code(),
        len,
        func: WordFunc::Interpret.spec_code(),
        link: f.tail,
    };
    crate::dictionary::lemma_store_entry(f.arena, base as int, e);
    assert(crate::fastr::name_prefix(text) =~= text);
    crate::fastr::lemma_pack_fields(text.len() as u32, crate::fastr::fnv1a(text));
    crate::dictionary::lemma_store_entry_keeps(
        f.arena,
        base as int,
        e,
        name.0 as int,
        text.len() as int,
    );
    let done = f.defined(len, name, base, mode);
    assert(done.arena.raw_entry(base as int) == e);
    assert(WordFunc::spec_from_code(e.func) == Some(WordFunc::Interpret));
    assert(done.arena.entry_ok(base as int));
    assert(done.arena.entry_named(base as int, NameView::of(text)));
}

/// In a definition that is plain, every token is plain.
pub proof fn lemma_definition_plain<T>(s: ForthView<T>, ps: Seq<Plain>)
    requires
        definition_is(s, ps),
    ensures
        forall|i: int| 0 <= i < ps.len() ==> plain_ok(s, #[trigger] ps[i]),
    decreases ps.len(),
{
    reveal(next_is);
    if ps.len() > 0 {
        s.input.lemma_advanced();
        lemma_comment(s.advanced());
        s.advanced().input.lemma_advanced_str();
        lemma_definition_plain(passed(s, ps[0]), ps.drop_first());
        assert forall|i: int| 0 <= i < ps.len() implies plain_ok(s, #[trigger] ps[i]) by {
            if i > 0 {
                assert(plain_ok(passed(s, ps[0]), ps.drop_first()[i - 1]));
            }
        }
    }
}

/// The words of a plain line do, compiled into a definition and run as the
/// word that was defined, what they do when the line is executed.
///
/// The machine `c` compiles: it stands in `:`, behind the entry that it
/// reserved at `base`, before the tokens `ps` and their `;`, with room for
/// their cells. The machine `r` runs the word: it has the dictionary that
/// compiling left, the frame of the word on top of its call stack, above
/// `depth` others, and the frames and steps that the tokens take. The
/// machine `d` executes the line `ps`. Where `d` and `r` start
/// with the same on the data stack, on the return stack and in the output,
/// they end with the same on the stacks; either both succeed or both fail at
/// the same token with the same error; and the output is the same, but for
/// the `ok.` that ends the line, which needs room of its own.
pub proof fn lemma_plain_duality<T>(
    c: ForthView<T>,
    r: ForthView<T>,
    d: ForthView<T>,
    depth: nat,
    name: (u32, u32),
    base: u32,
    mode: Mode,
    ps: Seq<Plain>,
    lit: u32,
)
    requires
        definition_is(c, ps),
        room_for(c, 0, ps, lit),
        appending_at(c, base, 0),
        entry_reserved(c, name, base),
        c.find_word("(literal)".spec_bytes()) == Some(lit),
        lit <= i32::MAX,
        r.arena == c.colon_body(0, name, base, mode).0.arena,
        r.builtins == c.builtins,
        r.async_builtins == c.async_builtins,
        r.resolve(lit) matches Ok(Target::Word { func, len }) && func == WordFunc::Literal,
        r.calls.len() == depth + 1,
        r.calls.len() + height(ps) <= r.calls_cap,
        r.calls.last() == (CallContext { eh: base, idx: 0, len: code(ps, lit).len() as u16 }),
        r.steps_left >= cost(ps) + 1,
        all_called(r.arena, ps, lit),
        line_runs(d, ps, lit),
        same_stacks(d, r),
        d.builtins == r.builtins,
    ensures
        c.colon_body(0, name, base, mode).1.is_ok(),
        d.line_from().0.data == r.run(depth).0.data,
        d.line_from().0.ret == r.run(depth).0.ret,
        r.run(depth).1.is_err() ==> same_result(d.line_from().1, r.run(depth).1)
            && d.line_from().0.output == r.run(depth).0.output,
        r.run(depth).1.is_ok() ==> d.line_from().1.is_ok() == (r.run(depth).0.output.len() + 4
            <= r.run(depth).0.output_cap),
        r.run(depth).1.is_ok() && d.line_from().1.is_ok() ==> d.line_from().0.output == r.run(
            depth,
        ).0.output + "ok.\n".spec_bytes(),
        r.run(depth).1.is_ok() && d.line_from().1.is_err() ==> d.line_from().0.output == r.run(
            depth,
        ).0.output,
{
    crate::vm::duality::lemma_ok_len();
    reveal(room_for);
    let cells = code(ps, lit);
    let f = compiled(c, ps, lit);
    let done = f.defined(cells.len() as u16, name, base, mode);
    lemma_compiled_line(c, 0, name, base, mode, ps, lit);
    lemma_grown(c, f, base, 0, cells);
    lemma_defined_entry(f, cells.len() as u16, name, base, mode, cells);
    lemma_resolve_same(r, done, base);
    lemma_definition_plain(c, ps);
    assert(body_holds(r, depth, cells, lit));
    assert(body_runs(r, depth, ps, lit));
    lemma_compile_interpret_duality(d, r, depth, ps, lit);
}
} // verus!
