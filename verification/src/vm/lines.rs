//! Laws of lines: a line that defines a word from plain tokens, a line that
//! calls it, and the line of the tokens themselves.

use crate::dictionary::{
    lemma_bumped_grown, lemma_interned_grown, lemma_same_below_trans, lemma_same_bytes, lower,
    same_below, ENTRY_SIZE,
};
use crate::fastr::{lemma_pack_fields, len_hash_of, name_prefix, NameView};
use crate::vm::builtins::Target;
use crate::vm::compiling::{
    appending_at, compiled, definition_is, entry_reserved, grown_from, lemma_compiled_line,
    lemma_defined_entry, lemma_defined_found, lemma_definition_grown, lemma_lookup_stable,
    room_for,
};
use crate::vm::duality::{
    all_called, body_holds, body_runs, cells_at, code, cost, height, lemma_body_folds,
    lemma_direct_token, lemma_fold_same, lemma_line_folds, lemma_line_from, lemma_line_plain,
    lemma_ok_len, lemma_resolve_builtin, lemma_resolve_same, lemma_run, lemma_step_plain,
    line_agrees, line_runs, next_is_builtin, plain_fold, plain_ok, same_result, same_stacks, Plain,
};
use crate::vm::laws::reserved;
use crate::vm::{ForthView, ARENA_LIMIT, BUILTIN_BASE};
use crate::{Error, Lookup, Mode, WordFunc};
use vstd::prelude::*;
use vstd::string::StringSliceAdditionalSpecFns;

verus! {

/// The machine in which the routine of a word runs that was called from the
/// line: the frame of the word is on the call stack and a step is spent.
pub open spec fn entered<T>(s: ForthView<T>, eh: u32, f: WordFunc, len: u16) -> ForthView<T> {
    ForthView {
        calls: s.calls.push(ForthView::<T>::frame_for(eh, Target::Word { func: f, len })),
        steps_left: (s.steps_left - 1) as u64,
        ..s
    }
}

/// A word that is no compiled word and is called from the line runs its
/// routine once; where that succeeds and leaves the call stack and the steps
/// alone, the call leaves what the routine left, with the call stack as it
/// was.
pub proof fn lemma_called<T>(s: ForthView<T>, eh: u32, f: WordFunc, len: u16)
    requires
        s.resolve(eh) == Ok::<Target, Error>(Target::Word { func: f, len }),
        f != WordFunc::Interpret,
        s.calls.len() < s.calls_cap,
        s.steps_left > 0,
        entered(s, eh, f, len).run_plain(f).1.is_ok(),
        entered(s, eh, f, len).run_plain(f).0.calls == entered(s, eh, f, len).calls,
        entered(s, eh, f, len).run_plain(f).0.steps_left == entered(s, eh, f, len).steps_left,
        entered(s, eh, f, len).run_plain(f).0.calls_cap == s.calls_cap,
    ensures
        s.call_word(eh).1.is_ok(),
        s.call_word(eh).0 == (ForthView { calls: s.calls, ..entered(s, eh, f, len).run_plain(f).0 }),
{
    let base = s.calls.len();
    let frame = ForthView::<T>::frame_for(eh, Target::Word { func: f, len });
    let s1 = ForthView { calls: s.calls.push(frame), ..s };
    assert(s.call(frame).0 == s1 && s.call(frame).1.is_ok());
    assert(s.call_word(eh) == s1.run(base));
    let s2 = s1.spent();
    assert(s2 == entered(s, eh, f, len));
    lemma_resolve_same(s2, s, eh);
    lemma_step_plain(s2, base, f, len);
    lemma_run(s1, base);
    let ran = s2.run_plain(f);
    assert(s2.calls.drop_last() =~= s.calls);
    let done = ran.0.finish(base);
    assert(done.0 == (ForthView { calls: s.calls, ..ran.0 }) && done.1.is_ok());
    lemma_run(done.0, base);
}

/// The name that `:` reads: the token that follows it.
pub open spec fn defined_name<T>(q: ForthView<T>) -> Seq<u8> {
    q.advanced().input.word().unwrap()
}

/// The machine behind the entry that `:` reserved: the name is interned and
/// room for the entry is taken.
pub open spec fn header<T>(q: ForthView<T>) -> ForthView<T> {
    ForthView {
        mode: Mode::Compile,
        arena: q.arena.interned(defined_name(q)).bumped(ENTRY_SIZE as nat, 4),
        ..q.advanced()
    }
}

/// Where the name stands that `:` interned, and its descriptor.
pub open spec fn header_name<T>(q: ForthView<T>) -> (u32, u32) {
    (q.arena.cur as u32, len_hash_of(lower(name_prefix(defined_name(q)))))
}

/// Where the entry stands that `:` reserved.
pub open spec fn header_base<T>(q: ForthView<T>) -> u32 {
    q.arena.interned(defined_name(q)).bump_addr(4) as u32
}

/// The machine stands in `:`, before a name and a plain definition, and has
/// room in the arena for all of it.
pub open spec fn defines<T>(q: ForthView<T>, ps: Seq<Plain>, lit: u32) -> bool {
    &&& q.input.wf()
    &&& q.advanced().input.word().is_some()
    &&& q.arena.wf()
    &&& 1 <= q.arena.start
    &&& q.arena.end() <= ARENA_LIMIT
    &&& q.tail == 0 || (q.arena.start <= q.tail && q.tail + ENTRY_SIZE <= q.arena.cur)
    &&& q.arena.intern_result(defined_name(q)).is_ok()
    &&& q.arena.interned(defined_name(q)).bump_fits(ENTRY_SIZE as nat, 4)
    &&& definition_is(q.advanced(), ps)
    &&& header(q).arena.cur + 4 * code(ps, lit).len() <= q.arena.end()
    &&& code(ps, lit).len() <= u16::MAX
    &&& q.find_word("(literal)".spec_bytes()) == Some(lit)
}

/// What interning a name and reserving an entry behind it leave of an arena.
pub proof fn lemma_header_arena(a: crate::dictionary::ArenaView, name: Seq<u8>)
    requires
        a.wf(),
        1 <= a.start,
        a.intern_result(name).is_ok(),
        a.interned(name).bump_fits(ENTRY_SIZE as nat, 4),
    ensures
        ({
            let text = lower(name_prefix(name));
            let done = a.interned(name).bumped(ENTRY_SIZE as nat, 4);
            let base = a.interned(name).bump_addr(4);
            &&& same_below(a, done, a.cur as int)
            &&& done.wf()
            &&& done.start == a.start
            &&& done.end() == a.end()
            &&& done.cur == base + ENTRY_SIZE
            &&& done.bump_addr(4) == base + ENTRY_SIZE
            &&& done.holds(base as int, ENTRY_SIZE as int)
            &&& a.cur + text.len() <= base
            &&& 0 < base
            &&& done.bytes(a.cur as int, text.len() as int) == text
            &&& crate::fastr::len_field(len_hash_of(text)) == text.len()
        }),
{
    let text = lower(name_prefix(name));
    let a1 = a.interned(name);
    let a2 = a1.bumped(ENTRY_SIZE as nat, 4);
    lemma_interned_grown(a, name);
    lemma_bumped_grown(a1, ENTRY_SIZE as nat, 4);
    lemma_same_below_trans(a, a1, a2, a.cur as int, a1.cur as int);
    lemma_same_bytes(a1, a2, a1.cur as int, a.cur as int, text.len() as int);
    assert(name_prefix(text) =~= text);
    lemma_pack_fields(text.len() as u32, crate::fastr::fnv1a(text));
}

/// Behind the entry that `:` reserved, the machine is ready to compile the
/// definition.
pub proof fn lemma_header<T>(q: ForthView<T>, ps: Seq<Plain>, lit: u32)
    requires
        defines(q, ps, lit),
    ensures
        definition_is(header(q), ps),
        room_for(header(q), 0, ps, lit),
        appending_at(header(q), header_base(q), 0),
        entry_reserved(header(q), header_name(q), header_base(q)),
        header(q).find_word("(literal)".spec_bytes()) == Some(lit),
        same_below(q.arena, header(q).arena, q.arena.cur as int),
        header(q).arena.bytes(q.arena.cur as int, name_prefix(defined_name(q)).len() as int)
            == lower(name_prefix(defined_name(q))),
        q.arena.cur + name_prefix(defined_name(q)).len() <= header_base(q),
        header_base(q) + ENTRY_SIZE == header(q).arena.cur,
{
    reveal(room_for);
    lemma_header_arena(q.arena, defined_name(q));
    q.input.lemma_advanced();
    assert(grown_from(header(q), q.advanced()));
    lemma_definition_grown(q.advanced(), header(q), ps);
    lemma_lookup_stable(q, q.advanced(), "(literal)".spec_bytes());
    lemma_lookup_stable(q.advanced(), header(q), "(literal)".spec_bytes());
}


/// The machine that `:` leaves behind a plain definition.
pub open spec fn after_colon<T>(q: ForthView<T>, ps: Seq<Plain>, lit: u32) -> ForthView<T> {
    compiled(header(q), ps, lit).defined(
        code(ps, lit).len() as u16,
        header_name(q),
        header_base(q),
        q.mode,
    )
}

/// What `:` leaves behind a plain definition: the word is the newest of the
/// dictionary, is found under its name, and is a compiled word whose body
/// holds the cells of the tokens; the line is read to its end; nothing else
/// of the machine changed.
pub open spec fn defined_by<T>(q: ForthView<T>, done: ForthView<T>, ps: Seq<Plain>, lit: u32) -> bool {
    &&& done == (ForthView { arena: done.arena, tail: header_base(q), input: done.input, ..q })
    &&& done.resolve(header_base(q)) == Ok::<Target, Error>(
        Target::Word { func: WordFunc::Interpret, len: code(ps, lit).len() as u16 },
    )
    &&& cells_at(done.arena, header_base(q), 0, code(ps, lit))
    &&& done.find_in_dict(NameView::of(lower(name_prefix(defined_name(q))))) == Some(
        header_base(q),
    )
    &&& done.input.wf()
    &&& done.input.buf.len() == q.input.buf.len()
    &&& done.input.pos > q.input.pos
    &&& done.advanced().input.word().is_none()
    &&& done.arena.wf()
    &&& done.arena.start == q.arena.start
    &&& done.arena.end() == q.arena.end()
    &&& q.arena.cur <= header_base(q)
    &&& header_base(q) + ENTRY_SIZE <= done.arena.cur
    &&& same_below(q.arena, done.arena, q.arena.cur as int)
}

/// `:` before a plain definition defines the word.
pub proof fn lemma_colon_defines<T>(q: ForthView<T>, ps: Seq<Plain>, lit: u32)
    requires
        defines(q, ps, lit),
    ensures
        q.spec_colon().1.is_ok(),
        q.spec_colon().0 == after_colon(q, ps, lit),
        defined_by(q, after_colon(q, ps, lit), ps, lit),
{
    let c = header(q);
    let name = header_name(q);
    let base = header_base(q);
    let cells = code(ps, lit);
    let text = lower(name_prefix(defined_name(q)));
    let f = compiled(c, ps, lit);
    lemma_header(q, ps, lit);
    lemma_compiled_line(c, 0, name, base, q.mode, ps, lit);
    crate::vm::compiling::lemma_grown(c, f, base, 0, cells);
    lemma_same_bytes(c.arena, f.arena, c.arena.cur as int, q.arena.cur as int, text.len() as int);
    lemma_same_below_trans(q.arena, c.arena, f.arena, q.arena.cur as int, c.arena.cur as int);
    lemma_defined_entry(f, cells.len() as u16, name, base, q.mode, cells);
    lemma_defined_found(f, cells.len() as u16, name, base, q.mode, text);
    let done = after_colon(q, ps, lit);
    q.input.lemma_advanced();
    assert forall|i: int|
        0 <= i < q.arena.cur - q.arena.start && i < q.arena.mem.len() implies q.arena.mem[i]
        == done.arena.mem[i] by {
        crate::dictionary::lemma_store_entry_keeps(
            f.arena,
            base as int,
            crate::dictionary::RawEntry {
                name_addr: name.0,
                len_hash: name.1,
                kind: crate::dictionary::EntryKind::Dictionary.spec_code(),
                len: cells.len() as u16,
                func: WordFunc::Interpret.spec_code(),
                link: f.tail,
            },
            q.arena.start + i,
            1,
        );
        assert(done.arena.bytes(q.arena.start + i, 1)[0] == f.arena.bytes(q.arena.start + i, 1)[0]);
    }
}

/// The machine at the start of a line: with the whole budget of steps.
pub open spec fn started<T>(c: ForthView<T>) -> ForthView<T> {
    ForthView { steps_left: c.step_limit, ..c }
}

/// The machine in which `:` runs, where `:` is the first token of the line
/// and the builtin at index `bi`.
pub open spec fn in_colon<T>(c: ForthView<T>, bi: u32) -> ForthView<T> {
    entered(
        started(c).advanced(),
        (BUILTIN_BASE + bi) as u32,
        WordFunc::Colon,
        c.builtins[bi as int].hdr.len,
    )
}

/// The line is `:`, a name, plain tokens and `;`; the machine can take a
/// step and a frame; and there is room for the definition and for `ok.`.
#[verifier::opaque]
pub open spec fn definition_line<T>(c: ForthView<T>, bi: u32, ps: Seq<Plain>, lit: u32) -> bool {
    &&& next_is_builtin(started(c), bi)
    &&& bi < c.builtins.len()
    &&& bi < 0x1000_0000
    &&& c.builtins[bi as int].func == WordFunc::Colon
    &&& c.calls.len() < c.calls_cap
    &&& c.step_limit > 0
    &&& c.output.len() + 4 <= c.output_cap
    &&& defines(in_colon(c, bi), ps, lit)
}

/// The machine after a line that defined a word.
pub open spec fn after_definition<T>(c: ForthView<T>, bi: u32, ps: Seq<Plain>, lit: u32) -> ForthView<
    T,
> {
    let done = after_colon(in_colon(c, bi), ps, lit);
    ForthView {
        calls: c.calls,
        input: done.input.advanced(),
        output: c.output + "ok.\n".spec_bytes(),
        ..done
    }
}

/// A line that is `:`, a name, plain tokens and `;` defines the word and
/// writes `ok.`.
pub proof fn lemma_definition_line<T>(c: ForthView<T>, bi: u32, ps: Seq<Plain>, lit: u32)
    requires
        definition_line(c, bi, ps, lit),
    ensures
        c.spec_process_line().1.is_ok(),
        c.spec_process_line().0 == after_definition(c, bi, ps, lit),
        defined_by(in_colon(c, bi), after_colon(in_colon(c, bi), ps, lit), ps, lit),
{
    reveal(definition_line);
    let s = started(c);
    let a = s.advanced();
    let eh = (BUILTIN_BASE + bi) as u32;
    let len = c.builtins[bi as int].hdr.len;
    let q = in_colon(c, bi);
    let done = after_colon(q, ps, lit);
    lemma_ok_len();
    lemma_line_from(s);
    lemma_direct_token(s, bi, 0);
    lemma_resolve_builtin(a, bi);
    lemma_colon_defines(q, ps, lit);
    assert(q.run_plain(WordFunc::Colon) == q.spec_colon()) by {
        reveal(ForthView::<_>::run_plain);
    }
    lemma_called(a, eh, WordFunc::Colon, len);
    let t = ForthView { calls: a.calls, ..done };
    assert(a.call_word(eh).0 == t);
    s.input.lemma_advanced();
    lemma_line_from(t);
}

/// The line is the name of the compiled word at `base` and nothing else; the
/// body of the word holds the cells of the tokens `ps`; the arena holds the
/// words that they name; and the machine can take the steps and the frames
/// that running them takes.
#[verifier::opaque]
pub open spec fn word_line<T>(r: ForthView<T>, base: u32, ps: Seq<Plain>, lit: u32) -> bool {
    let s = started(r);
    &&& s.input.wf()
    &&& s.advanced().input.word().is_some()
    &&& s.advanced().lookup(s.advanced().input.word().unwrap()) == Ok::<Lookup, Error>(
        Lookup::Dict { de: base },
    )
    &&& s.advanced().advanced().input.word().is_none()
    &&& s.resolve(base) == Ok::<Target, Error>(
        Target::Word { func: WordFunc::Interpret, len: code(ps, lit).len() as u16 },
    )
    &&& code(ps, lit).len() <= u16::MAX
    &&& cells_at(s.arena, base, 0, code(ps, lit))
    &&& lit <= i32::MAX
    &&& s.resolve(lit) matches Ok(Target::Word { func, len }) && func == WordFunc::Literal
    &&& forall|i: int| 0 <= i < ps.len() ==> plain_ok(s, #[trigger] ps[i])
    &&& all_called(s.arena, ps, lit)
    &&& s.calls.len() + 1 + height(ps) <= s.calls_cap
    &&& s.steps_left >= cost(ps) + 1
}

/// A line that is the name of a word compiled from plain tokens does what
/// folding the tokens does, and then writes `ok.`.
pub proof fn lemma_word_line<T>(r: ForthView<T>, base: u32, ps: Seq<Plain>, lit: u32)
    requires
        word_line(r, base, ps, lit),
    ensures
        line_agrees(r.spec_process_line(), plain_fold(r, ps)),
{
    reveal(word_line);
    let s = started(r);
    let a = s.advanced();
    let depth = a.calls.len();
    let target = Target::Word { func: WordFunc::Interpret, len: code(ps, lit).len() as u16 };
    let frame = ForthView::<T>::frame_for(base, target);
    let b = ForthView { calls: a.calls.push(frame), ..a };
    lemma_ok_len();
    lemma_line_from(s);
    s.input.lemma_advanced();
    lemma_resolve_same(a, s, base);
    lemma_resolve_same(b, s, base);
    lemma_resolve_same(b, s, lit);
    assert(a.call(frame).0 == b && a.call(frame).1.is_ok());
    assert(a.call_word(base) == b.run(depth));
    assert(b.calls.drop_last() =~= a.calls);
    assert(body_holds(b, depth, code(ps, lit), lit));
    assert(body_runs(b, depth, ps, lit));
    lemma_body_folds(b, depth, ps, lit);
    lemma_fold_same(b, r, ps);
    let ran = b.run(depth);
    if plain_fold(b, ps).1.is_ok() {
        lemma_line_from(ran.0);
    }
}

/// A word that the dictionary holds under a name that is no reserved token
/// is what a line gets for that name.
pub proof fn lemma_lookup_found<T>(s: ForthView<T>, w: Seq<u8>, base: u32)
    requires
        !reserved(w),
        s.find_in_dict(NameView::of(w)) == Some(base),
    ensures
        s.lookup(w) == Ok::<Lookup, Error>(Lookup::Dict { de: base }),
{
}

/// Whether tokens are plain depends on the table alone.
pub proof fn lemma_plain_same<T>(a: ForthView<T>, b: ForthView<T>, ps: Seq<Plain>)
    requires
        a.builtins == b.builtins,
        forall|i: int| 0 <= i < ps.len() ==> plain_ok(a, #[trigger] ps[i]),
    ensures
        forall|i: int| 0 <= i < ps.len() ==> plain_ok(b, #[trigger] ps[i]),
{
    assert forall|i: int| 0 <= i < ps.len() implies plain_ok(b, #[trigger] ps[i]) by {
        assert(plain_ok(a, ps[i]));
    }
}

/// After the line that defined a word, a line that is the name of the word
/// calls the word.
pub proof fn lemma_defined_word_line<T>(
    c: ForthView<T>,
    r: ForthView<T>,
    bi: u32,
    ps: Seq<Plain>,
    lit: u32,
)
    requires
        definition_line(c, bi, ps, lit),
        r == (ForthView { input: r.input, ..c.spec_process_line().0 }),
        started(r).input.wf(),
        started(r).advanced().input.word() == Some(lower(name_prefix(defined_name(in_colon(c, bi))))),
        started(r).advanced().advanced().input.word().is_none(),
        !reserved(lower(name_prefix(defined_name(in_colon(c, bi))))),
        lit <= i32::MAX,
        r.resolve(lit) matches Ok(Target::Word { func, len }) && func == WordFunc::Literal,
        all_called(c.arena, ps, lit),
        r.calls.len() + 1 + height(ps) <= r.calls_cap,
        r.step_limit >= cost(ps) + 1,
    ensures
        c.spec_process_line().1.is_ok(),
        word_line(r, header_base(in_colon(c, bi)), ps, lit),
        r.builtins == c.builtins,
        same_stacks(r, (ForthView { output: c.output + "ok.\n".spec_bytes(), ..c })),
{
    reveal(definition_line);
    reveal(word_line);
    let q = in_colon(c, bi);
    let done = after_colon(q, ps, lit);
    let base = header_base(q);
    let w = lower(name_prefix(defined_name(q)));
    lemma_definition_line(c, bi, ps, lit);
    let s = started(r);
    let a = s.advanced();
    lemma_lookup_same(a, done, w);
    lemma_lookup_found(done, w, base);
    lemma_resolve_same(s, done, base);
    lemma_resolve_same(s, r, lit);
    crate::vm::compiling::lemma_definition_plain(q.advanced(), ps);
    lemma_plain_same(q.advanced(), s, ps);
    crate::vm::compiling::lemma_called_grown(c.arena, done.arena, ps, lit);
}

/// The words of a plain line do, compiled into a definition and called by
/// the name of the word that was defined, what they do when the line is
/// executed.
///
/// One machine, `c`, executes the line that is `:`, a name, the tokens `ps`
/// and `;`, and then, as `r`, a line that is that name. Another, `d`,
/// executes the line that is the tokens `ps`. Where `d` holds on its stacks
/// and in its output what `r` holds before its line, both lines end alike:
/// with success, or with the same error of the same token, and with the same
/// on the data stack, on the return stack and in the output.
///
/// The tokens of a plain line are numbers, comments, `."` with its string
/// literal, the names of builtins that work on the stacks and the output
/// alone, and the names of words that were compiled from such tokens before;
/// both machines hold those words, and have frames and steps for the line.
pub proof fn lemma_duality_of_lines<T>(
    c: ForthView<T>,
    r: ForthView<T>,
    d: ForthView<T>,
    bi: u32,
    ps: Seq<Plain>,
    lit: u32,
)
    requires
        definition_line(c, bi, ps, lit),
        r == (ForthView { input: r.input, ..c.spec_process_line().0 }),
        started(r).input.wf(),
        started(r).advanced().input.word() == Some(lower(name_prefix(defined_name(in_colon(c, bi))))),
        started(r).advanced().advanced().input.word().is_none(),
        !reserved(lower(name_prefix(defined_name(in_colon(c, bi))))),
        lit <= i32::MAX,
        r.resolve(lit) matches Ok(Target::Word { func, len }) && func == WordFunc::Literal,
        all_called(c.arena, ps, lit),
        r.calls.len() + 1 + height(ps) <= r.calls_cap,
        r.step_limit >= cost(ps) + 1,
        line_runs(started(d), ps, lit),
        same_stacks(d, r),
        d.builtins == r.builtins,
    ensures
        c.spec_process_line().1.is_ok(),
        same_result(d.spec_process_line().1, r.spec_process_line().1),
        d.spec_process_line().0.data == r.spec_process_line().0.data,
        d.spec_process_line().0.ret == r.spec_process_line().0.ret,
        d.spec_process_line().0.output == r.spec_process_line().0.output,
{
    let base = header_base(in_colon(c, bi));
    lemma_defined_word_line(c, r, bi, ps, lit);
    lemma_word_line(r, base, ps, lit);
    lemma_line_folds(started(d), ps, lit);
    lemma_line_plain(started(d), ps);
    lemma_fold_same(started(d), r, ps);
    lemma_agree(
        started(d).line_from(),
        r.spec_process_line(),
        plain_fold(started(d), ps),
        plain_fold(r, ps),
    );
}

/// The words of a plain line do, compiled into a definition and called by
/// the name of the word that was defined, what they do when the line is
/// executed, from one and the same machine.
///
/// From the machine `c` the line `d` of the tokens `ps` succeeds. From `c`
/// too, the line that is `:`, a name, the tokens `ps` and `;` succeeds and
/// writes `ok.` and nothing else; and then, as `r`, the line that is that
/// name succeeds, leaves on the data stack and on the return stack what the
/// line of the tokens left there, and writes what that line wrote. The
/// output has room for the `ok.` of the definition besides.
pub proof fn lemma_duality<T>(
    c: ForthView<T>,
    r: ForthView<T>,
    d: ForthView<T>,
    bi: u32,
    ps: Seq<Plain>,
    lit: u32,
)
    requires
        definition_line(c, bi, ps, lit),
        r == (ForthView { input: r.input, ..c.spec_process_line().0 }),
        started(r).input.wf(),
        started(r).advanced().input.word() == Some(lower(name_prefix(defined_name(in_colon(c, bi))))),
        started(r).advanced().advanced().input.word().is_none(),
        !reserved(lower(name_prefix(defined_name(in_colon(c, bi))))),
        lit <= i32::MAX,
        r.resolve(lit) matches Ok(Target::Word { func, len }) && func == WordFunc::Literal,
        all_called(c.arena, ps, lit),
        r.calls.len() + 1 + height(ps) <= r.calls_cap,
        r.step_limit >= cost(ps) + 1,
        d == (ForthView { input: d.input, ..c }),
        line_runs(started(d), ps, lit),
        d.spec_process_line().1.is_ok(),
        d.spec_process_line().0.output.len() + 4 <= d.output_cap,
    ensures
        c.spec_process_line().1.is_ok(),
        c.spec_process_line().0.output == c.output + "ok.\n".spec_bytes(),
        r.spec_process_line().1.is_ok(),
        r.spec_process_line().0.data == d.spec_process_line().0.data,
        r.spec_process_line().0.ret == d.spec_process_line().0.ret,
        c.output.len() <= d.spec_process_line().0.output.len(),
        r.spec_process_line().0.output == c.output + "ok.\n".spec_bytes() + d.spec_process_line().0.output.skip(
            c.output.len() as int,
        ),
{
    let k = "ok.\n".spec_bytes();
    let d2 = ForthView { output: c.output + k, ..d };
    let s = started(d);
    let s2 = started(d2);
    lemma_ok_len();
    lemma_defined_word_line(c, r, bi, ps, lit);
    lemma_definition_line(c, bi, ps, lit);
    crate::vm::duality::lemma_line_is_same(s, s2, ps);
    lemma_resolve_same(s2, s, lit);
    lemma_duality_of_lines(c, r, d2, bi, ps, lit);
    lemma_line_folds(s, ps, lit);
    lemma_line_plain(s, ps);
    crate::vm::appending::lemma_fold_appends(s, s2, ps);
    lemma_line_folds(s2, ps, lit);
    let f = plain_fold(s, ps);
    let w = f.0.output.skip(c.output.len() as int);
    assert(f.0.output =~= c.output + w);
    assert((c.output + w + k).skip(c.output.len() as int) =~= w + k);
    assert(c.output + k + w + k =~= c.output + k + (w + k));
}

/// Lines that agree with folds that agree, agree.
pub proof fn lemma_agree<T>(
    l1: (ForthView<T>, Result<(), Error>),
    l2: (ForthView<T>, Result<(), Error>),
    f1: (ForthView<T>, Result<(), Error>),
    f2: (ForthView<T>, Result<(), Error>),
)
    requires
        line_agrees(l1, f1),
        line_agrees(l2, f2),
        same_result(f1.1, f2.1),
        same_stacks(f1.0, f2.0),
    ensures
        same_result(l1.1, l2.1),
        l1.0.data == l2.0.data,
        l1.0.ret == l2.0.ret,
        l1.0.output == l2.0.output,
{
}

/// What a token is depends on the dictionary and the tables alone.
pub proof fn lemma_lookup_same<T>(a: ForthView<T>, b: ForthView<T>, w: Seq<u8>)
    requires
        a.arena == b.arena,
        a.tail == b.tail,
        a.builtins == b.builtins,
        a.async_builtins == b.async_builtins,
    ensures
        a.lookup(w) == b.lookup(w),
{
}

} // verus!
