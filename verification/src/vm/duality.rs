//! Laws of compiled code: a word does the same whether it is called from the
//! line or from the body of a compiled word, and so does a line of numbers,
//! comments, string literals, stack words and words that were compiled from
//! these.

use crate::vm::builtins::{body_addr, Target};
use crate::vm::munch::ptr_word;
use crate::dictionary::{ArenaView, BuiltinEntry};
use crate::vm::{ForthView, BUILTIN_BASE};
use crate::word::Word;
use crate::{CallContext, Error, Lookup, WordFunc};
use vstd::prelude::*;
use vstd::string::StringSliceAdditionalSpecFns;

verus! {

/// The routines that work on the data stack, the return stack and the
/// output, and on nothing else.
pub open spec fn stack_word(f: WordFunc) -> bool {
    match f {
        WordFunc::Colon => false,
        WordFunc::Forget => false,
        WordFunc::VarLoad => false,
        WordFunc::VarStore => false,
        WordFunc::WriteStrLit => false,
        WordFunc::JumpDoloop => false,
        WordFunc::JumpIfZero => false,
        WordFunc::Jump => false,
        WordFunc::Literal => false,
        WordFunc::Constant => false,
        WordFunc::Variable => false,
        WordFunc::Interpret => false,
        _ => true,
    }
}

/// Two machines hold the same on their data stacks, on their return stacks
/// and in their outputs.
pub open spec fn same_stacks<T>(a: ForthView<T>, b: ForthView<T>) -> bool {
    &&& a.data == b.data
    &&& a.data_cap == b.data_cap
    &&& a.ret == b.ret
    &&& a.ret_cap == b.ret_cap
    &&& a.output == b.output
    &&& a.output_cap == b.output_cap
}

/// Two results are the same: both are a success, or both are the same error.
pub open spec fn same_result(x: Result<(), Error>, y: Result<(), Error>) -> bool {
    (x.is_ok() && y.is_ok()) || (x.is_err() && x == y)
}

/// The outcomes `x` and `y` of a word in the machines `a` and `b`: the same
/// result, the same on the stacks and in the output, and nothing else of `a`
/// changed.
pub open spec fn stack_effect<T>(
    a: ForthView<T>,
    b: ForthView<T>,
    x: (ForthView<T>, Result<(), Error>),
    y: (ForthView<T>, Result<(), Error>),
) -> bool {
    &&& same_result(x.1, y.1)
    &&& same_stacks(x.0, y.0)
    &&& x.0 == (ForthView { data: x.0.data, ret: x.0.ret, output: x.0.output, ..a })
}

/// The words of arithmetic are stack words.
proof fn lemma_stack_word_arithmetic<T>(a: ForthView<T>, b: ForthView<T>, f: WordFunc)
    requires
        f == WordFunc::Add || f == WordFunc::Minus || f == WordFunc::Div || f == WordFunc::Modu || f == WordFunc::DivMod || f == WordFunc::Mul || f == WordFunc::Abs || f == WordFunc::Negate || f == WordFunc::Min || f == WordFunc::Max || f == WordFunc::StarSlash || f == WordFunc::StarSlashMod,
        same_stacks(a, b),
    ensures
        stack_effect(a, b, a.run_plain(f), b.run_plain(f)),
{
    reveal(ForthView::<_>::run_plain);
    match f {
        WordFunc::Add => {
            assert(stack_effect(a, b, a.spec_add(), b.spec_add()));
        },
        WordFunc::Minus => {
            assert(stack_effect(a, b, a.spec_minus(), b.spec_minus()));
        },
        WordFunc::Div => {
            assert(stack_effect(a, b, a.spec_div(), b.spec_div()));
        },
        WordFunc::Modu => {
            assert(stack_effect(a, b, a.spec_modu(), b.spec_modu()));
        },
        WordFunc::DivMod => {
            assert(stack_effect(a, b, a.spec_div_mod(), b.spec_div_mod()));
        },
        WordFunc::Mul => {
            assert(stack_effect(a, b, a.spec_mul(), b.spec_mul()));
        },
        WordFunc::Abs => {
            assert(stack_effect(a, b, a.spec_abs(), b.spec_abs()));
        },
        WordFunc::Negate => {
            assert(stack_effect(a, b, a.spec_negate(), b.spec_negate()));
        },
        WordFunc::Min => {
            assert(stack_effect(a, b, a.spec_min(), b.spec_min()));
        },
        WordFunc::Max => {
            assert(stack_effect(a, b, a.spec_max(), b.spec_max()));
        },
        WordFunc::StarSlash => {
            assert(stack_effect(a, b, a.spec_star_slash(), b.spec_star_slash()));
        },
        WordFunc::StarSlashMod => {
            assert(stack_effect(a, b, a.spec_star_slash_mod(), b.spec_star_slash_mod()));
        },
        _ => {},
    }
}

/// The words of logic are stack words.
proof fn lemma_stack_word_logic<T>(a: ForthView<T>, b: ForthView<T>, f: WordFunc)
    requires
        f == WordFunc::Invert || f == WordFunc::And || f == WordFunc::Equal || f == WordFunc::Greater || f == WordFunc::Less || f == WordFunc::ZeroEqual || f == WordFunc::ZeroGreater || f == WordFunc::ZeroLess,
        same_stacks(a, b),
    ensures
        stack_effect(a, b, a.run_plain(f), b.run_plain(f)),
{
    reveal(ForthView::<_>::run_plain);
    match f {
        WordFunc::Invert => {
            assert(stack_effect(a, b, a.spec_invert(), b.spec_invert()));
        },
        WordFunc::And => {
            assert(stack_effect(a, b, a.spec_and(), b.spec_and()));
        },
        WordFunc::Equal => {
            assert(stack_effect(a, b, a.spec_equal(), b.spec_equal()));
        },
        WordFunc::Greater => {
            assert(stack_effect(a, b, a.spec_greater(), b.spec_greater()));
        },
        WordFunc::Less => {
            assert(stack_effect(a, b, a.spec_less(), b.spec_less()));
        },
        WordFunc::ZeroEqual => {
            assert(stack_effect(a, b, a.spec_zero_equal(), b.spec_zero_equal()));
        },
        WordFunc::ZeroGreater => {
            assert(stack_effect(a, b, a.spec_zero_greater(), b.spec_zero_greater()));
        },
        WordFunc::ZeroLess => {
            assert(stack_effect(a, b, a.spec_zero_less(), b.spec_zero_less()));
        },
        _ => {},
    }
}

/// The words that shuffle the data stack are stack words.
proof fn lemma_stack_word_shuffle<T>(a: ForthView<T>, b: ForthView<T>, f: WordFunc)
    requires
        f == WordFunc::Swap || f == WordFunc::Dup || f == WordFunc::Over || f == WordFunc::Rot || f == WordFunc::DsDrop || f == WordFunc::Swap2 || f == WordFunc::Dup2 || f == WordFunc::Over2 || f == WordFunc::DsDrop2,
        same_stacks(a, b),
    ensures
        stack_effect(a, b, a.run_plain(f), b.run_plain(f)),
{
    reveal(ForthView::<_>::run_plain);
    match f {
        WordFunc::Swap => {
            assert(stack_effect(a, b, a.spec_swap(), b.spec_swap()));
        },
        WordFunc::Dup => {
            assert(stack_effect(a, b, a.spec_dup(), b.spec_dup()));
        },
        WordFunc::Over => {
            assert(stack_effect(a, b, a.spec_over(), b.spec_over()));
        },
        WordFunc::Rot => {
            assert(stack_effect(a, b, a.spec_rot(), b.spec_rot()));
        },
        WordFunc::DsDrop => {
            assert(stack_effect(a, b, a.spec_ds_drop(), b.spec_ds_drop()));
        },
        WordFunc::Swap2 => {
            assert(stack_effect(a, b, a.spec_swap_2(), b.spec_swap_2()));
        },
        WordFunc::Dup2 => {
            assert(stack_effect(a, b, a.spec_dup_2(), b.spec_dup_2()));
        },
        WordFunc::Over2 => {
            assert(stack_effect(a, b, a.spec_over_2(), b.spec_over_2()));
        },
        WordFunc::DsDrop2 => {
            assert(stack_effect(a, b, a.spec_ds_drop_2(), b.spec_ds_drop_2()));
        },
        _ => {},
    }
}

/// The words that write are stack words.
proof fn lemma_stack_word_output<T>(a: ForthView<T>, b: ForthView<T>, f: WordFunc)
    requires
        f == WordFunc::Emit || f == WordFunc::Cr || f == WordFunc::Space || f == WordFunc::Spaces || f == WordFunc::PopPrint || f == WordFunc::UnsignedPopPrint,
        same_stacks(a, b),
    ensures
        stack_effect(a, b, a.run_plain(f), b.run_plain(f)),
{
    reveal(ForthView::<_>::run_plain);
    match f {
        WordFunc::Emit => {
            assert(stack_effect(a, b, a.spec_emit(), b.spec_emit()));
        },
        WordFunc::Cr => {
            assert(stack_effect(a, b, a.spec_cr(), b.spec_cr()));
        },
        WordFunc::Space => {
            assert(stack_effect(a, b, a.spec_space(), b.spec_space()));
        },
        WordFunc::Spaces => {
            assert(stack_effect(a, b, a.spec_spaces(), b.spec_spaces()));
        },
        WordFunc::PopPrint => {
            assert(stack_effect(a, b, a.spec_pop_print(), b.spec_pop_print()));
        },
        WordFunc::UnsignedPopPrint => {
            assert(stack_effect(a, b, a.spec_unsigned_pop_print(), b.spec_unsigned_pop_print()));
        },
        _ => {},
    }
}

/// The words of the return stack, `w+` and the constants are stack words.
proof fn lemma_stack_word_transfer<T>(a: ForthView<T>, b: ForthView<T>, f: WordFunc)
    requires
        f == WordFunc::DataToReturnStack || f == WordFunc::Data2ToReturn2Stack || f == WordFunc::ReturnToDataStack || f == WordFunc::LoopI || f == WordFunc::LoopItick || f == WordFunc::LoopJ || f == WordFunc::LoopLeave || f == WordFunc::WordAdd || f == WordFunc::ZeroConst || f == WordFunc::OneConst,
        same_stacks(a, b),
    ensures
        stack_effect(a, b, a.run_plain(f), b.run_plain(f)),
{
    reveal(ForthView::<_>::run_plain);
    match f {
        WordFunc::DataToReturnStack => {
            assert(stack_effect(a, b, a.spec_data_to_return_stack(), b.spec_data_to_return_stack()));
        },
        WordFunc::Data2ToReturn2Stack => {
            assert(stack_effect(a, b, a.spec_data2_to_return2_stack(), b.spec_data2_to_return2_stack()));
        },
        WordFunc::ReturnToDataStack => {
            assert(stack_effect(a, b, a.spec_return_to_data_stack(), b.spec_return_to_data_stack()));
        },
        WordFunc::LoopI => {
            assert(stack_effect(a, b, a.spec_loop_i(), b.spec_loop_i()));
        },
        WordFunc::LoopItick => {
            assert(stack_effect(a, b, a.spec_loop_itick(), b.spec_loop_itick()));
        },
        WordFunc::LoopJ => {
            assert(stack_effect(a, b, a.spec_loop_j(), b.spec_loop_j()));
        },
        WordFunc::LoopLeave => {
            assert(stack_effect(a, b, a.spec_loop_leave(), b.spec_loop_leave()));
        },
        WordFunc::WordAdd => {
            assert(stack_effect(a, b, a.spec_word_add(), b.spec_word_add()));
        },
        WordFunc::ZeroConst => {
            assert(stack_effect(a, b, a.spec_zero_const(), b.spec_zero_const()));
        },
        WordFunc::OneConst => {
            assert(stack_effect(a, b, a.spec_one_const(), b.spec_one_const()));
        },
        _ => {},
    }
}

/// A stack word changes the data stack, the return stack and the output, and
/// what it does to them depends on them alone.
pub proof fn lemma_stack_word<T>(a: ForthView<T>, b: ForthView<T>, f: WordFunc)
    requires
        stack_word(f),
        same_stacks(a, b),
    ensures
        stack_effect(a, b, a.run_plain(f), b.run_plain(f)),
{
    match f {
        WordFunc::Add | WordFunc::Minus | WordFunc::Div | WordFunc::Modu | WordFunc::DivMod | WordFunc::Mul | WordFunc::Abs | WordFunc::Negate | WordFunc::Min | WordFunc::Max | WordFunc::StarSlash | WordFunc::StarSlashMod => {
            lemma_stack_word_arithmetic(a, b, f);
        },
        WordFunc::Invert | WordFunc::And | WordFunc::Equal | WordFunc::Greater | WordFunc::Less | WordFunc::ZeroEqual | WordFunc::ZeroGreater | WordFunc::ZeroLess => {
            lemma_stack_word_logic(a, b, f);
        },
        WordFunc::Swap | WordFunc::Dup | WordFunc::Over | WordFunc::Rot | WordFunc::DsDrop | WordFunc::Swap2 | WordFunc::Dup2 | WordFunc::Over2 | WordFunc::DsDrop2 => {
            lemma_stack_word_shuffle(a, b, f);
        },
        WordFunc::Emit | WordFunc::Cr | WordFunc::Space | WordFunc::Spaces | WordFunc::PopPrint | WordFunc::UnsignedPopPrint => {
            lemma_stack_word_output(a, b, f);
        },
        WordFunc::DataToReturnStack | WordFunc::Data2ToReturn2Stack | WordFunc::ReturnToDataStack | WordFunc::LoopI | WordFunc::LoopItick | WordFunc::LoopJ | WordFunc::LoopLeave | WordFunc::WordAdd | WordFunc::ZeroConst | WordFunc::OneConst => {
            lemma_stack_word_transfer(a, b, f);
        },
        _ => {},
    }
}

/// The machine stands in the body of a compiled word, before a cell that
/// holds the address `eh`: the word on top of the call stack, above `base`
/// frames, is a compiled one, its next cell lies in the arena and holds `eh`,
/// and the call stack has room for one frame more.
pub open spec fn before_cell<T>(s: ForthView<T>, base: nat, eh: u32) -> bool {
    let top = s.calls.last();
    &&& base < s.calls.len() < s.calls_cap
    &&& s.resolve(top.eh) matches Ok(Target::Word { func, len }) && func == WordFunc::Interpret
    &&& top.idx < top.len
    &&& s.arena.holds(body_addr(top, top.idx as int), 4)
    &&& s.arena.read_word(body_addr(top, top.idx as int)) == (Word { data: eh as i32 })
    &&& eh <= i32::MAX
}

/// The call stack of `s` with the word on top moved on by `n` cells.
pub open spec fn moved_on<T>(s: ForthView<T>, n: int) -> Seq<CallContext> {
    s.calls.update(
        s.calls.len() - 1,
        CallContext { idx: (s.calls.last().idx + n) as u16, ..s.calls.last() },
    )
}

/// Machines with the same arena and the same tables resolve alike.
pub proof fn lemma_resolve_same<T>(a: ForthView<T>, b: ForthView<T>, p: u32)
    requires
        a.arena == b.arena,
        a.builtins == b.builtins,
        a.async_builtins == b.async_builtins,
    ensures
        a.resolve(p) == b.resolve(p),
{
    reveal(ForthView::<_>::resolve);
}

/// The address of a builtin names the builtin.
pub proof fn lemma_resolve_builtin<T>(s: ForthView<T>, bi: u32)
    requires
        bi < s.builtins.len(),
        bi < 0x1000_0000,
    ensures
        s.resolve((BUILTIN_BASE + bi) as u32) == Ok::<Target, Error>(
            Target::Word { func: s.builtins[bi as int].func, len: s.builtins[bi as int].hdr.len },
        ),
{
    reveal(ForthView::<_>::resolve);
}

/// The step of a word that is no compiled word: its routine runs, and on
/// success the word is done.
pub proof fn lemma_step_plain<T>(s: ForthView<T>, base: nat, f: WordFunc, len: u16)
    requires
        s.calls.len() > 0,
        s.resolve(s.calls.last().eh) == Ok::<Target, Error>(Target::Word { func: f, len }),
        f != WordFunc::Interpret,
    ensures
        s.step(base) == if s.run_plain(f).1.is_err() {
            s.run_plain(f)
        } else {
            s.run_plain(f).0.finish(base)
        },
{
    reveal(ForthView::<_>::step);
}

/// The step of a compiled word before a cell that names a word: the frame
/// of that word is put on the call stack.
pub proof fn lemma_step_fetch<T>(s: ForthView<T>, base: nat, eh: u32, t: Target)
    requires
        before_cell(s, base, eh),
        s.resolve(eh) == Ok::<Target, Error>(t),
    ensures
        s.step(base) == s.call(ForthView::<T>::frame_for(eh, t)),
        s.step(base).1.is_ok(),
        s.step(base).0 == (ForthView {
            calls: s.calls.push(ForthView::<T>::frame_for(eh, t)),
            ..s
        }),
{
    reveal(ForthView::<_>::step);
}

/// `run`, written out one level.
pub proof fn lemma_run<T>(s: ForthView<T>, base: nat)
    ensures
        s.run(base) == if s.calls.len() <= base {
            (s, Ok::<(), Error>(()))
        } else if s.steps_left == 0 {
            (s.unwound(base), Err::<(), Error>(Error::StepLimitReached))
        } else if s.spent().step(base).1.is_err() {
            (s.spent().step(base).0.unwound(base), s.spent().step(base).1)
        } else if s.spent().step(base).0.steps_left < s.steps_left {
            s.spent().step(base).0.run(base)
        } else {
            (s.spent().step(base).0.unwound(base), Err::<(), Error>(Error::InternalError))
        },
{
    reveal(ForthView::<_>::run);
}

/// A stack word that is called from the line does to the stacks and to the
/// output what its routine does, takes one step, and leaves the call stack
/// as it was.
pub proof fn lemma_called_from_line<T>(s: ForthView<T>, eh: u32, f: WordFunc, len: u16)
    requires
        s.resolve(eh) == Ok::<Target, Error>(Target::Word { func: f, len }),
        stack_word(f),
        s.calls.len() < s.calls_cap,
        s.steps_left > 0,
    ensures
        same_result(s.call_word(eh).1, s.run_plain(f).1),
        same_stacks(s.call_word(eh).0, s.run_plain(f).0),
        s.call_word(eh).0.calls == s.calls,
        s.call_word(eh).0.steps_left == s.steps_left - 1,
        s.call_word(eh).0.arena == s.arena,
        s.call_word(eh).0 == (ForthView {
            data: s.call_word(eh).0.data,
            ret: s.call_word(eh).0.ret,
            output: s.call_word(eh).0.output,
            steps_left: (s.steps_left - 1) as u64,
            ..s
        }),
{
    let base = s.calls.len();
    let frame = ForthView::<T>::frame_for(eh, Target::Word { func: f, len });
    let s1 = ForthView { calls: s.calls.push(frame), ..s };
    assert(s.call(frame).0 == s1 && s.call(frame).1.is_ok());
    assert(s.call_word(eh) == s1.run(base));
    let s2 = s1.spent();
    lemma_resolve_same(s2, s, eh);
    lemma_stack_word(s2, s, f);
    lemma_step_plain(s2, base, f, len);
    lemma_run(s1, base);
    let ran = s2.run_plain(f);
    assert(ran.0.calls == s2.calls);
    assert(s2.calls.drop_last() =~= s.calls);
    assert(s2.calls.take(base as int) =~= s.calls);
    assert(same_result(ran.1, s.run_plain(f).1));
    if ran.1.is_ok() {
        let done = ran.0.finish(base);
        assert(ran.0.calls.drop_last() =~= s.calls);
        assert(done.0 == (ForthView { calls: s.calls, ..ran.0 }) && done.1.is_ok());
        assert(s2.step(base) == done);
        assert(done.0.steps_left == s.steps_left - 1);
        lemma_run(done.0, base);
        assert(s1.run(base) == done);
    } else {
        assert(s2.step(base) == ran);
        assert(s1.run(base) == (ran.0.unwound(base), ran.1));
        assert(ran.0.unwound(base).calls =~= s.calls);
    }
}

/// The machine after the first of the two steps that a cell takes, with `k`
/// steps left for the second.
pub open spec fn fetched<T>(s: ForthView<T>, base: nat, k: u64) -> ForthView<T> {
    ForthView { steps_left: k, ..s.step(base).0 }
}

/// A stack word that is called from the body of a compiled word takes two
/// steps: the first puts its frame on the call stack, the second does to the
/// stacks and to the output what its routine does and, on success, moves the
/// compiled word on by one cell.
pub proof fn lemma_called_from_body<T>(
    s: ForthView<T>,
    base: nat,
    eh: u32,
    f: WordFunc,
    len: u16,
    k: u64,
)
    requires
        before_cell(s, base, eh),
        s.resolve(eh) == Ok::<Target, Error>(Target::Word { func: f, len }),
        stack_word(f),
    ensures
        s.step(base).1.is_ok(),
        s.step(base).0 == (ForthView {
            calls: s.calls.push(
                ForthView::<T>::frame_for(eh, Target::Word { func: f, len }),
            ),
            ..s
        }),
        same_result(fetched(s, base, k).step(base).1, s.run_plain(f).1),
        same_stacks(fetched(s, base, k).step(base).0, s.run_plain(f).0),
        fetched(s, base, k).step(base).1.is_ok() ==> fetched(s, base, k).step(base).0 == (ForthView {
            data: fetched(s, base, k).step(base).0.data,
            ret: fetched(s, base, k).step(base).0.ret,
            output: fetched(s, base, k).step(base).0.output,
            calls: moved_on(s, 1),
            steps_left: k,
            ..s
        }),
        fetched(s, base, k).step(base).1.is_err() ==> fetched(s, base, k).step(base).0.unwound(
            base,
        ) == (ForthView {
            data: fetched(s, base, k).step(base).0.data,
            ret: fetched(s, base, k).step(base).0.ret,
            output: fetched(s, base, k).step(base).0.output,
            calls: s.calls.take(base as int),
            steps_left: k,
            ..s
        }),
{
    let t = Target::Word { func: f, len };
    let frame = ForthView::<T>::frame_for(eh, t);
    lemma_step_fetch(s, base, eh, t);
    let s1 = ForthView { calls: s.calls.push(frame), steps_left: k, ..s };
    assert(s1 == fetched(s, base, k));
    lemma_resolve_same(s1, s, eh);
    lemma_stack_word(s1, s, f);
    lemma_step_plain(s1, base, f, len);
    let ran = s1.run_plain(f);
    assert(ran.0.calls == s1.calls);
    assert(s1.calls.drop_last() =~= s.calls);
    assert(same_result(ran.1, s.run_plain(f).1));
    if ran.1.is_ok() {
        let done = ran.0.finish(base);
        let top = s.calls.last();
        assert(ran.0.calls.drop_last() =~= s.calls);
        assert(top.spec_offset(1) == Some((top.idx + 1) as u16));
        assert(done.1.is_ok());
        assert(done.0.calls =~= moved_on(s, 1));
        assert(s1.step(base) == done);
    } else {
        assert(s1.step(base) == ran);
        assert(ran.0.unwound(base).calls =~= s.calls.take(base as int));
    }
}

/// A stack word does the same to the data stack, to the return stack and to
/// the output, and succeeds or fails alike, whether it is called from the
/// line or from a cell in the body of a compiled word, where it takes two
/// steps.
pub proof fn lemma_word_duality<T>(
    line: ForthView<T>,
    body: ForthView<T>,
    base: nat,
    eh: u32,
    f: WordFunc,
    len: u16,
    k: u64,
)
    requires
        same_stacks(line, body),
        line.resolve(eh) == Ok::<Target, Error>(Target::Word { func: f, len }),
        body.resolve(eh) == Ok::<Target, Error>(Target::Word { func: f, len }),
        stack_word(f),
        line.calls.len() < line.calls_cap,
        line.steps_left > 0,
        before_cell(body, base, eh),
    ensures
        body.step(base).1.is_ok(),
        same_result(line.call_word(eh).1, fetched(body, base, k).step(base).1),
        same_stacks(line.call_word(eh).0, fetched(body, base, k).step(base).0),
        fetched(body, base, k).step(base).1.is_ok() ==> fetched(body, base, k).step(base).0.calls
            == moved_on(body, 1),
{
    lemma_called_from_line(line, eh, f, len);
    lemma_called_from_body(body, base, eh, f, len, k);
    lemma_stack_word(line, body, f);
}

/// A number does the same to the data stack, and succeeds or fails alike,
/// whether it stands in the line or was compiled into the body of a word: the
/// two cells that were compiled for it, `(literal)` and the number, put the
/// number on the data stack in two steps and move the compiled word on by
/// two cells.
pub proof fn lemma_literal_duality<T>(
    line: ForthView<T>,
    body: ForthView<T>,
    base: nat,
    lit: u32,
    val: i32,
    k: u64,
)
    requires
        same_stacks(line, body),
        before_cell(body, base, lit),
        body.resolve(lit) matches Ok(Target::Word { func, len }) && func == WordFunc::Literal,
        body.calls.last().idx + 1 < body.calls.last().len,
        body.arena.holds(body_addr(body.calls.last(), body.calls.last().idx + 1), 4),
        body.arena.read_word(body_addr(body.calls.last(), body.calls.last().idx + 1)) == (Word {
            data: val,
        }),
    ensures
        body.step(base).1.is_ok(),
        body.step(base).0 == (ForthView {
            calls: body.calls.push(
                ForthView::<T>::frame_for(lit, body.resolve(lit).unwrap()),
            ),
            ..body
        }),
        same_result(
            line.give(seq![Word { data: val }]).1,
            fetched(body, base, k).step(base).1,
        ),
        same_stacks(
            line.give(seq![Word { data: val }]).0,
            fetched(body, base, k).step(base).0,
        ),
        fetched(body, base, k).step(base).1.is_ok() ==> fetched(body, base, k).step(base).0 == (ForthView {
            data: fetched(body, base, k).step(base).0.data,
            calls: moved_on(body, 2),
            steps_left: k,
            ..body
        }),
        fetched(body, base, k).step(base).1.is_err() ==> ({
            let failed = fetched(body, base, k).step(base).0.unwound(base);
            &&& failed.calls == body.calls.take(base as int)
            &&& failed.arena == body.arena
            &&& failed.builtins == body.builtins
        }),
{
    let top = body.calls.last();
    let t = body.resolve(lit).unwrap();
    let frame = ForthView::<T>::frame_for(lit, t);
    lemma_step_fetch(body, base, lit, t);
    let s1 = ForthView { calls: body.calls.push(frame), steps_left: k, ..body };
    assert(s1 == fetched(body, base, k));
    lemma_resolve_same(s1, body, lit);
    lemma_step_plain(s1, base, WordFunc::Literal, t->len);
    reveal(ForthView::<_>::run_plain);
    assert(s1.parent() == top);
    assert(s1.next_word(top) == Ok::<Word, Error>(Word { data: val }));
    let moved = s1.move_parent(1);
    assert(moved.1.is_ok());
    let given = moved.0.give(seq![Word { data: val }]);
    assert(s1.run_plain(WordFunc::Literal) == given);
    assert(given.0.calls == moved.0.calls);
    if given.1.is_ok() {
        let done = given.0.finish(base);
        assert(given.0.calls.drop_last() =~= moved_on(body, 1));
        assert(done.1.is_ok());
        assert(done.0.calls =~= moved_on(body, 2));
    } else {
        assert(given.0.unwound(base).calls =~= body.calls.take(base as int));
    }
}

/// A string literal does the same to the output, and succeeds or fails
/// alike, whether it stands in the line or was compiled into the body of a
/// word: the cells that were compiled for it, `(write-str)`, the length and
/// the bytes, write the bytes in two steps and move the compiled word on
/// behind them.
pub proof fn lemma_str_from_body<T>(
    line: ForthView<T>,
    body: ForthView<T>,
    base: nat,
    ws: u32,
    text: Seq<u8>,
    k: u64,
)
    requires
        same_stacks(line, body),
        before_cell(body, base, ws),
        body.resolve(ws) matches Ok(Target::Word { func, len }) && func == WordFunc::WriteStrLit,
        text.len() <= u16::MAX,
        body.calls.last().idx + 2 + (text.len() + 3) / 4 <= body.calls.last().len,
        body.arena.holds(body_addr(body.calls.last(), body.calls.last().idx + 1), 4),
        body.arena.read_word(body_addr(body.calls.last(), body.calls.last().idx + 1)) == (Word {
            data: text.len() as i32,
        }),
        body.arena.holds(body_addr(body.calls.last(), body.calls.last().idx + 2), text.len() as int),
        body.arena.bytes(body_addr(body.calls.last(), body.calls.last().idx + 2), text.len() as int)
            == text,
    ensures
        body.step(base).1.is_ok(),
        body.step(base).0 == (ForthView {
            calls: body.calls.push(ForthView::<T>::frame_for(ws, body.resolve(ws).unwrap())),
            ..body
        }),
        same_result(line.put(text).1, fetched(body, base, k).step(base).1),
        same_stacks(line.put(text).0, fetched(body, base, k).step(base).0),
        fetched(body, base, k).step(base).1.is_ok() ==> fetched(body, base, k).step(base).0 == (ForthView {
            output: fetched(body, base, k).step(base).0.output,
            calls: moved_on(body, (2 + (text.len() + 3) / 4) as int),
            steps_left: k,
            ..body
        }),
        fetched(body, base, k).step(base).1.is_err() ==> fetched(body, base, k).step(base).0.unwound(
            base,
        ) == (ForthView {
            output: fetched(body, base, k).step(base).0.output,
            calls: body.calls.take(base as int),
            steps_left: k,
            ..body
        }),
{
    let top = body.calls.last();
    let t = body.resolve(ws).unwrap();
    let frame = ForthView::<T>::frame_for(ws, t);
    let n = ((text.len() + 3) / 4) as int;
    lemma_step_fetch(body, base, ws, t);
    let s1 = ForthView { calls: body.calls.push(frame), steps_left: k, ..body };
    assert(s1 == fetched(body, base, k));
    lemma_resolve_same(s1, body, ws);
    lemma_step_plain(s1, base, WordFunc::WriteStrLit, t->len);
    reveal(ForthView::<_>::run_plain);
    assert(s1.parent() == top);
    assert(s1.next_word(top) == Ok::<Word, Error>(Word { data: text.len() as i32 }));
    assert(ForthView::<T>::str_cells(text.len() as int) == 1 + n);
    let wrote = s1.put(text);
    if wrote.1.is_ok() {
        let moved = wrote.0.move_parent((1 + n) as i32);
        assert(wrote.0.parent() == top);
        assert(top.spec_offset((1 + n) as i32) == Some((top.idx + 1 + n) as u16));
        assert(moved.1.is_ok());
        assert(s1.run_plain(WordFunc::WriteStrLit) == moved);
        let done = moved.0.finish(base);
        assert(moved.0.calls.drop_last() =~= moved_on(body, 1 + n));
        assert(done.1.is_ok());
        assert(done.0.calls =~= moved_on(body, 2 + n));
    } else {
        assert(s1.run_plain(WordFunc::WriteStrLit) == wrote);
        assert(wrote.0.unwound(base).calls =~= body.calls.take(base as int));
    }
}

/// The next token of the line is the builtin at index `bi` of the table.
pub open spec fn next_is_builtin<T>(s: ForthView<T>, bi: u32) -> bool {
    &&& s.input.wf()
    &&& s.advanced().input.word().is_some()
    &&& s.advanced().lookup(s.advanced().input.word().unwrap()) == Ok::<Lookup, Error>(
        Lookup::Builtin { bi },
    )
}

/// The next token of the line is the number `val`.
pub open spec fn next_is_number<T>(s: ForthView<T>, val: i32) -> bool {
    &&& s.input.wf()
    &&& s.advanced().input.word().is_some()
    &&& s.advanced().lookup(s.advanced().input.word().unwrap()) == Ok::<Lookup, Error>(
        Lookup::Literal { val },
    )
}

/// Compiling a token that names a builtin appends one cell, which holds the
/// address of the builtin; nothing else changes but that the token is read.
pub proof fn lemma_compiled_word<T>(s: ForthView<T>, len: u16, bi: u32)
    requires
        next_is_builtin(s, bi),
        bi < 0x1000_0000,
        s.arena.wf(),
        s.arena.bump_fits(4, 4),
        len < u16::MAX,
    ensures
        s.munch_one(len) == (
            ForthView {
                arena: s.arena.word_written(ptr_word((BUILTIN_BASE + bi) as u32)),
                ..s.advanced()
            },
            (len + 1) as u16,
            Ok::<u16, Error>(1),
        ),
        s.munch_one(len).0.arena.read_word(s.arena.bump_addr(4) as int) == ptr_word(
            (BUILTIN_BASE + bi) as u32,
        ),
{
    s.lemma_munch_one(len);
    s.input.lemma_advanced();
    crate::dictionary::lemma_word_written(s.arena, ptr_word((BUILTIN_BASE + bi) as u32));
}

/// Compiling a token that names a compiled word appends one cell, which
/// holds the address of the word.
pub proof fn lemma_compiled_call<T>(s: ForthView<T>, len: u16, de: u32)
    requires
        next_is_dict(s, de),
        s.arena.wf(),
        s.arena.bump_fits(4, 4),
        len < u16::MAX,
    ensures
        s.munch_one(len) == (
            ForthView { arena: s.arena.word_written(ptr_word(de)), ..s.advanced() },
            (len + 1) as u16,
            Ok::<u16, Error>(1),
        ),
        s.munch_one(len).0.arena.read_word(s.arena.bump_addr(4) as int) == ptr_word(de),
{
    s.lemma_munch_one(len);
    s.input.lemma_advanced();
    crate::dictionary::lemma_word_written(s.arena, ptr_word(de));
}

/// Compiling a token that is a number appends two cells: the address of
/// `(literal)`, then the number.
pub proof fn lemma_compiled_number<T>(s: ForthView<T>, len: u16, val: i32, lit: u32)
    requires
        next_is_number(s, val),
        s.advanced().find_word("(literal)".spec_bytes()) == Some(lit),
        s.arena.wf(),
        s.arena.bump_fits(4, 4),
        s.arena.word_written(ptr_word(lit)).bump_fits(4, 4),
        len + 2 <= u16::MAX,
    ensures
        s.munch_one(len) == (
            ForthView {
                arena: s.arena.word_written(ptr_word(lit)).word_written(Word { data: val }),
                ..s.advanced()
            },
            (len + 2) as u16,
            Ok::<u16, Error>(2),
        ),
        s.munch_one(len).0.arena.read_word(s.arena.bump_addr(4) as int) == ptr_word(lit),
        s.munch_one(len).0.arena.read_word(s.arena.bump_addr(4) + 4int) == (Word { data: val }),
{
    s.lemma_munch_one(len);
    s.input.lemma_advanced();
    let a1 = s.arena.word_written(ptr_word(lit));
    crate::dictionary::lemma_word_written(s.arena, ptr_word(lit));
    crate::dictionary::lemma_word_written(a1, Word { data: val });
    crate::dictionary::lemma_word_written_keeps(
        a1,
        Word { data: val },
        s.arena.bump_addr(4) as int,
        4,
    );
}

/// The next token of the line is the name of the compiled word at `de`.
pub open spec fn next_is_dict<T>(s: ForthView<T>, de: u32) -> bool {
    &&& s.input.wf()
    &&& s.advanced().input.word().is_some()
    &&& s.advanced().lookup(s.advanced().input.word().unwrap()) == Ok::<Lookup, Error>(
        Lookup::Dict { de },
    )
}

/// The next token of the line is `."`, behind it stands the string literal
/// `text` with its closing quote, and `(write-str)` is the word at `ws`.
pub open spec fn next_is_str<T>(s: ForthView<T>, text: Seq<u8>, ws: u32) -> bool {
    let a = s.advanced();
    &&& s.input.wf()
    &&& a.input.word().is_some()
    &&& a.lookup(a.input.word().unwrap()) == Ok::<Lookup, Error>(Lookup::LQuote)
    &&& a.input.literal_closed()
    &&& a.input.advanced_str().literal() == Some(text)
    &&& a.find_word("(write-str)".spec_bytes()) == Some(ws)
}

/// The next token of the line is `(`, and a token that ends in `)` closes the
/// comment that it opens.
pub open spec fn next_is_comment<T>(s: ForthView<T>) -> bool {
    &&& s.input.wf()
    &&& s.advanced().input.word().is_some()
    &&& s.advanced().lookup(s.advanced().input.word().unwrap()) == Ok::<Lookup, Error>(
        Lookup::LParen,
    )
    &&& s.advanced().munch_comment().input.word().is_some()
}

/// Passing over a comment changes nothing but the place in the line, and
/// ends at a token that ends in `)` or at the end of the line.
pub proof fn lemma_comment<T>(s: ForthView<T>)
    requires
        s.input.wf(),
    ensures
        s.munch_comment() == (ForthView { input: s.munch_comment().input, ..s }),
        s.munch_comment().input.wf(),
        s.munch_comment().input.buf.len() == s.input.buf.len(),
        s.munch_comment().input.pos >= s.input.pos,
        s.munch_comment().input.word() matches Some(w) ==> w.last() == 41u8,
    decreases s.input.remaining(),
{
    reveal(ForthView::<_>::munch_comment);
    s.input.lemma_advanced();
    let a = s.advanced();
    if a.input.word().is_some() && a.input.word().unwrap().last() != 41u8 {
        lemma_comment(a);
    }
}

/// Where a comment ends depends on the line alone.
pub proof fn lemma_comment_same<T>(a: ForthView<T>, b: ForthView<T>)
    requires
        a.input == b.input,
        a.input.wf(),
    ensures
        a.munch_comment().input == b.munch_comment().input,
    decreases a.input.remaining(),
{
    reveal(ForthView::<_>::munch_comment);
    a.input.lemma_advanced();
    if a.advanced().input.word().is_some() && a.advanced().input.word().unwrap().last() != 41u8 {
        lemma_comment_same(a.advanced(), b.advanced());
    }
}

/// A token that ends in `)` is not `;`.
pub proof fn lemma_not_semicolon(w: Seq<u8>)
    requires
        w.last() == 41u8,
    ensures
        w != ";".spec_bytes(),
{
    reveal_strlit(";");
    let s = ";";
    assert(vstd::utf8::is_ascii_chars(s@));
    vstd::string::is_ascii_spec_bytes(s);
    assert(s.spec_bytes().len() == 1);
    assert(s.spec_bytes().last() == 59u8);
}

/// Executing a token that names a word from the line is calling the word;
/// executing a token that is a number is putting the number on the data
/// stack; executing `(` is passing over the comment; executing `."` is
/// writing the string literal.
pub proof fn lemma_direct_token<T>(s: ForthView<T>, bi: u32, val: i32)
    ensures
        forall|text: Seq<u8>, ws: u32| #[trigger]
            next_is_str(s, text, ws) ==> s.word_run() == ForthView::<T>::went_on(
                passed(s, Plain::Str { text, ws }).put(text),
            ),
        next_is_dict(s, bi) ==> s.word_run() == ForthView::<T>::went_on(s.advanced().call_word(bi)),
        next_is_comment(s) ==> s.word_run() == (
            s.advanced().munch_comment(),
            Ok::<bool, Error>(false),
        ),
        next_is_builtin(s, bi) ==> s.word_run() == ForthView::<T>::went_on(
            s.advanced().call_word((BUILTIN_BASE + bi) as u32),
        ),
        next_is_number(s, val) ==> s.word_run() == ForthView::<T>::went_on(
            s.advanced().give(seq![Word { data: val }]),
        ),
{
}

/// A token of a plain line: the name of a stack builtin, a number, a
/// comment with all its tokens, the name of a word that was compiled from
/// plain tokens, which are its body, or `."` with its string literal, where
/// `(write-str)` is the word at `ws`.
pub enum Plain {
    Word { bi: u32 },
    Number { val: i32 },
    Comment,
    Call { de: u32, body: Seq<Plain> },
    Str { text: Seq<u8>, ws: u32 },
}

/// The machine behind the token `p`: the line is read up to the end of the
/// token, and nothing else has happened yet.
pub open spec fn passed<T>(s: ForthView<T>, p: Plain) -> ForthView<T> {
    match p {
        Plain::Comment => s.advanced().munch_comment(),
        Plain::Str { text, ws } => ForthView {
            input: s.advanced().input.advanced_str(),
            ..s.advanced()
        },
        _ => s.advanced(),
    }
}

/// What plain tokens do one after the other, up to the first that fails: a
/// builtin does what its routine does, a number is put on the data stack, a
/// comment does nothing, and a compiled word does what the tokens of its
/// body do.
pub open spec fn plain_fold<T>(s: ForthView<T>, ps: Seq<Plain>) -> (
    ForthView<T>,
    Result<(), Error>,
)
    decreases ps,
{
    if ps.len() == 0 {
        (s, Ok(()))
    } else {
        let first = match ps[0] {
            Plain::Word { bi } => s.run_plain(s.builtins[bi as int].func),
            Plain::Number { val } => s.give(seq![Word { data: val }]),
            Plain::Comment => (s, Ok(())),
            Plain::Call { de, body } => plain_fold(s, body),
            Plain::Str { text, ws } => s.put(text),
        };
        if first.1.is_err() {
            first
        } else {
            plain_fold(first.0, ps.drop_first())
        }
    }
}

/// What a plain token does to a machine, taken by itself.
pub open spec fn plain_effect<T>(s: ForthView<T>, p: Plain) -> (ForthView<T>, Result<(), Error>) {
    match p {
        Plain::Word { bi } => s.run_plain(s.builtins[bi as int].func),
        Plain::Number { val } => s.give(seq![Word { data: val }]),
        Plain::Comment => (s, Ok(())),
        Plain::Call { de, body } => plain_fold(s, body),
        Plain::Str { text, ws } => s.put(text),
    }
}

/// The token `p` is plain where `table` is the table of builtins: a builtin
/// is a stack builtin of the table, and the body of a compiled word is made
/// of plain tokens.
pub open spec fn token_ok<T>(table: Seq<BuiltinEntry<T>>, p: Plain) -> bool
    decreases p,
{
    match p {
        Plain::Word { bi } => bi < table.len() && bi < 0x1000_0000 && stack_word(
            table[bi as int].func,
        ),
        Plain::Number { val } => true,
        Plain::Comment => true,
        Plain::Call { de, body } => 0 < de <= i32::MAX && tokens_ok(table, body),
        Plain::Str { text, ws } => {
            &&& text.len() <= u16::MAX
            &&& BUILTIN_BASE <= ws
            &&& ws - BUILTIN_BASE < table.len()
            &&& ws - BUILTIN_BASE < 0x1000_0000
            &&& table[ws - BUILTIN_BASE].func == WordFunc::WriteStrLit
        },
    }
}

/// The tokens `ps` are plain.
pub open spec fn tokens_ok<T>(table: Seq<BuiltinEntry<T>>, ps: Seq<Plain>) -> bool
    decreases ps,
{
    ps.len() == 0 || (token_ok(table, ps[0]) && tokens_ok(table, ps.drop_first()))
}

/// The token `p` can stand in a plain line of the machine `s`.
pub open spec fn plain_ok<T>(s: ForthView<T>, p: Plain) -> bool {
    token_ok(s.builtins, p)
}

/// Tokens are plain where each of them is.
pub proof fn lemma_tokens_ok<T>(table: Seq<BuiltinEntry<T>>, ps: Seq<Plain>)
    ensures
        tokens_ok(table, ps) == (forall|i: int| 0 <= i < ps.len() ==> token_ok(table, #[trigger] ps[i])),
    decreases ps.len(),
{
    if ps.len() > 0 {
        let rest = ps.drop_first();
        lemma_tokens_ok(table, rest);
        if tokens_ok(table, ps) {
            assert forall|i: int| 0 <= i < ps.len() implies token_ok(table, #[trigger] ps[i]) by {
                if i > 0 {
                    assert(token_ok(table, rest[i - 1]));
                }
            }
        }
        if forall|i: int| 0 <= i < ps.len() ==> token_ok(table, #[trigger] ps[i]) {
            assert(token_ok(table, ps[0]));
            assert forall|i: int| 0 <= i < rest.len() implies token_ok(table, #[trigger] rest[i]) by {
                assert(token_ok(table, ps[i + 1]));
            }
        }
    }
}

/// The arena holds the compiled words that the tokens `ps` name, each at the
/// address that its token gives, below the cursor, with the cells of its
/// body; and so for the words that the bodies name.
pub open spec fn all_called(a: ArenaView, ps: Seq<Plain>, lit: u32) -> bool
    decreases ps,
{
    ps.len() == 0 || ((match ps[0] {
        Plain::Call { de, body } => word_at(a, de, code(body, lit)) && all_called(a, body, lit),
        _ => true,
    }) && all_called(a, ps.drop_first(), lit))
}

/// The arena holds a compiled word at `de`, below the cursor, whose body is
/// the cells `cells`.
pub open spec fn word_at(a: ArenaView, de: u32, cells: Seq<Cell>) -> bool {
    &&& 0 < de < BUILTIN_BASE
    &&& a.entry_ok(de as int)
    &&& WordFunc::spec_from_code(a.raw_entry(de as int).func) == Some(WordFunc::Interpret)
    &&& a.raw_entry(de as int).len == cells.len()
    &&& de + crate::dictionary::ENTRY_SIZE <= a.cur
    &&& cells_at(a, de, 0, cells)
}

/// Where the token `p` names a compiled word, the arena holds that word and
/// the words that its body names.
pub open spec fn called(a: ArenaView, p: Plain, lit: u32) -> bool {
    match p {
        Plain::Call { de, body } => word_at(a, de, code(body, lit)) && all_called(a, body, lit),
        _ => true,
    }
}

/// The address of a compiled word that a plain token names, names the word.
pub proof fn lemma_called_word<T>(s: ForthView<T>, de: u32, body: Seq<Plain>, lit: u32)
    requires
        called(s.arena, Plain::Call { de, body }, lit),
    ensures
        s.resolve(de) == Ok::<Target, Error>(
            Target::Word { func: WordFunc::Interpret, len: code(body, lit).len() as u16 },
        ),
        code(body, lit).len() <= u16::MAX,
{
    reveal(ForthView::<_>::resolve);
}

/// The steps that the cells of the tokens `ps` take: two for a builtin and
/// for a number, and for a compiled word two more than its body takes.
pub open spec fn cost(ps: Seq<Plain>) -> nat
    decreases ps,
{
    if ps.len() == 0 {
        0
    } else {
        (match ps[0] {
            Plain::Word { bi } => 2nat,
            Plain::Number { val } => 2nat,
            Plain::Comment => 0nat,
            Plain::Call { de, body } => cost(body) + 2,
            Plain::Str { text, ws } => 2nat,
        }) + cost(ps.drop_first())
    }
}

/// The frames that the tokens `ps` take on the call stack: one for a
/// builtin and for a number, and for a compiled word one more than its body
/// takes.
pub open spec fn height(ps: Seq<Plain>) -> nat
    decreases ps,
{
    if ps.len() == 0 {
        0
    } else {
        let first = match ps[0] {
            Plain::Word { bi } => 1nat,
            Plain::Number { val } => 1nat,
            Plain::Comment => 0nat,
            Plain::Call { de, body } => height(body) + 1,
            Plain::Str { text, ws } => 1nat,
        };
        if first >= height(ps.drop_first()) {
            first
        } else {
            height(ps.drop_first())
        }
    }
}

/// The next token of the line is `p`.
#[verifier::opaque]
pub open spec fn next_is<T>(s: ForthView<T>, p: Plain) -> bool {
    match p {
        Plain::Word { bi } => next_is_builtin(s, bi),
        Plain::Number { val } => next_is_number(s, val),
        Plain::Comment => next_is_comment(s),
        Plain::Call { de, body } => next_is_dict(s, de),
        Plain::Str { text, ws } => next_is_str(s, text, ws),
    }
}

/// What is left of the line is the tokens `ps`, each of them plain, and
/// nothing behind them.
pub open spec fn line_is<T>(s: ForthView<T>, ps: Seq<Plain>) -> bool
    decreases ps.len(),
{
    if ps.len() == 0 {
        s.input.wf() && s.advanced().input.word().is_none()
    } else {
        next_is(s, ps[0]) && plain_ok(s, ps[0]) && line_is(passed(s, ps[0]), ps.drop_first())
    }
}

/// What is known of a cell in the body of a compiled word: the cell itself,
/// nothing, or the bytes that begin there.
pub enum Cell {
    Is { w: Word },
    Any,
    Text { bytes: Seq<u8> },
}

/// The arena holds at `addr`, below its cursor, what the cell `c` is known
/// to be.
pub open spec fn cell_ok(a: ArenaView, addr: int, c: Cell) -> bool {
    match c {
        Cell::Is { w } => a.holds(addr, 4) && addr + 4 <= a.cur && a.read_word(addr) == w,
        Cell::Any => true,
        Cell::Text { bytes } => a.holds(addr, bytes.len() as int) && addr + bytes.len() <= a.cur
            && a.bytes(addr, bytes.len() as int) == bytes,
    }
}

/// The cells that are compiled for the token `p`, where `lit` is the address
/// of `(literal)`.
pub open spec fn first_cells(p: Plain, lit: u32) -> Seq<Cell> {
    match p {
        Plain::Word { bi } => seq![Cell::Is { w: ptr_word((BUILTIN_BASE + bi) as u32) }],
        Plain::Number { val } => seq![
            Cell::Is { w: ptr_word(lit) },
            Cell::Is { w: Word { data: val } },
        ],
        Plain::Comment => Seq::empty(),
        Plain::Call { de, body } => seq![Cell::Is { w: ptr_word(de) }],
        Plain::Str { text, ws } => seq![
            Cell::Is { w: ptr_word(ws) },
            Cell::Is { w: Word { data: text.len() as i32 } },
        ] + text_cells(text),
    }
}

/// The cells in which the bytes `text` stand: none for no bytes, else as
/// many as hold them, of which the first says where the bytes begin.
#[verifier::opaque]
pub open spec fn text_cells(text: Seq<u8>) -> Seq<Cell> {
    if text.len() == 0 {
        Seq::empty()
    } else {
        seq![Cell::Text { bytes: text }] + Seq::new(
            ((text.len() + 3) / 4 - 1) as nat,
            |i: int| Cell::Any,
        )
    }
}

/// The cells that are compiled for the tokens `ps`.
pub open spec fn code(ps: Seq<Plain>, lit: u32) -> Seq<Cell>
    decreases ps.len(),
{
    if ps.len() == 0 {
        Seq::empty()
    } else {
        first_cells(ps[0], lit) + code(ps.drop_first(), lit)
    }
}

/// The machine stands in the body of a compiled word, above `base` frames
/// or more, before the cells `cells`, which are the rest of the body; a
/// word that called this one can step to its next cell.
pub open spec fn body_holds<T>(s: ForthView<T>, base: nat, cells: Seq<Cell>, lit: u32) -> bool {
    let top = s.calls.last();
    &&& base < s.calls.len() <= s.calls_cap
    &&& s.calls.len() > base + 1 ==> s.calls[s.calls.len() - 2].idx < u16::MAX
    &&& s.resolve(top.eh) matches Ok(Target::Word { func, len }) && func == WordFunc::Interpret
    &&& top.idx + cells.len() == top.len
    &&& lit <= i32::MAX
    &&& s.resolve(lit) matches Ok(Target::Word { func, len }) && func == WordFunc::Literal
    &&& cells_at(s.arena, top.eh, top.idx as int, cells)
}

/// Whether a line is plain depends on the line, the dictionary and the
/// tables alone.
pub proof fn lemma_line_is_same<T>(a: ForthView<T>, b: ForthView<T>, ps: Seq<Plain>)
    requires
        a.input == b.input,
        a.arena == b.arena,
        a.tail == b.tail,
        a.builtins == b.builtins,
        a.async_builtins == b.async_builtins,
    ensures
        line_is(a, ps) == line_is(b, ps),
    decreases ps.len(),
{
    reveal(next_is);
    if ps.len() > 0 && a.input.wf() {
        a.input.lemma_advanced();
        lemma_comment(a.advanced());
        lemma_comment(b.advanced());
        lemma_comment_same(a.advanced(), b.advanced());
        a.advanced().input.lemma_advanced_str();
        lemma_line_is_same(passed(a, ps[0]), passed(b, ps[0]), ps.drop_first());
    }
}

/// What plain tokens do depends on the stacks, the output and the table
/// alone.
pub proof fn lemma_fold_same<T>(a: ForthView<T>, b: ForthView<T>, ps: Seq<Plain>)
    requires
        same_stacks(a, b),
        a.builtins == b.builtins,
        forall|i: int| 0 <= i < ps.len() ==> plain_ok(a, #[trigger] ps[i]),
    ensures
        same_result(plain_fold(a, ps).1, plain_fold(b, ps).1),
        same_stacks(plain_fold(a, ps).0, plain_fold(b, ps).0),
        plain_fold(a, ps).0.builtins == a.builtins,
        plain_fold(a, ps).0 == (ForthView {
            data: plain_fold(a, ps).0.data,
            ret: plain_fold(a, ps).0.ret,
            output: plain_fold(a, ps).0.output,
            ..a
        }),
        plain_fold(a, ps).1.is_ok() ==> plain_fold(a, ps).1 == Ok::<(), Error>(()),
    decreases ps,
{
    if ps.len() > 0 {
        assert(plain_ok(a, ps[0]));
        match ps[0] {
            Plain::Word { bi } => {
                lemma_stack_word(a, b, a.builtins[bi as int].func);
                lemma_stack_word(b, a, a.builtins[bi as int].func);
            },
            Plain::Number { val } => {},
            Plain::Comment => {},
            Plain::Call { de, body } => {
                lemma_tokens_ok(a.builtins, body);
                lemma_fold_same(a, b, body);
                lemma_fold_same(b, a, body);
            },
            Plain::Str { text, ws } => {},
        }
        let a1 = plain_effect(a, ps[0]);
        let b1 = plain_effect(b, ps[0]);
        if a1.1.is_ok() {
            assert forall|i: int| 0 <= i < ps.drop_first().len() implies plain_ok(
                a1.0,
                #[trigger] ps.drop_first()[i],
            ) by {
                assert(plain_ok(a, ps[i + 1]));
            }
            lemma_fold_same(a1.0, b1.0, ps.drop_first());
        }
    }
}

/// In a line that is plain, every token is plain.
pub proof fn lemma_line_plain<T>(s: ForthView<T>, ps: Seq<Plain>)
    requires
        line_is(s, ps),
    ensures
        forall|i: int| 0 <= i < ps.len() ==> plain_ok(s, #[trigger] ps[i]),
    decreases ps.len(),
{
    reveal(next_is);
    if ps.len() > 0 {
        s.input.lemma_advanced();
        lemma_comment(s.advanced());
        s.advanced().input.lemma_advanced_str();
        lemma_line_plain(passed(s, ps[0]), ps.drop_first());
        assert forall|i: int| 0 <= i < ps.len() implies plain_ok(s, #[trigger] ps[i]) by {
            if i > 0 {
                assert(plain_ok(passed(s, ps[0]), ps.drop_first()[i - 1]));
            }
        }
    }
}

/// `ok.` and the line feed behind it are four bytes.
pub proof fn lemma_ok_len()
    ensures
        "ok.\n".spec_bytes().len() == 4,
{
    reveal_strlit("ok.\n");
    let s = "ok.\n";
    assert(vstd::utf8::is_ascii_chars(s@));
    vstd::string::is_ascii_spec_bytes(s);
}

/// `line_from`, written out one level.
pub proof fn lemma_line_from<T>(s: ForthView<T>)
    ensures
        s.line_from() == match s.word_run().1 {
            Err(e) => (s.word_run().0, Err::<(), Error>(e)),
            Ok(done) => if done {
                (s.word_run().0, Ok::<(), Error>(()))
            } else if s.word_run().0.input.remaining() < s.input.remaining() {
                s.word_run().0.line_from()
            } else {
                (s.word_run().0, Err::<(), Error>(Error::InternalError))
            },
        },
{
    reveal(ForthView::<_>::line_from);
}

/// The outcome `l` of a line and the outcome `f` of folding its tokens
/// agree: where a token fails, the line fails with its error; where none
/// fails, the line succeeds if and only if `ok.` fits into the output, and
/// then has written it. The stacks are the same either way.
pub open spec fn line_agrees<T>(
    l: (ForthView<T>, Result<(), Error>),
    f: (ForthView<T>, Result<(), Error>),
) -> bool {
    &&& l.0.data == f.0.data
    &&& l.0.ret == f.0.ret
    &&& f.1.is_err() ==> same_result(l.1, f.1) && l.0.output == f.0.output
    &&& f.1.is_ok() ==> l.1.is_ok() == (f.0.output.len() + 4 <= f.0.output_cap)
    &&& f.1.is_ok() && l.1.is_ok() ==> l.0.output == f.0.output + "ok.\n".spec_bytes()
    &&& f.1.is_ok() && l.1.is_err() ==> l.0.output == f.0.output && l.1 == Err::<(), Error>(
        Error::Output(crate::output::OutputError::FormattingErr),
    )
}

/// What executing a plain line needs: the tokens `ps` are what is left of
/// the line, the words that they name are in the arena, and there are frames
/// and steps enough.
pub open spec fn line_runs<T>(s: ForthView<T>, ps: Seq<Plain>, lit: u32) -> bool {
    &&& line_is(s, ps)
    &&& all_called(s.arena, ps, lit)
    &&& lit <= i32::MAX
    &&& s.resolve(lit) matches Ok(Target::Word { func, len }) && func == WordFunc::Literal
    &&& s.calls.len() + height(ps) <= s.calls_cap
    &&& s.steps_left >= cost(ps)
}

/// Behind the first token of a line, what executing the line needs holds for
/// the other tokens.
pub proof fn lemma_line_rest<T>(s: ForthView<T>, t: ForthView<T>, ps: Seq<Plain>, lit: u32)
    requires
        ps.len() > 0,
        line_runs(s, ps, lit),
        t == (ForthView {
            data: t.data,
            ret: t.ret,
            output: t.output,
            steps_left: t.steps_left,
            ..passed(s, ps[0])
        }),
        t.steps_left >= cost(ps.drop_first()),
    ensures
        line_runs(t, ps.drop_first(), lit),
        forall|i: int| 0 <= i < ps.drop_first().len() ==> plain_ok(t, #[trigger] ps.drop_first()[i]),
{
    reveal(next_is);
    s.input.lemma_advanced();
    lemma_comment(s.advanced());
    s.advanced().input.lemma_advanced_str();
    lemma_line_is_same(passed(s, ps[0]), t, ps.drop_first());
    lemma_line_plain(t, ps.drop_first());
    lemma_resolve_same(t, s, lit);
}

/// Executing a plain line is folding its tokens, and then writing `ok.`.
pub proof fn lemma_line_folds<T>(s: ForthView<T>, ps: Seq<Plain>, lit: u32)
    requires
        line_runs(s, ps, lit),
    ensures
        line_agrees(s.line_from(), plain_fold(s, ps)),
    decreases ps.len(),
{
    reveal(next_is);
    lemma_ok_len();
    lemma_line_from(s);
    lemma_direct_token(
        s,
        if ps.len() > 0 && ps[0] is Word {
            ps[0]->bi
        } else {
            0
        },
        if ps.len() > 0 && ps[0] is Number {
            ps[0]->val
        } else {
            0
        },
    );
    if ps.len() > 0 {
        let a = s.advanced();
        let rest = ps.drop_first();
        s.input.lemma_advanced();
        lemma_line_plain(s, ps);
        assert(plain_ok(s, ps[0]));
        lemma_resolve_same(a, s, lit);
        match ps[0] {
            Plain::Word { bi } => {
                let f = s.builtins[bi as int].func;
                let eh = (BUILTIN_BASE + bi) as u32;
                lemma_resolve_builtin(a, bi);
                lemma_called_from_line(a, eh, f, s.builtins[bi as int].hdr.len);
                lemma_stack_word(a, s, f);
                lemma_stack_word(s, a, f);
                let t = a.call_word(eh);
                let u = s.run_plain(f);
                if u.1.is_ok() {
                    lemma_line_rest(s, t.0, ps, lit);
                    lemma_line_folds(t.0, rest, lit);
                    lemma_fold_same(t.0, u.0, rest);
                }
            },
            Plain::Number { val } => {
                let t = a.give(seq![Word { data: val }]);
                let u = s.give(seq![Word { data: val }]);
                if u.1.is_ok() {
                    lemma_line_rest(s, t.0, ps, lit);
                    lemma_line_folds(t.0, rest, lit);
                    lemma_fold_same(t.0, u.0, rest);
                }
            },
            Plain::Comment => {
                let t = a.munch_comment();
                lemma_comment(a);
                lemma_line_rest(s, t, ps, lit);
                lemma_line_folds(t, rest, lit);
                lemma_fold_same(t, s, rest);
            },
            Plain::Str { text, ws } => {
                a.input.lemma_advanced_str();
                let t = passed(s, ps[0]).put(text);
                let u = s.put(text);
                if u.1.is_ok() {
                    lemma_line_rest(s, t.0, ps, lit);
                    lemma_line_folds(t.0, rest, lit);
                    lemma_fold_same(t.0, u.0, rest);
                }
            },
            Plain::Call { de, body } => {
                lemma_direct_token(s, de, 0);
                lemma_word_called(s, a, de, body, lit);
                let t = a.call_word(de);
                let u = plain_fold(s, body);
                if u.1.is_ok() {
                    lemma_line_rest(s, t.0, ps, lit);
                    lemma_line_folds(t.0, rest, lit);
                    lemma_fold_same(t.0, u.0, rest);
                }
            },
        }
    }
}

/// A word that was compiled from plain tokens and is called from the line
/// does what folding the tokens of its body does.
pub proof fn lemma_word_called<T>(
    s: ForthView<T>,
    a: ForthView<T>,
    de: u32,
    body: Seq<Plain>,
    lit: u32,
)
    requires
        same_stacks(a, s),
        a.builtins == s.builtins,
        plain_ok(a, Plain::Call { de, body }),
        called(a.arena, Plain::Call { de, body }, lit),
        lit <= i32::MAX,
        a.resolve(lit) matches Ok(Target::Word { func, len }) && func == WordFunc::Literal,
        a.calls.len() + height(body) + 1 <= a.calls_cap,
        a.steps_left >= cost(body) + 1,
    ensures
        same_result(a.call_word(de).1, plain_fold(s, body).1),
        same_stacks(a.call_word(de).0, plain_fold(s, body).0),
        plain_fold(s, body).0.builtins == s.builtins,
        plain_fold(s, body).1.is_ok() ==> a.call_word(de).0 == (ForthView {
            data: a.call_word(de).0.data,
            ret: a.call_word(de).0.ret,
            output: a.call_word(de).0.output,
            steps_left: a.call_word(de).0.steps_left,
            ..a
        }),
        plain_fold(s, body).1.is_ok() ==> a.call_word(de).0.steps_left == a.steps_left - cost(body)
            - 1,
{
    let depth = a.calls.len();
    let target = Target::Word { func: WordFunc::Interpret, len: code(body, lit).len() as u16 };
    let frame = ForthView::<T>::frame_for(de, target);
    let b = ForthView { calls: a.calls.push(frame), ..a };
    lemma_called_word(a, de, body, lit);
    lemma_resolve_same(b, a, de);
    lemma_resolve_same(b, a, lit);
    lemma_tokens_ok(a.builtins, body);
    assert(a.call(frame).0 == b && a.call(frame).1.is_ok());
    assert(a.call_word(de) == b.run(depth));
    assert(b.calls.drop_last() =~= a.calls);
    assert(body_runs(b, depth, body, lit));
    lemma_body_folds(b, depth, body, lit);
    lemma_fold_same(b, s, body);
    lemma_fold_same(s, b, body);
}

/// The step of a compiled word behind its last cell: the word is done.
pub proof fn lemma_step_done<T>(s: ForthView<T>, base: nat)
    requires
        s.calls.len() > 0,
        s.resolve(s.calls.last().eh) matches Ok(Target::Word { func, len }) && func
            == WordFunc::Interpret,
        s.calls.last().idx >= s.calls.last().len,
    ensures
        s.step(base) == s.finish(base),
{
    reveal(ForthView::<_>::step);
}

/// The outcome `b` of running a body and the outcome `f` of folding the
/// tokens it was compiled from agree: the same success or error and the same
/// on the stacks and in the output; after success the compiled word has left
/// the call stack of `s`.
pub open spec fn body_agrees<T>(
    s: ForthView<T>,
    b: (ForthView<T>, Result<(), Error>),
    f: (ForthView<T>, Result<(), Error>),
) -> bool {
    &&& same_result(b.1, f.1)
    &&& same_stacks(b.0, f.0)
    &&& b.0.calls == s.calls.drop_last()
    &&& b.0.arena == s.arena
    &&& b.0.builtins == s.builtins
    &&& f.1.is_ok() ==> b.0 == (ForthView {
        data: b.0.data,
        ret: b.0.ret,
        output: b.0.output,
        calls: s.calls.drop_last(),
        steps_left: b.0.steps_left,
        ..s
    })
}

/// The cells behind the first token of a body are the cells of the other
/// tokens.
pub proof fn lemma_code_rest(ps: Seq<Plain>, lit: u32)
    requires
        ps.len() > 0,
    ensures
        code(ps, lit) == first_cells(ps[0], lit) + code(ps.drop_first(), lit),
        code(ps, lit).len() == first_cells(ps[0], lit).len() + code(ps.drop_first(), lit).len(),
        code(ps, lit).skip(first_cells(ps[0], lit).len() as int) == code(ps.drop_first(), lit),
        ps[0] is Word ==> first_cells(ps[0], lit).len() == 1 && code(ps, lit)[0] == (Cell::Is {
            w: ptr_word((BUILTIN_BASE + ps[0]->bi) as u32),
        }),
        ps[0] is Number ==> first_cells(ps[0], lit).len() == 2 && code(ps, lit)[0] == (Cell::Is {
            w: ptr_word(lit),
        }) && code(ps, lit)[1] == (Cell::Is { w: Word { data: ps[0]->val } }),
        ps[0] is Comment ==> first_cells(ps[0], lit).len() == 0 && code(ps, lit) == code(
            ps.drop_first(),
            lit,
        ),
        ps[0] is Call ==> first_cells(ps[0], lit).len() == 1 && code(ps, lit)[0] == (Cell::Is {
            w: ptr_word(ps[0]->de),
        }),
        ps[0] is Str ==> first_cells(ps[0], lit).len() == 2 + (ps[0]->text.len() + 3) / 4 && code(
            ps,
            lit,
        )[0] == (Cell::Is { w: ptr_word(ps[0]->ws) }) && code(ps, lit)[1] == (Cell::Is {
            w: Word { data: ps[0]->text.len() as i32 },
        }) && (ps[0]->text.len() > 0 ==> code(ps, lit)[2] == (Cell::Text { bytes: ps[0]->text })),
{
    let first = first_cells(ps[0], lit);
    let rest = code(ps.drop_first(), lit);
    reveal(text_cells);
    assert((first + rest).skip(first.len() as int) =~= rest);
    if ps[0] is Comment {
        assert(first + rest =~= rest);
    }
}

/// Cells that stand in a body stand there from any of them on.
pub proof fn lemma_cells_skip(a: ArenaView, eh: u32, k: int, cells: Seq<Cell>, n: int)
    requires
        cells_at(a, eh, k, cells),
        0 <= n <= cells.len(),
    ensures
        cells_at(a, eh, k + n, cells.skip(n)),
        n < cells.len() ==> cell_ok(a, eh + crate::dictionary::ENTRY_SIZE + 4 * (k + n), cells[n]),
    decreases n,
{
    if n == 0 {
        assert(cells.skip(0) =~= cells);
    } else {
        lemma_cells_skip(a, eh, k + 1, cells.drop_first(), n - 1);
        assert(cells.drop_first().skip(n - 1) =~= cells.skip(n));
    }
}

/// The machine after the compiled word on top of the call stack of `s` is
/// done, in `k` steps: the stacks and the output are those of `f`, the frame
/// of the word is gone, and a word that called it, above `base` frames,
/// stands before its next cell.
pub open spec fn returned<T>(s: ForthView<T>, base: nat, f: ForthView<T>, k: nat) -> ForthView<T> {
    let under = ForthView { calls: s.calls.drop_last(), ..s };
    ForthView {
        data: f.data,
        ret: f.ret,
        output: f.output,
        calls: if under.calls.len() > base {
            moved_on(under, 1)
        } else {
            under.calls
        },
        steps_left: (s.steps_left - k) as u64,
        ..s
    }
}

/// The outcome `b` of running a body, in which a token failed, and the
/// outcome `f` of folding its tokens agree: the same error and the same on
/// the stacks and in the output; the call stack is cut down to `base` frames.
pub open spec fn failed_as<T>(
    s: ForthView<T>,
    base: nat,
    b: (ForthView<T>, Result<(), Error>),
    f: (ForthView<T>, Result<(), Error>),
) -> bool {
    &&& same_result(b.1, f.1)
    &&& same_stacks(b.0, f.0)
    &&& b.0.calls == s.calls.take(base as int)
    &&& b.0.arena == s.arena
    &&& b.0.builtins == s.builtins
}

/// Running the body whose tokens are `ps` is folding the tokens: where a
/// token fails, the run ends with its error; where none does, the run goes on
/// as from the machine in which the word is done.
pub open spec fn runs_as<T>(s: ForthView<T>, base: nat, ps: Seq<Plain>) -> bool {
    &&& plain_fold(s, ps).1.is_ok() ==> s.run(base) == returned(
        s,
        base,
        plain_fold(s, ps).0,
        cost(ps) + 1,
    ).run(base)
    &&& plain_fold(s, ps).1.is_err() ==> failed_as(s, base, s.run(base), plain_fold(s, ps))
}

/// What running a body needs: the cells of the tokens `ps` are the rest of
/// the body, the tokens are plain, the words that they name are in the
/// arena, and there are frames and steps enough.
pub open spec fn body_runs<T>(s: ForthView<T>, base: nat, ps: Seq<Plain>, lit: u32) -> bool {
    &&& body_holds(s, base, code(ps, lit), lit)
    &&& forall|i: int| 0 <= i < ps.len() ==> plain_ok(s, #[trigger] ps[i])
    &&& all_called(s.arena, ps, lit)
    &&& s.calls.len() + height(ps) <= s.calls_cap
    &&& s.steps_left >= cost(ps) + 1
}

/// Behind the first token of a body, what running the body needs holds for
/// the other tokens.
pub proof fn lemma_runs_rest<T>(
    s: ForthView<T>,
    t: ForthView<T>,
    base: nat,
    ps: Seq<Plain>,
    lit: u32,
    n: int,
)
    requires
        ps.len() > 0,
        !(ps[0] is Comment),
        n == first_cells(ps[0], lit).len(),
        body_runs(s, base, ps, lit),
        t.calls == moved_on(s, n),
        t.arena == s.arena,
        t.builtins == s.builtins,
        t.async_builtins == s.async_builtins,
        t.calls_cap == s.calls_cap,
        t.steps_left >= cost(ps.drop_first()) + 1,
    ensures
        body_runs(t, base, ps.drop_first(), lit),
        t.calls.drop_last() == s.calls.drop_last(),
        t.calls.take(base as int) == s.calls.take(base as int),
{
    lemma_body_rest(s, t, base, ps, lit, n);
    assert(t.calls.take(base as int) =~= s.calls.take(base as int));
}

/// Running a body that was compiled from plain tokens is folding the tokens:
/// where a token fails, the run ends with its error; where none does, the
/// run goes on as from the machine in which the word is done.
pub proof fn lemma_body_runs<T>(s: ForthView<T>, base: nat, ps: Seq<Plain>, lit: u32)
    requires
        body_runs(s, base, ps, lit),
    ensures
        runs_as(s, base, ps),
    decreases ps,
{
    let top = s.calls.last();
    let s0 = s.spent();
    lemma_run(s, base);
    lemma_resolve_same(s0, s, top.eh);
    lemma_resolve_same(s0, s, lit);
    if ps.len() == 0 {
        lemma_step_done(s0, base);
        let done = s0.finish(base);
        let under = ForthView { calls: s.calls.drop_last(), ..s };
        if under.calls.len() > base {
            assert(under.calls.last().spec_offset(1) == Some((under.calls.last().idx + 1) as u16));
        }
        assert(done.0 == returned(s, base, s, 1));
        assert(runs_as(s, base, ps));
    } else {
        let rest = ps.drop_first();
        lemma_code_rest(ps, lit);
        let k = (s.steps_left - 2) as u64;
        assert(plain_ok(s, ps[0]));
        assert(body_addr(top, top.idx as int) == top.eh + crate::dictionary::ENTRY_SIZE + 4
            * top.idx);
        match ps[0] {
            Plain::Word { bi } => {
                let f = s.builtins[bi as int].func;
                let eh = (BUILTIN_BASE + bi) as u32;
                lemma_cells_skip(s.arena, top.eh, top.idx as int, code(ps, lit), 0);
                lemma_resolve_builtin(s0, bi);
                assert(before_cell(s0, base, eh));
                lemma_called_from_body(s0, base, eh, f, s.builtins[bi as int].hdr.len, k);
                lemma_stack_word(s0, s, f);
                lemma_stack_word(s, s0, f);
                let one = s0.step(base);
                assert(fetched(s0, base, k) == one.0.spent());
                lemma_run(one.0, base);
                let two = one.0.spent().step(base);
                if two.1.is_ok() {
                    lemma_runs_rest(s, two.0, base, ps, lit, 1);
                    lemma_body_runs(two.0, base, rest, lit);
                    lemma_fold_same(two.0, s.run_plain(f).0, rest);
                    lemma_returned_same(s, two.0, base, ps, plain_fold(two.0, rest).0, 2);
                }
                assert(runs_as(s, base, ps));
            },
            Plain::Number { val } => {
                assert(body_addr(top, top.idx + 1) == top.eh + crate::dictionary::ENTRY_SIZE + 4 * (
                top.idx + 1));
                lemma_cells_skip(s.arena, top.eh, top.idx as int, code(ps, lit), 0);
                lemma_cells_skip(s.arena, top.eh, top.idx as int, code(ps, lit), 1);
                assert(before_cell(s0, base, lit));
                lemma_literal_duality(s, s0, base, lit, val, k);
                let one = s0.step(base);
                assert(fetched(s0, base, k) == one.0.spent());
                lemma_run(one.0, base);
                let two = one.0.spent().step(base);
                if two.1.is_ok() {
                    lemma_runs_rest(s, two.0, base, ps, lit, 2);
                    lemma_body_runs(two.0, base, rest, lit);
                    lemma_fold_same(two.0, s.give(seq![Word { data: val }]).0, rest);
                    lemma_returned_same(s, two.0, base, ps, plain_fold(two.0, rest).0, 2);
                }
                assert(runs_as(s, base, ps));
            },
            Plain::Comment => {
                assert forall|i: int| 0 <= i < rest.len() implies plain_ok(
                    s,
                    #[trigger] rest[i],
                ) by {
                    assert(plain_ok(s, ps[i + 1]));
                }
                lemma_body_runs(s, base, rest, lit);
                assert(runs_as(s, base, ps));
            },
            Plain::Str { text, ws } => {
                lemma_cells_skip(s.arena, top.eh, top.idx as int, code(ps, lit), 0);
                lemma_cells_skip(s.arena, top.eh, top.idx as int, code(ps, lit), 1);
                if text.len() > 0 {
                    lemma_cells_skip(s.arena, top.eh, top.idx as int, code(ps, lit), 2);
                }
                lemma_resolve_builtin(s0, (ws - BUILTIN_BASE) as u32);
                assert(before_cell(s0, base, ws));
                assert(body_addr(top, top.idx + 1) == top.eh + crate::dictionary::ENTRY_SIZE + 4 * (
                top.idx + 1));
                assert(body_addr(top, top.idx + 2) == top.eh + crate::dictionary::ENTRY_SIZE + 4 * (
                top.idx + 2));
                assert(s.arena.bytes(body_addr(top, top.idx + 2), text.len() as int) =~= text);
                lemma_str_from_body(s, s0, base, ws, text, k);
                let one = s0.step(base);
                assert(fetched(s0, base, k) == one.0.spent());
                lemma_run(one.0, base);
                let two = one.0.spent().step(base);
                if two.1.is_ok() {
                    lemma_runs_rest(s, two.0, base, ps, lit, (2 + (text.len() + 3) / 4) as int);
                    lemma_body_runs(two.0, base, rest, lit);
                    lemma_fold_same(two.0, s.put(text).0, rest);
                    lemma_returned_same(s, two.0, base, ps, plain_fold(two.0, rest).0, 2);
                }
                assert(runs_as(s, base, ps));
            },
            Plain::Call { de, body } => {
                let target = Target::Word {
                    func: WordFunc::Interpret,
                    len: code(body, lit).len() as u16,
                };
                lemma_cells_skip(s.arena, top.eh, top.idx as int, code(ps, lit), 0);
                assert(called(s.arena, ps[0], lit));
                lemma_called_word(s0, de, body, lit);
                assert(before_cell(s0, base, de));
                lemma_step_fetch(s0, base, de, target);
                let one = s0.step(base);
                lemma_resolve_same(one.0, s0, de);
                lemma_resolve_same(one.0, s, lit);
                lemma_tokens_ok(s.builtins, body);
                assert(one.0.calls.drop_last() =~= s.calls);
                assert(one.0.calls[one.0.calls.len() - 2] == top);
                assert(called(s.arena, ps[0], lit));
                assert(height(ps) >= height(body) + 1);
                assert(cost(ps) >= cost(body) + 2);
                assert(one.0.calls.last() == ForthView::<T>::frame_for(de, target));
                assert(body_holds(one.0, base, code(body, lit), lit));
                assert(all_called(one.0.arena, body, lit));
                assert(body_runs(one.0, base, body, lit));
                lemma_body_runs(one.0, base, body, lit);
                lemma_fold_same(one.0, s, body);
                lemma_fold_same(s, one.0, body);
                let inner = plain_fold(one.0, body);
                if inner.1.is_ok() {
                    let mid = returned(one.0, base, inner.0, cost(body) + 1);
                    assert(mid.calls == moved_on(s, 1));
                    lemma_runs_rest(s, mid, base, ps, lit, 1);
                    lemma_body_runs(mid, base, rest, lit);
                    lemma_fold_same(mid, plain_fold(s, body).0, rest);
                    lemma_returned_same(
                        s,
                        mid,
                        base,
                        ps,
                        plain_fold(mid, rest).0,
                        (cost(body) + 2) as int,
                    );
                } else {
                    assert(one.0.calls.take(base as int) =~= s.calls.take(base as int));
                }
                assert(runs_as(s, base, ps));
            },
        }
    }
}

/// The machine in which a compiled word is done is the same whether it is
/// told from the start of the body or from behind the first token.
pub proof fn lemma_returned_same<T>(
    s: ForthView<T>,
    t: ForthView<T>,
    base: nat,
    ps: Seq<Plain>,
    f: ForthView<T>,
    n: int,
)
    requires
        ps.len() > 0,
        base < s.calls.len(),
        cost(ps) == n + cost(ps.drop_first()),
        s.steps_left >= cost(ps) + 1,
        t == (ForthView {
            data: t.data,
            ret: t.ret,
            output: t.output,
            calls: t.calls,
            steps_left: (s.steps_left - n) as u64,
            ..s
        }),
        t.calls.len() == s.calls.len(),
        t.calls.drop_last() == s.calls.drop_last(),
    ensures
        returned(t, base, f, cost(ps.drop_first()) + 1) == returned(s, base, f, cost(ps) + 1),
{
}

/// Running a body that was compiled from plain tokens, from the word that
/// the line called, is folding the tokens.
pub proof fn lemma_body_folds<T>(s: ForthView<T>, base: nat, ps: Seq<Plain>, lit: u32)
    requires
        body_runs(s, base, ps, lit),
        s.calls.len() == base + 1,
    ensures
        body_agrees(s, s.run(base), plain_fold(s, ps)),
        plain_fold(s, ps).1.is_ok() ==> s.run(base).0.steps_left == s.steps_left - cost(ps) - 1,
{
    lemma_body_runs(s, base, ps, lit);
    lemma_fold_same(s, s, ps);
    assert(runs_as(s, base, ps));
    assert(s.calls.take(base as int) =~= s.calls.drop_last());
    if plain_fold(s, ps).1.is_ok() {
        lemma_run(returned(s, base, plain_fold(s, ps).0, cost(ps) + 1), base);
    }
}

/// The cells `cells` stand in the body of the word at `eh`, from cell `k` on.
pub open spec fn cells_at(a: crate::dictionary::ArenaView, eh: u32, k: int, cells: Seq<Cell>) -> bool
    decreases cells.len(),
{
    cells.len() == 0 || (cell_ok(a, eh + crate::dictionary::ENTRY_SIZE + 4 * k, cells[0])
        && cells_at(a, eh, k + 1, cells.drop_first()))
}

/// After the cells of the first token were executed, the machine stands in
/// the same body before the cells of the other tokens.
pub proof fn lemma_body_rest<T>(
    s: ForthView<T>,
    t: ForthView<T>,
    base: nat,
    ps: Seq<Plain>,
    lit: u32,
    n: int,
)
    requires
        ps.len() > 0,
        !(ps[0] is Comment),
        n == first_cells(ps[0], lit).len(),
        body_holds(s, base, code(ps, lit), lit),
        forall|i: int| 0 <= i < ps.len() ==> plain_ok(s, #[trigger] ps[i]),
        t.calls == moved_on(s, n),
        t.arena == s.arena,
        t.builtins == s.builtins,
        t.async_builtins == s.async_builtins,
        t.calls_cap == s.calls_cap,
    ensures
        body_holds(t, base, code(ps.drop_first(), lit), lit),
        forall|i: int| 0 <= i < ps.drop_first().len() ==> plain_ok(t, #[trigger] ps.drop_first()[i]),
        t.calls.drop_last() == s.calls.drop_last(),
{
    lemma_code_rest(ps, lit);
    let top = s.calls.last();
    let rest = code(ps.drop_first(), lit);
    lemma_resolve_same(t, s, top.eh);
    lemma_resolve_same(t, s, lit);
    assert(code(ps, lit).len() == n + rest.len());
    assert(top.idx + n <= top.len);
    assert(t.calls.last() == (CallContext { idx: (top.idx + n) as u16, ..top }));
    lemma_cells_skip(s.arena, top.eh, top.idx as int, code(ps, lit), n);
    assert forall|i: int| 0 <= i < ps.drop_first().len() implies plain_ok(
        t,
        #[trigger] ps.drop_first()[i],
    ) by {
        assert(plain_ok(s, ps[i + 1]));
    }
    assert(t.calls.drop_last() =~= s.calls.drop_last());
}

/// The words of a plain line do, compiled into the body of a word and run
/// from there, what they do when the line is executed: either way the same
/// token is the first to fail, with the same error, or none fails; either way
/// the data stack and the return stack end up the same; and the output is the
/// same, but for the `ok.` that ends a line.
pub proof fn lemma_compile_interpret_duality<T>(
    line: ForthView<T>,
    body: ForthView<T>,
    base: nat,
    ps: Seq<Plain>,
    lit: u32,
)
    requires
        line_runs(line, ps, lit),
        body_runs(body, base, ps, lit),
        body.calls.len() == base + 1,
        same_stacks(line, body),
        line.builtins == body.builtins,
    ensures
        line.line_from().0.data == body.run(base).0.data,
        line.line_from().0.ret == body.run(base).0.ret,
        body.run(base).1.is_err() ==> same_result(line.line_from().1, body.run(base).1)
            && line.line_from().0.output == body.run(base).0.output,
        body.run(base).1.is_ok() ==> line.line_from().1.is_ok() == (body.run(base).0.output.len()
            + 4 <= body.run(base).0.output_cap),
        body.run(base).1.is_ok() && line.line_from().1.is_ok() ==> line.line_from().0.output
            == body.run(base).0.output + "ok.\n".spec_bytes(),
        body.run(base).1.is_ok() && line.line_from().1.is_err() ==> line.line_from().0.output
            == body.run(base).0.output,
{
    lemma_ok_len();
    lemma_line_folds(line, ps, lit);
    lemma_line_plain(line, ps);
    lemma_body_folds(body, base, ps, lit);
    lemma_fold_same(line, body, ps);
}
} // verus!
