//! Laws of the output: plain tokens only append to it, and what they append
//! does not depend on what it held before.

use crate::vm::duality::{lemma_tokens_ok, plain_effect, plain_fold, plain_ok, stack_word, Plain};
use crate::vm::ForthView;
use crate::{Error, WordFunc};
use vstd::prelude::*;

verus! {

/// Two machines hold the same on their data stacks and on their return
/// stacks.
pub open spec fn same_cells<T>(a: ForthView<T>, b: ForthView<T>) -> bool {
    &&& a.data == b.data
    &&& a.data_cap == b.data_cap
    &&& a.ret == b.ret
    &&& a.ret_cap == b.ret_cap
}

/// The outcomes `x` and `y` of a word in the machines `a` and `b`, which
/// hold the same on their stacks: where the word succeeded in `a`, it only
/// appended to the output of `a` and changed nothing but stacks and output;
/// and where `b` has room for what it appended, it succeeded in `b` too, left
/// the same on the stacks, and appended the same.
pub open spec fn appends<T>(
    a: ForthView<T>,
    b: ForthView<T>,
    x: (ForthView<T>, Result<(), Error>),
    y: (ForthView<T>, Result<(), Error>),
) -> bool {
    x.1.is_ok() ==> {
        &&& a.output.len() <= x.0.output.len()
        &&& x.0.output.take(a.output.len() as int) =~= a.output
        &&& x.0 == (ForthView { data: x.0.data, ret: x.0.ret, output: x.0.output, ..a })
        &&& b.output.len() + (x.0.output.len() - a.output.len()) <= b.output_cap ==> {
            &&& y.1.is_ok()
            &&& same_cells(x.0, y.0)
            &&& y.0.output =~= b.output + x.0.output.skip(a.output.len() as int)
            &&& y.0 == (ForthView { data: y.0.data, ret: y.0.ret, output: y.0.output, ..b })
        }
    }
}

/// The words of arithmetic only append to the output.
proof fn lemma_appends_arithmetic<T>(a: ForthView<T>, b: ForthView<T>, f: WordFunc)
    requires
        f == WordFunc::Add || f == WordFunc::Minus || f == WordFunc::Div || f == WordFunc::Modu || f == WordFunc::DivMod || f == WordFunc::Mul || f == WordFunc::Abs || f == WordFunc::Negate || f == WordFunc::Min || f == WordFunc::Max || f == WordFunc::StarSlash || f == WordFunc::StarSlashMod,
        same_cells(a, b),
    ensures
        appends(a, b, a.run_plain(f), b.run_plain(f)),
{
    reveal(ForthView::<_>::run_plain);
    match f {
        WordFunc::Add => {
            assert(appends(a, b, a.spec_add(), b.spec_add()));
        },
        WordFunc::Minus => {
            assert(appends(a, b, a.spec_minus(), b.spec_minus()));
        },
        WordFunc::Div => {
            assert(appends(a, b, a.spec_div(), b.spec_div()));
        },
        WordFunc::Modu => {
            assert(appends(a, b, a.spec_modu(), b.spec_modu()));
        },
        WordFunc::DivMod => {
            assert(appends(a, b, a.spec_div_mod(), b.spec_div_mod()));
        },
        WordFunc::Mul => {
            assert(appends(a, b, a.spec_mul(), b.spec_mul()));
        },
        WordFunc::Abs => {
            assert(appends(a, b, a.spec_abs(), b.spec_abs()));
        },
        WordFunc::Negate => {
            assert(appends(a, b, a.spec_negate(), b.spec_negate()));
        },
        WordFunc::Min => {
            assert(appends(a, b, a.spec_min(), b.spec_min()));
        },
        WordFunc::Max => {
            assert(appends(a, b, a.spec_max(), b.spec_max()));
        },
        WordFunc::StarSlash => {
            assert(appends(a, b, a.spec_star_slash(), b.spec_star_slash()));
        },
        WordFunc::StarSlashMod => {
            assert(appends(a, b, a.spec_star_slash_mod(), b.spec_star_slash_mod()));
        },
        _ => {},
    }
}

/// The words of logic only append to the output.
proof fn lemma_appends_logic<T>(a: ForthView<T>, b: ForthView<T>, f: WordFunc)
    requires
        f == WordFunc::Invert || f == WordFunc::And || f == WordFunc::Equal || f == WordFunc::Greater || f == WordFunc::Less || f == WordFunc::ZeroEqual || f == WordFunc::ZeroGreater || f == WordFunc::ZeroLess,
        same_cells(a, b),
    ensures
        appends(a, b, a.run_plain(f), b.run_plain(f)),
{
    reveal(ForthView::<_>::run_plain);
    match f {
        WordFunc::Invert => {
            assert(appends(a, b, a.spec_invert(), b.spec_invert()));
        },
        WordFunc::And => {
            assert(appends(a, b, a.spec_and(), b.spec_and()));
        },
        WordFunc::Equal => {
            assert(appends(a, b, a.spec_equal(), b.spec_equal()));
        },
        WordFunc::Greater => {
            assert(appends(a, b, a.spec_greater(), b.spec_greater()));
        },
        WordFunc::Less => {
            assert(appends(a, b, a.spec_less(), b.spec_less()));
        },
        WordFunc::ZeroEqual => {
            assert(appends(a, b, a.spec_zero_equal(), b.spec_zero_equal()));
        },
        WordFunc::ZeroGreater => {
            assert(appends(a, b, a.spec_zero_greater(), b.spec_zero_greater()));
        },
        WordFunc::ZeroLess => {
            assert(appends(a, b, a.spec_zero_less(), b.spec_zero_less()));
        },
        _ => {},
    }
}

/// The words that shuffle the data stack only append to the output.
proof fn lemma_appends_shuffle<T>(a: ForthView<T>, b: ForthView<T>, f: WordFunc)
    requires
        f == WordFunc::Swap || f == WordFunc::Dup || f == WordFunc::Over || f == WordFunc::Rot || f == WordFunc::DsDrop || f == WordFunc::Swap2 || f == WordFunc::Dup2 || f == WordFunc::Over2 || f == WordFunc::DsDrop2,
        same_cells(a, b),
    ensures
        appends(a, b, a.run_plain(f), b.run_plain(f)),
{
    reveal(ForthView::<_>::run_plain);
    match f {
        WordFunc::Swap => {
            assert(appends(a, b, a.spec_swap(), b.spec_swap()));
        },
        WordFunc::Dup => {
            assert(appends(a, b, a.spec_dup(), b.spec_dup()));
        },
        WordFunc::Over => {
            assert(appends(a, b, a.spec_over(), b.spec_over()));
        },
        WordFunc::Rot => {
            assert(appends(a, b, a.spec_rot(), b.spec_rot()));
        },
        WordFunc::DsDrop => {
            assert(appends(a, b, a.spec_ds_drop(), b.spec_ds_drop()));
        },
        WordFunc::Swap2 => {
            assert(appends(a, b, a.spec_swap_2(), b.spec_swap_2()));
        },
        WordFunc::Dup2 => {
            assert(appends(a, b, a.spec_dup_2(), b.spec_dup_2()));
        },
        WordFunc::Over2 => {
            assert(appends(a, b, a.spec_over_2(), b.spec_over_2()));
        },
        WordFunc::DsDrop2 => {
            assert(appends(a, b, a.spec_ds_drop_2(), b.spec_ds_drop_2()));
        },
        _ => {},
    }
}

/// The words that write only append to the output.
proof fn lemma_appends_output<T>(a: ForthView<T>, b: ForthView<T>, f: WordFunc)
    requires
        f == WordFunc::Emit || f == WordFunc::Cr || f == WordFunc::Space || f == WordFunc::Spaces || f == WordFunc::PopPrint || f == WordFunc::UnsignedPopPrint,
        same_cells(a, b),
    ensures
        appends(a, b, a.run_plain(f), b.run_plain(f)),
{
    reveal(ForthView::<_>::run_plain);
    match f {
        WordFunc::Emit => {
            assert(appends(a, b, a.spec_emit(), b.spec_emit()));
        },
        WordFunc::Cr => {
            assert(appends(a, b, a.spec_cr(), b.spec_cr()));
        },
        WordFunc::Space => {
            assert(appends(a, b, a.spec_space(), b.spec_space()));
        },
        WordFunc::Spaces => {
            assert(appends(a, b, a.spec_spaces(), b.spec_spaces()));
        },
        WordFunc::PopPrint => {
            assert(appends(a, b, a.spec_pop_print(), b.spec_pop_print()));
        },
        WordFunc::UnsignedPopPrint => {
            assert(appends(a, b, a.spec_unsigned_pop_print(), b.spec_unsigned_pop_print()));
        },
        _ => {},
    }
}

/// The words of the return stack, `w+` and the constants only append to the output.
proof fn lemma_appends_transfer<T>(a: ForthView<T>, b: ForthView<T>, f: WordFunc)
    requires
        f == WordFunc::DataToReturnStack || f == WordFunc::Data2ToReturn2Stack || f == WordFunc::ReturnToDataStack || f == WordFunc::LoopI || f == WordFunc::LoopItick || f == WordFunc::LoopJ || f == WordFunc::LoopLeave || f == WordFunc::WordAdd || f == WordFunc::ZeroConst || f == WordFunc::OneConst,
        same_cells(a, b),
    ensures
        appends(a, b, a.run_plain(f), b.run_plain(f)),
{
    reveal(ForthView::<_>::run_plain);
    match f {
        WordFunc::DataToReturnStack => {
            assert(appends(a, b, a.spec_data_to_return_stack(), b.spec_data_to_return_stack()));
        },
        WordFunc::Data2ToReturn2Stack => {
            assert(appends(a, b, a.spec_data2_to_return2_stack(), b.spec_data2_to_return2_stack()));
        },
        WordFunc::ReturnToDataStack => {
            assert(appends(a, b, a.spec_return_to_data_stack(), b.spec_return_to_data_stack()));
        },
        WordFunc::LoopI => {
            assert(appends(a, b, a.spec_loop_i(), b.spec_loop_i()));
        },
        WordFunc::LoopItick => {
            assert(appends(a, b, a.spec_loop_itick(), b.spec_loop_itick()));
        },
        WordFunc::LoopJ => {
            assert(appends(a, b, a.spec_loop_j(), b.spec_loop_j()));
        },
        WordFunc::LoopLeave => {
            assert(appends(a, b, a.spec_loop_leave(), b.spec_loop_leave()));
        },
        WordFunc::WordAdd => {
            assert(appends(a, b, a.spec_word_add(), b.spec_word_add()));
        },
        WordFunc::ZeroConst => {
            assert(appends(a, b, a.spec_zero_const(), b.spec_zero_const()));
        },
        WordFunc::OneConst => {
            assert(appends(a, b, a.spec_one_const(), b.spec_one_const()));
        },
        _ => {},
    }
}

/// A stack word only appends to the output, and what it appends depends on
/// the stacks alone.
pub proof fn lemma_appends<T>(a: ForthView<T>, b: ForthView<T>, f: WordFunc)
    requires
        stack_word(f),
        same_cells(a, b),
    ensures
        appends(a, b, a.run_plain(f), b.run_plain(f)),
{
    match f {
        WordFunc::Add | WordFunc::Minus | WordFunc::Div | WordFunc::Modu | WordFunc::DivMod | WordFunc::Mul | WordFunc::Abs | WordFunc::Negate | WordFunc::Min | WordFunc::Max | WordFunc::StarSlash | WordFunc::StarSlashMod => {
            lemma_appends_arithmetic(a, b, f);
        },
        WordFunc::Invert | WordFunc::And | WordFunc::Equal | WordFunc::Greater | WordFunc::Less | WordFunc::ZeroEqual | WordFunc::ZeroGreater | WordFunc::ZeroLess => {
            lemma_appends_logic(a, b, f);
        },
        WordFunc::Swap | WordFunc::Dup | WordFunc::Over | WordFunc::Rot | WordFunc::DsDrop | WordFunc::Swap2 | WordFunc::Dup2 | WordFunc::Over2 | WordFunc::DsDrop2 => {
            lemma_appends_shuffle(a, b, f);
        },
        WordFunc::Emit | WordFunc::Cr | WordFunc::Space | WordFunc::Spaces | WordFunc::PopPrint | WordFunc::UnsignedPopPrint => {
            lemma_appends_output(a, b, f);
        },
        WordFunc::DataToReturnStack | WordFunc::Data2ToReturn2Stack | WordFunc::ReturnToDataStack | WordFunc::LoopI | WordFunc::LoopItick | WordFunc::LoopJ | WordFunc::LoopLeave | WordFunc::WordAdd | WordFunc::ZeroConst | WordFunc::OneConst => {
            lemma_appends_transfer(a, b, f);
        },
        _ => {},
    }
}

/// Plain tokens only append to the output, and what they append depends on
/// the stacks alone: where they succeed in the machine `a`, they succeed in
/// every machine that holds the same on its stacks and has room in its
/// output for what they wrote, leave the same on the stacks, and write the
/// same.
pub proof fn lemma_fold_appends<T>(a: ForthView<T>, b: ForthView<T>, ps: Seq<Plain>)
    requires
        same_cells(a, b),
        a.builtins == b.builtins,
        forall|i: int| 0 <= i < ps.len() ==> plain_ok(a, #[trigger] ps[i]),
    ensures
        appends(a, b, plain_fold(a, ps), plain_fold(b, ps)),
    decreases ps,
{
    if ps.len() == 0 {
        assert(a.output.skip(a.output.len() as int) =~= Seq::<u8>::empty());
    } else if plain_fold(a, ps).1.is_ok() {
        let rest = ps.drop_first();
        assert(plain_ok(a, ps[0]));
        let x = plain_effect(a, ps[0]);
        let y = plain_effect(b, ps[0]);
        match ps[0] {
            Plain::Word { bi } => {
                lemma_appends(a, b, a.builtins[bi as int].func);
            },
            Plain::Number { val } => {
                assert(a.output.skip(a.output.len() as int) =~= Seq::<u8>::empty());
            },
            Plain::Comment => {
                assert(a.output.skip(a.output.len() as int) =~= Seq::<u8>::empty());
            },
            Plain::Call { de, body } => {
                lemma_tokens_ok(a.builtins, body);
                lemma_fold_appends(a, b, body);
            },
            Plain::Str { text, ws } => {
                assert((a.output + text).skip(a.output.len() as int) =~= text);
            },
        }
        assert(appends(a, b, x, y));
        assert forall|i: int| 0 <= i < rest.len() implies plain_ok(x.0, #[trigger] rest[i]) by {
            assert(plain_ok(a, ps[i + 1]));
        }
        // what the other tokens append, told of the machine `x.0` itself
        lemma_fold_appends(x.0, x.0, rest);
        let fx = plain_fold(x.0, rest);
        assert(fx.0.output.take(a.output.len() as int) =~= a.output) by {
            assert(fx.0.output.take(x.0.output.len() as int).take(a.output.len() as int)
                =~= fx.0.output.take(a.output.len() as int));
        }
        if b.output.len() + (fx.0.output.len() - a.output.len()) <= b.output_cap {
            lemma_fold_appends(x.0, y.0, rest);
            assert(x.0.output.skip(a.output.len() as int) + fx.0.output.skip(
                x.0.output.len() as int,
            ) =~= fx.0.output.skip(a.output.len() as int)) by {
                assert(fx.0.output.take(x.0.output.len() as int) =~= x.0.output);
            }
        }
    }
}

} // verus!
