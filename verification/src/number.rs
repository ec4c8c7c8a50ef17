//! Decimal numbers: reading a token as a number, and writing a number.

use crate::output::{pushed, OutputBuf, OutputError};
use vstd::prelude::*;

verus! {

pub open spec fn is_digit(b: u8) -> bool {
    48 <= b <= 57
}

pub open spec fn all_digits(s: Seq<u8>) -> bool {
    forall|i: int| 0 <= i < s.len() ==> is_digit(#[trigger] s[i])
}

/// The number that the decimal digits `s` write.
pub open spec fn digits_value(s: Seq<u8>) -> nat
    decreases s.len(),
{
    if s.len() == 0 {
        0
    } else {
        (digits_value(s.drop_last()) * 10 + (s.last() - 48)) as nat
    }
}

/// The digits of `s`: what follows the sign, where it starts with one.
pub open spec fn digits_part(s: Seq<u8>) -> Seq<u8> {
    if s.len() > 0 && (s[0] == 45 || s[0] == 43) {
        s.subrange(1, s.len() as int)
    } else {
        s
    }
}

/// The number that `s` writes: an optional `+` or `-`, then one decimal digit
/// or more, with a value that a 32-bit cell can hold.
pub open spec fn parse_i32(s: Seq<u8>) -> Option<i32> {
    let d = digits_part(s);
    let v = if s.len() > 0 && s[0] == 45 {
        -(digits_value(d) as int)
    } else {
        digits_value(d) as int
    };
    if d.len() > 0 && all_digits(d) && i32::MIN <= v <= i32::MAX {
        Some(v as i32)
    } else {
        None
    }
}

/// A prefix of a digit string writes no larger number than the whole.
pub proof fn lemma_digits_prefix(s: Seq<u8>, i: int)
    requires
        0 <= i <= s.len(),
        all_digits(s),
    ensures
        digits_value(s.take(i)) <= digits_value(s),
    decreases s.len(),
{
    if i == s.len() {
        assert(s.take(i) =~= s);
    } else {
        assert(s.drop_last().take(i) =~= s.take(i));
        assert(all_digits(s.drop_last()));
        lemma_digits_prefix(s.drop_last(), i);
        assert(is_digit(s.last()));
    }
}

/// Reads a signed decimal number of 32 bits.
pub fn parse_num(word: &[u8]) -> (r: Option<i32>)
    ensures
        r == parse_i32(word@),
{
    let n = word.len();
    if n == 0 {
        return None;
    }
    let neg = word[0] == 45;
    let first: usize = if word[0] == 45 || word[0] == 43 {
        1
    } else {
        0
    };
    let ghost d = digits_part(word@);
    if first >= n {
        return None;
    }
    let mut acc: i64 = 0;
    let mut i: usize = first;
    while i < n
        invariant
            first <= i <= n,
            n == word@.len(),
            d == word@.subrange(first as int, n as int),
            d == digits_part(word@),
            neg == (word@[0] == 45),
            0 <= acc <= 2147483648,
            acc == digits_value(d.take(i - first)),
            all_digits(d.take(i - first)),
        decreases n - i,
    {
        let b = word[i];
        if b < 48 || b > 57 {
            assert(!is_digit(d[i - first]));
            return None;
        }
        let next = acc * 10 + (b - 48) as i64;
        proof {
            let t = d.take(i - first + 1);
            assert(t.drop_last() =~= d.take(i - first));
            assert(t.last() == b);
            assert(next == digits_value(t));
            assert forall|j: int| 0 <= j < t.len() implies is_digit(#[trigger] t[j]) by {
                if j < t.len() - 1 {
                    assert(is_digit(d.take(i - first)[j]));
                }
            }
        }
        if next > 2147483648 {
            proof {
                if all_digits(d) {
                    lemma_digits_prefix(d, i - first + 1);
                }
            }
            return None;
        }
        acc = next;
        i += 1;
    }
    assert(d.take(n - first) =~= d);
    let v: i64 = if neg {
        -acc
    } else {
        acc
    };
    if v > 2147483647 {
        None
    } else {
        Some(v as i32)
    }
}

/// The decimal digits of `n`, most significant first.
pub open spec fn decimal(n: nat) -> Seq<u8>
    decreases n,
{
    if n < 10 {
        seq![(48 + n) as u8]
    } else {
        decimal(n / 10).push((48 + n % 10) as u8)
    }
}

/// The decimal writing of `v`, with a leading `-` where it is negative.
pub open spec fn decimal_signed(v: int) -> Seq<u8> {
    if v < 0 {
        seq![45u8] + decimal((-v) as nat)
    } else {
        decimal(v as nat)
    }
}

/// How many digits `n` has.
pub fn decimal_len(n: u64) -> (r: usize)
    ensures
        r == decimal(n as nat).len(),
        1 <= r <= 20,
    decreases n,
{
    if n < 10 {
        1
    } else {
        let r = decimal_len(n / 10);
        proof {
            lemma_decimal_len_bound(n as nat);
        }
        r + 1
    }
}

pub proof fn lemma_decimal_len_bound(n: nat)
    requires
        n <= u64::MAX,
    ensures
        decimal(n).len() <= 20,
{
    reveal_with_fuel(decimal, 21);
}

/// Appends the digits of `n`; there is room for them.
fn push_digits(out: &mut OutputBuf, n: u64)
    requires
        old(out).wf(),
        old(out)@.len() + decimal(n as nat).len() <= old(out).spec_capacity(),
    ensures
        final(out).wf(),
        final(out).spec_capacity() == old(out).spec_capacity(),
        final(out)@ == old(out)@ + decimal(n as nat),
    decreases n,
{
    if n >= 10 {
        push_digits(out, n / 10);
    }
    let pushed_ok = out.push_byte((48 + n % 10) as u8);
    if n >= 10 {
        assert(out@ =~= old(out)@ + decimal(n as nat));
    } else {
        assert(out@ =~= old(out)@ + decimal(n as nat));
    }
}

/// Appends the decimal writing of `v` and then `tail`, or reports `Full` and
/// appends nothing.
pub fn push_decimal(out: &mut OutputBuf, v: i64, tail: u8) -> (r: Result<(), OutputError>)
    requires
        old(out).wf(),
    ensures
        final(out).wf(),
        final(out).spec_capacity() == old(out).spec_capacity(),
        final(out)@ == pushed(
            old(out)@,
            old(out).spec_capacity(),
            decimal_signed(v as int).push(tail),
        ),
        r == if old(out)@.len() + decimal_signed(v as int).len() + 1 <= old(out).spec_capacity() {
            Ok::<(), OutputError>(())
        } else {
            Err::<(), OutputError>(OutputError::Full)
        },
{
    let neg = v < 0;
    let mag: u64 = if neg {
        (-(v as i128)) as u64
    } else {
        v as u64
    };
    let digits = decimal_len(mag);
    let need: usize = digits + 1 + if neg {
        1usize
    } else {
        0usize
    };
    if out.remaining() < need {
        return Err(OutputError::Full);
    }
    if neg {
        let _ = out.push_byte(45);
    }
    push_digits(out, mag);
    let _ = out.push_byte(tail);
    assert(out@ =~= old(out)@ + decimal_signed(v as int).push(tail));
    Ok(())
}

} // verus!
