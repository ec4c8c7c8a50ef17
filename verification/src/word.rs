//! The cell: 32 bits whose meaning is that of the word that consumes them, and
//! the arithmetic on cells.

use vstd::prelude::*;

verus! {

/// Number of bytes one cell occupies in the dictionary arena.
pub const WORD_SIZE: usize = 4;

/// One cell of the machine: 32 bits whose meaning depends on the word that
/// consumes it. The integer view is the stored value itself; the address view
/// is defined for the non-negative values.
#[derive(Clone, Copy, Debug, PartialEq, Eq, Structural)]
pub struct Word {
    pub data: i32,
}

impl Word {
    /// A cell holding the integer `data`.
    pub fn data(data: i32) -> (w: Word)
        ensures
            w.data == data,
    {
        Word { data }
    }

    /// A cell holding the address `addr`.
    pub fn ptr(addr: u32) -> (w: Word)
        requires
            addr <= i32::MAX,
        ensures
            w.data == addr,
    {
        Word { data: addr as i32 }
    }

    /// The address view of the cell: `Some` exactly for non-negative values.
    pub fn addr(&self) -> (a: Option<u32>)
        ensures
            a == self.spec_addr(),
    {
        if self.data >= 0 {
            Some(self.data as u32)
        } else {
            None
        }
    }

    pub open spec fn spec_addr(&self) -> Option<u32> {
        if self.data >= 0 {
            Some(self.data as u32)
        } else {
            None
        }
    }

    /// True when the cell is all zero bits (the null address, the integer 0).
    pub fn is_zero(&self) -> (z: bool)
        ensures
            z == (self.data == 0),
    {
        self.data == 0
    }
}


/// The 32-bit cell that agrees with `x` modulo 2^32.
pub open spec fn wrap32(x: int) -> i32 {
    let m = x % 0x1_0000_0000;
    if m < 0x8000_0000 {
        m as i32
    } else {
        (m - 0x1_0000_0000) as i32
    }
}

/// The quotient of `a` by `b`, rounded toward zero.
pub open spec fn tdiv(a: int, b: int) -> int {
    if a >= 0 {
        a / b
    } else {
        -((-a) / b)
    }
}

/// The remainder that goes with `tdiv`: it has the sign of `a`.
pub open spec fn trem(a: int, b: int) -> int {
    if a >= 0 {
        a % b
    } else {
        -((-a) % b)
    }
}

/// The bitwise and of two cells.
pub open spec fn bit_and(a: i32, b: i32) -> i32 {
    a & b
}

/// A quotient is no larger in magnitude than what was divided, and smaller
/// where the divisor is neither 1 nor -1.
pub proof fn lemma_quotient_bound(x: int, b: int)
    requires
        x >= 0,
        b != 0,
    ensures
        -x <= x / b <= x,
        x > 0 && b != 1 && b != -1 ==> -x < x / b < x,
{
    let q = x / b;
    let r = x % b;
    assert(x == b * q + r && 0 <= r && (b > 0 ==> r < b) && (b < 0 ==> r < -b)) by (nonlinear_arith)
        requires
            b != 0,
            q == x / b,
            r == x % b,
    ;
    assert(-x <= q <= x && (x > 0 && b != 1 && b != -1 ==> -x < q < x)) by (nonlinear_arith)
        requires
            x >= 0,
            b != 0,
            x == b * q + r,
            0 <= r,
            b > 0 ==> r < b,
            b < 0 ==> r < -b,
    ;
}

pub fn wrapping_add(a: i32, b: i32) -> (r: i32)
    ensures
        r == wrap32(a + b),
{
    a.wrapping_add(b)
}

pub fn wrapping_sub(a: i32, b: i32) -> (r: i32)
    ensures
        r == wrap32(a - b),
{
    a.wrapping_sub(b)
}

pub fn wrapping_mul(a: i32, b: i32) -> (r: i32)
    ensures
        r == wrap32(a * b),
{
    a.wrapping_mul(b)
}

/// The quotient rounded toward zero; the one quotient that no cell holds,
/// that of the least cell by -1, wraps to the least cell.
pub fn wrapping_div(a: i32, b: i32) -> (r: i32)
    requires
        b != 0,
    ensures
        r == wrap32(tdiv(a as int, b as int)),
{
    if b == -1 {
        assert((a as int) / (-1int) == -(a as int));
        assert((-(a as int)) / (-1int) == a as int);
        a.wrapping_sub(a).wrapping_sub(a)
    } else {
        proof {
            lemma_quotient_bound(if a >= 0 { a as int } else { -(a as int) }, b as int);
        }
        a / b
    }
}

/// The remainder of the division rounded toward zero.
pub fn wrapping_rem(a: i32, b: i32) -> (r: i32)
    requires
        b != 0,
    ensures
        r == trem(a as int, b as int),
{
    if b == -1 {
        0
    } else {
        a % b
    }
}

/// The cell that agrees with the 64-bit number `x` modulo 2^32.
pub fn wrap_i64(x: i64) -> (r: i32)
    ensures
        r == wrap32(x as int),
{
    let m: i64 = x % 0x1_0000_0000;
    let p: i64 = if m < 0 {
        m + 0x1_0000_0000
    } else {
        m
    };
    if p < 0x8000_0000 {
        p as i32
    } else {
        (p - 0x1_0000_0000) as i32
    }
}

pub fn bitand(a: i32, b: i32) -> (r: i32)
    ensures
        r == bit_and(a, b),
{
    a & b
}
} // verus!
