//! Overflow-checked fixed-point arithmetic primitives: multiply-divide with
//! an explicit rounding direction, and the integer square root. Everything
//! the curve computes goes through these.

use crate::error::AmmError;
use vstd::arithmetic::div_mod::{
    lemma_div_is_ordered, lemma_div_is_ordered_by_denominator, lemma_div_multiples_vanish_fancy,
    lemma_fundamental_div_mod,
};
use vstd::prelude::*;

verus! {

/// Rounding direction for `mul_div`. Amounts owed to the pool round up,
/// amounts owed to the user round down; the asymmetry is what keeps value
/// from leaking out of the reserves.
#[derive(Clone, Copy, Debug, PartialEq, Eq, Structural)]
pub enum Rounding {
    Down,
    Up,
}

/// Floor of `a * b / d` (meaningful for `a, b >= 0`, `d > 0`).
pub open spec fn mul_div_floor(a: int, b: int, d: int) -> int {
    a * b / d
}

/// Ceiling of `a * b / d` (meaningful for `a, b >= 0`, `d > 0`).
pub open spec fn mul_div_ceil(a: int, b: int, d: int) -> int {
    (a * b + d - 1) / d
}

/// The quotient `mul_div` is specified to return for a nonzero denominator.
pub open spec fn rounded_mul_div(a: int, b: int, d: int, round: Rounding) -> int {
    if round == Rounding::Down {
        mul_div_floor(a, b, d)
    } else {
        mul_div_ceil(a, b, d)
    }
}

/// `r` is the floor of the square root of `n`.
pub open spec fn is_floor_sqrt(n: int, r: int) -> bool {
    0 <= r && r * r <= n && n < (r + 1) * (r + 1)
}

/// At most one value is the floor of the square root of a given number.
pub proof fn lemma_floor_sqrt_unique(n: int, r1: int, r2: int)
    requires
        is_floor_sqrt(n, r1),
        is_floor_sqrt(n, r2),
    ensures
        r1 == r2,
{
    if r1 < r2 {
        assert((r1 + 1) * (r1 + 1) <= r2 * r2) by (nonlinear_arith)
            requires
                0 <= r1,
                r1 + 1 <= r2,
        ;
    }
    if r2 < r1 {
        assert((r2 + 1) * (r2 + 1) <= r1 * r1) by (nonlinear_arith)
            requires
                0 <= r2,
                r2 + 1 <= r1,
        ;
    }
}

/// The ceiling written as `(p + d - 1) / d` equals the floor plus one
/// exactly when the division is inexact.
pub proof fn lemma_ceil_div(p: int, d: int)
    requires
        0 <= p,
        0 < d,
    ensures
        (p + d - 1) / d == p / d + (if p % d == 0 { 0int } else { 1int }),
{
    lemma_fundamental_div_mod(p, d);
    let q = p / d;
    let r = p % d;
    if r == 0 {
        assert(d * q + (d - 1) == p + d - 1);
        lemma_div_multiples_vanish_fancy(q, d - 1, d);
    } else {
        assert(d * (q + 1) + (r - 1) == p + d - 1) by (nonlinear_arith)
            requires
                p == d * q + r,
        ;
        lemma_div_multiples_vanish_fancy(q + 1, r - 1, d);
    }
}

/// Computes `a * b / denom` with the requested rounding, using a 128-bit
/// intermediate so the product of two 64-bit factors can never wrap. Fails
/// with `Overflow` exactly when the mathematical quotient does not fit in 64
/// bits, and with `DivisionByZero` exactly when `denom == 0`.
pub fn mul_div(a: u64, b: u64, denom: u128, round: Rounding) -> (res: Result<u64, AmmError>)
    ensures
        denom == 0 ==> res == Err::<u64, AmmError>(AmmError::DivisionByZero),
        denom != 0 && rounded_mul_div(a as int, b as int, denom as int, round) > u64::MAX
            ==> res == Err::<u64, AmmError>(AmmError::Overflow),
        denom != 0 && rounded_mul_div(a as int, b as int, denom as int, round) <= u64::MAX
            ==> res == Ok::<u64, AmmError>(
                rounded_mul_div(a as int, b as int, denom as int, round) as u64,
            ),
{
    if denom == 0 {
        return Err(AmmError::DivisionByZero);
    }
    proof {
        assert((a as int) * (b as int) <= u128::MAX) by (nonlinear_arith)
            requires
                a <= u64::MAX,
                b <= u64::MAX,
        ;
    }
    let p: u128 = (a as u128) * (b as u128);
    let floor_q: u128 = p / denom;
    let q: u128 = match round {
        Rounding::Down => floor_q,
        Rounding::Up => {
            if p % denom == 0 {
                proof {
                    lemma_ceil_div(p as int, denom as int);
                }
                floor_q
            } else {
                proof {
                    lemma_ceil_div(p as int, denom as int);
                    // An inexact division means denom >= 2, so the floor
                    // leaves room for the +1 correction.
                    lemma_div_is_ordered_by_denominator(p as int, 2, denom as int);
                    lemma_div_is_ordered(p as int, u128::MAX as int, 2);
                }
                floor_q + 1
            }
        },
    };
    if q > u64::MAX as u128 {
        Err(AmmError::Overflow)
    } else {
        Ok(q as u64)
    }
}

/// Floor of the square root, total on the whole 128-bit unsigned domain.
/// The result always fits in 64 bits because the input fits in 128.
pub fn integer_sqrt(n: u128) -> (r: u64)
    ensures
        is_floor_sqrt(n as int, r as int),
{
    let mut lo: u128 = 0;
    let mut hi: u128 = 0x1_0000_0000_0000_0000;
    proof {
        assert((hi as int) * (hi as int) > u128::MAX as int) by (nonlinear_arith)
            requires
                hi == 0x1_0000_0000_0000_0000u128,
        ;
    }
    while lo + 1 < hi
        invariant
            lo < hi,
            hi <= 0x1_0000_0000_0000_0000u128,
            (lo as int) * (lo as int) <= n as int,
            (n as int) < (hi as int) * (hi as int),
        decreases hi - lo,
    {
        let mid: u128 = lo + (hi - lo) / 2;
        proof {
            assert(lo < mid && mid < hi);
            assert((mid as int) * (mid as int) <= u128::MAX) by (nonlinear_arith)
                requires
                    mid < 0x1_0000_0000_0000_0000u128,
            ;
        }
        if mid * mid <= n {
            lo = mid;
        } else {
            hi = mid;
        }
    }
    lo as u64
}

} // verus!
