//! Integers of 64 bits.

use vstd::arithmetic::div_mod::lemma_fundamental_div_mod;
use vstd::prelude::*;

verus! {

/// The smaller of `a` and `b`.
#[verifier::allow_in_spec]
pub fn min(a: u64, b: u64) -> u64
    returns
        (if a <= b {
            a
        } else {
            b
        }),
{
    if a <= b {
        a
    } else {
        b
    }
}

/// The larger of `a` and `b`.
#[verifier::allow_in_spec]
pub fn max(a: u64, b: u64) -> u64
    returns
        (if a >= b {
            a
        } else {
            b
        }),
{
    if a >= b {
        a
    } else {
        b
    }
}

/// `a * b`, or the largest integer where that is beyond it.
#[verifier::allow_in_spec]
pub fn saturating_mul(a: u64, b: u64) -> u64
    returns
        (if a * b > u64::MAX {
            u64::MAX
        } else {
            (a * b) as u64
        }),
{
    assert(a * b <= 0xffff_ffff_ffff_ffff * 0xffff_ffff_ffff_ffff) by (nonlinear_arith)
        requires
            0 <= a <= 0xffff_ffff_ffff_ffff,
            0 <= b <= 0xffff_ffff_ffff_ffff,
    ;
    let wide: u128 = a as u128 * b as u128;
    if wide > u64::MAX as u128 {
        u64::MAX
    } else {
        wide as u64
    }
}

/// `r` is `num / den`, rounded down.
pub open spec fn quotient_of(r: int, num: int, den: int) -> bool {
    r * den <= num < (r + 1) * den
}

/// A quotient rounded down is one.
pub(crate) proof fn lemma_quotient_of(num: int, den: int)
    requires
        den > 0,
        num >= 0,
    ensures
        quotient_of(num / den, num, den),
        num / den >= 0,
{
    lemma_fundamental_div_mod(num, den);
    let q = num / den;
    let r = num % den;
    assert(den * q == q * den) by (nonlinear_arith);
    assert((q + 1) * den == q * den + den) by (nonlinear_arith);
    assert(q >= 0) by (nonlinear_arith)
        requires
            num == q * den + r,
            0 <= r < den,
            num >= 0,
    ;
}

/// The smaller and the larger of two integers are no larger and no smaller than either, and one of
/// them; a product is exact up to the largest integer, and that beyond it.
pub proof fn lemma_integers(a: u64, b: u64)
    ensures
        min(a, b) <= a && min(a, b) <= b,
        min(a, b) == a || min(a, b) == b,
        max(a, b) >= a && max(a, b) >= b,
        max(a, b) == a || max(a, b) == b,
        min(a, b) + max(a, b) == a + b,
        a * b <= u64::MAX ==> saturating_mul(a, b) == a * b,
        a * b > u64::MAX ==> saturating_mul(a, b) == u64::MAX,
{
    assert(a * b >= 0) by (nonlinear_arith)
        requires
            a >= 0,
            b >= 0,
    ;
}

} // verus!
