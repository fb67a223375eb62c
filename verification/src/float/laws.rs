//! What the standard says of formats, rounding and special values.

use crate::float::rounding::nearest;
use crate::float::{complement, less, product, quotient, truncated, Float, Format, F32};
use vstd::arithmetic::div_mod::lemma_fundamental_div_mod;
use vstd::prelude::*;

verus! {

/// Rounding is to the nearest integer: no more than half away, and to an even one from exactly half.
pub proof fn lemma_rounding_is_to_nearest_even(n: nat, d: nat)
    requires
        d > 0,
    ensures
        ({
            let off = n - nearest(n, d) * d;
            &&& -(d as int) <= 2 * off <= d
            &&& 2 * off == d || 2 * off == -d ==> nearest(n, d) % 2 == 0
        }),
{
    lemma_fundamental_div_mod(n as int, d as int);
    let q = n / d;
    let r = n % d;
    assert(d * q == q * d) by (nonlinear_arith);
    assert((q + 1) * d == q * d + d) by (nonlinear_arith);
    assert(n - q * d == r);
    assert(n - (q + 1) * d == r - d);
}

/// Single precision has 24 significant bits and counts in steps from 2^-149 to 2^104, double precision
/// 53 bits and steps from 2^-1074 to 2^971.
pub proof fn lemma_formats()
    ensures
        Format::Single.precision() == 24,
        Format::Single.min_exp() == -149,
        Format::Single.max_exp() == 104,
        Format::Double.precision() == 53,
        Format::Double.min_exp() == -1074,
        Format::Double.max_exp() == 971,
{
}

/// What a bit pattern of single precision stands for: a sign, eight bits of exponent and 23 bits of
/// fraction, with the leading bit implied but for the smallest exponent; the largest exponent is for the
/// infinities and for what is no number.
pub proof fn lemma_bit_patterns(neg: bool, field: u32, fraction: u32)
    requires
        field <= 0xff,
        fraction < 0x80_0000,
    ensures
        ({
            let sign: int = if neg {
                0x8000_0000
            } else {
                0
            };
            let x = (F32 { bits: (sign + field * 0x80_0000 + fraction) as u32 }).value();
            &&& 0 < field < 0xff ==> x == Float::Finite {
                neg,
                man: (0x80_0000 + fraction) as u64,
                exp: (field - 150) as i32,
            }
            &&& field == 0 ==> x == Float::Finite { neg, man: fraction as u64, exp: -149i32 }
            &&& field == 0xff && fraction == 0 ==> x == Float::Infinite { neg }
            &&& field == 0xff && fraction > 0 ==> x == Float::NaN
        }),
{
    let sign: int = if neg {
        0x8000_0000
    } else {
        0
    };
    let bits = (sign + field * 0x80_0000 + fraction) as u32;
    assert(bits % 0x80_0000 == fraction);
    assert((bits / 0x80_0000) % 0x100 == field);
}

/// What is no number stays none, compares with nothing and counts as zero. An integer part is never
/// negative, and the largest integer stands for all beyond it.
pub proof fn lemma_special_values(a: Float, format: Format)
    ensures
        product(Float::NaN, a, format) == Float::NaN,
        product(a, Float::NaN, format) == Float::NaN,
        quotient(Float::NaN, a, format) == Float::NaN,
        quotient(a, Float::NaN, format) == Float::NaN,
        complement(Float::NaN, format) == Float::NaN,
        !less(Float::NaN, a),
        !less(a, Float::NaN),
        !less(a, a),
        truncated(Float::NaN) == 0,
        truncated(Float::Infinite { neg: true }) == 0,
        truncated(Float::Infinite { neg: false }) == u64::MAX,
        a matches Float::Finite { neg: true, .. } ==> truncated(a) == 0,
        a matches Float::Finite { .. } ==> less(Float::Infinite { neg: true }, a) && less(
            a,
            Float::Infinite { neg: false },
        ),
        a matches Float::Finite { man, .. } && man > 0 ==> quotient(
            a,
            Float::Finite { neg: false, man: 0, exp: 0 },
            format,
        ) is Infinite,
{
}

} // verus!
