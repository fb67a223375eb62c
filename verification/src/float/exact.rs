//! Results that the format holds, which come out without rounding.

use crate::float::bounds::lemma_exponent_ceiling;
use crate::float::rounding::{
    below, exponent, lemma_exponent_exists, lemma_rescaled, nearest, pow2_up, rounded,
};
use crate::float::{integer, product, truncated, Float, Format};
use vstd::arithmetic::div_mod::lemma_div_multiples_vanish_quotient;
use vstd::arithmetic::power2::{
    lemma2_to64, lemma2_to64_rest, lemma_pow2_adds, lemma_pow2_pos, pow2,
};
use vstd::prelude::*;

verus! {

/// `n * 2^x` with a significand that fits is held as it is, at an exponent of at most `x`.
proof fn lemma_held(n: nat, x: int, format: Format)
    requires
        n < pow2(format.precision()),
        format.min_exp() <= x <= 0,
    ensures
        ({
            let e = exponent(n, 1, x, format);
            let m = n * pow2((x - e) as nat);
            &&& format.min_exp() <= e <= x
            &&& m < pow2(format.precision())
            &&& rounded(false, n, 1, x, format) == (Float::Finite {
                neg: false,
                man: m as u64,
                exp: e as i32,
            })
        }),
{
    let p = format.precision();
    lemma2_to64();
    lemma2_to64_rest();
    assert(pow2_up(0) == 1);
    let w = pow2(p);
    assert(n * 1 < 1 * 1 * w) by (nonlinear_arith)
        requires
            n < w,
    ;
    assert(below(n, 1, x, p, x));
    lemma_exponent_ceiling(n, 1, x, format, x);
    lemma_exponent_exists(n, 1, x, format);
    let e = exponent(n, 1, x, format);
    assert(pow2_up(e - x) == 1);
    let m = n * pow2((x - e) as nat);
    assert(1 * 1 * w == w);
    assert(m < w);
    assert(nearest(m, 1) == m);
}

/// The integer part of `v * a` over `a * b` is that of `v` over `b`.
proof fn lemma_truncated_held(v: nat, x: int, e: int)
    requires
        e <= x <= 0,
        v * pow2((x - e) as nat) <= u64::MAX,
        -2000 <= e,
    ensures
        truncated(
            Float::Finite { neg: false, man: (v * pow2((x - e) as nat)) as u64, exp: e as i32 },
        ) == v / pow2((-x) as nat),
{
    lemma2_to64();
    let a = pow2((x - e) as nat);
    let b = pow2((-x) as nat);
    lemma_pow2_pos((x - e) as nat);
    lemma_pow2_pos((-x) as nat);
    lemma_pow2_adds((x - e) as nat, (-x) as nat);
    let man = v * a;
    assert(pow2_up(e) == 1);
    assert(man * 1 == man);
    assert(pow2_up(-e) == a * b);
    lemma_div_multiples_vanish_quotient(a as int, v as int, b as int);
    assert(v * a == a * v) by (nonlinear_arith);
    assert((v * a) / (a * b) == v / b);
    assert(v / b <= v * a) by (nonlinear_arith)
        requires
            a > 0,
            b > 0,
    {
        assert(v / b <= v);
        assert(v <= v * a);
    }
}

/// `o * 2^(z + exp)` times an integer, where the format holds `o * n`: the product, rounded down.
pub proof fn lemma_scaled_exact(o: nat, z: nat, man: u64, exp: i32, n: u64, format: Format)
    requires
        o > 0,
        man == o * pow2(z),
        -60 <= exp,
        exp + z <= 0,
        o * n < pow2(format.precision()),
    ensures
        truncated(
            product(Float::Finite { neg: false, man, exp }, integer(n as nat, format), format),
        ) == (o * n) / (pow2((-exp - z) as nat) as int),
{
    let p = format.precision();
    lemma2_to64();
    lemma2_to64_rest();
    let nn = n as nat;
    assert(nn <= o * n) by (nonlinear_arith)
        requires
            o >= 1,
            nn == n,
    ;
    lemma_held(nn, 0, format);
    let e = exponent(nn, 1, 0, format);
    let j = (-e) as nat;
    let mb = (nn * pow2(j)) as u64;
    assert(integer(nn, format) == (Float::Finite { neg: false, man: mb, exp: e as i32 }));
    let v = (o * n) as nat;
    lemma_pow2_adds(z, j);
    let a = pow2(z);
    let b = pow2(j);
    assert((o * a) * (nn * b) == v * (a * b)) by (nonlinear_arith)
        requires
            v == o * nn,
    ;
    let x = exp + z;
    lemma_rescaled(false, v, 1, x, z + j, format);
    assert(product(
        Float::Finite { neg: false, man, exp },
        integer(nn, format),
        format,
    ) == rounded(false, v, 1, x, format));
    lemma_held(v, x, format);
    lemma_truncated_held(v, x, exponent(v, 1, x, format));
}

} // verus!
