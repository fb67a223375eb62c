//! How far a rounded result can lie from the exact one.

use crate::float::rounding::{
    below, exponent, lemma_below_mono, lemma_exponent_exists, lemma_pow2_at_least,
    lemma_pow2_up_pos, lemma_zero, nearest, pow2_up, rounded,
};
use crate::float::{integer, product, truncated, Float, Format};
use vstd::arithmetic::div_mod::lemma_fundamental_div_mod;
use vstd::arithmetic::power2::{
    lemma2_to64, lemma2_to64_rest, lemma_pow2_adds, lemma_pow2_pos, lemma_pow2_unfold, pow2,
};
use vstd::prelude::*;

verus! {

/// `man * 2^exp`, counted in units of `2^-3000`.
pub open spec fn units(man: nat, exp: int) -> nat {
    man * pow2((exp + 3000) as nat)
}

/// A bound at `f` is a bound on the exponent.
pub(crate) proof fn lemma_exponent_ceiling(n: nat, d: nat, x: int, format: Format, f: int)
    requires
        d > 0,
        format.min_exp() <= f,
        below(n, d, x, format.precision(), f),
    ensures
        exponent(n, d, x, format) <= f,
{
    lemma_exponent_exists(n, d, x, format);
    let e = exponent(n, d, x, format);
    if e > f {
        lemma_below_mono(n, d, x, format.precision(), f, e - 1);
    }
}

/// `2^k * 2^x` bounds anything with a numerator below `2^k`.
pub(crate) proof fn lemma_below_power(n: nat, d: nat, x: int, p: nat, e: int, k: nat)
    requires
        d > 0,
        n < pow2(k),
        k + x <= p + e,
        x <= e,
    ensures
        below(n, d, x, p, e),
{
    let s = (e - x) as nat;
    lemma2_to64();
    lemma_pow2_at_least(k, s + p);
    lemma_pow2_adds(s, p);
    lemma_pow2_pos(s + p);
    assert(pow2_up(x - e) == 1);
    let u = pow2(s);
    let w = pow2(p);
    assert(n * 1 < d * u * w) by (nonlinear_arith)
        requires
            n < u * w,
            d >= 1,
    ;
}

/// A positive numerator keeps the exponent above `x - p` less the size of the denominator.
pub(crate) proof fn lemma_exponent_floor(n: nat, d: nat, x: int, format: Format, k: nat)
    requires
        0 < d <= pow2(k),
        n > 0,
    ensures
        exponent(n, d, x, format) > x - format.precision() - k,
{
    lemma_exponent_exists(n, d, x, format);
    let p = format.precision();
    let e = exponent(n, d, x, format);
    if e <= x - p - k {
        lemma_pow2_at_least(p + k, (x - e) as nat);
        lemma_pow2_adds(p, k);
        let u = pow2((x - e) as nat);
        let w = pow2(p);
        let v = pow2(k);
        lemma_pow2_pos(p);
        assert(pow2_up(e - x) == 1) by {
            lemma2_to64();
        }
        assert(n * u >= d * 1 * w) by (nonlinear_arith)
            requires
                u >= w * v,
                d <= v,
                n >= 1,
                w >= 0,
        ;
    }
}

/// Away from the least exponent, rounding moves a number by at most half a unit in the last place.
pub(crate) proof fn lemma_rounded_close(n: nat, d: nat, x: int, format: Format)
    requires
        d > 0,
        x >= -2000,
        exponent(n, d, x, format) > format.min_exp(),
    ensures
        match rounded(false, n, d, x, format) {
            Float::Finite { neg, man, exp } => {
                &&& !neg
                &&& man < pow2(format.precision())
                &&& exponent(n, d, x, format) <= exp <= exponent(n, d, x, format) + 1
                &&& units(man as nat, exp as int) * d * pow2(format.precision()) <= units(n, x) * (
                pow2(format.precision()) + 1)
                &&& units(man as nat, exp as int) * d * pow2(format.precision()) >= units(n, x) * (
                pow2(format.precision()) - 1)
            },
            Float::Infinite { neg } => !neg && exponent(n, d, x, format) >= format.max_exp(),
            Float::NaN => false,
        },
{
    let p = format.precision();
    let w = pow2(p);
    lemma_exponent_exists(n, d, x, format);
    let e = exponent(n, d, x, format);
    let a = pow2_up(x - e);
    let b = pow2_up(e - x);
    lemma_pow2_up_pos(x - e);
    lemma_pow2_up_pos(e - x);
    lemma_pow2_pos(p);
    lemma2_to64();
    lemma2_to64_rest();
    let big = n * a;
    let den = d * b;
    assert(den > 0) by (nonlinear_arith)
        requires
            den == d * b,
            d > 0,
            b > 0,
    ;
    // Not below at the exponent before: the significand has its full width.
    assert(2 * big >= den * w) by {
        if x - e >= 0 {
            lemma_pow2_unfold((x - e + 1) as nat);
            assert(n * (2 * a) == 2 * big) by (nonlinear_arith)
                requires
                    big == n * a,
            ;
            assert(pow2_up(e - 1 - x) == 1);
            assert(b == 1);
        } else {
            let c = pow2_up(e - 1 - x);
            lemma_pow2_unfold((e - x) as nat);
            assert(b == 2 * c);
            assert(pow2_up(x - e + 1) == 1);
            assert(a == 1);
            assert(2 * (d * c * w) == d * (2 * c) * w) by (nonlinear_arith);
        }
    }
    let m = nearest(big, den);
    lemma_fundamental_div_mod(big as int, den as int);
    let q = big / den;
    let r = big % den;
    assert(2 * (m * den) <= 2 * big + den) by (nonlinear_arith)
        requires
            big == den * q + r,
            0 <= r < den,
            m == q || (m == q + 1 && 2 * r >= den),
    ;
    assert(m * den * w <= big * (w + 1)) by (nonlinear_arith)
        requires
            2 * (m * den) <= 2 * big + den,
            2 * big >= den * w,
            w > 0,
    ;
    assert(2 * (m * den) + den >= 2 * big) by (nonlinear_arith)
        requires
            big == den * q + r,
            0 <= r < den,
            (m == q && 2 * r <= den) || m == q + 1,
    ;
    assert(m * den * w >= big * (w - 1)) by (nonlinear_arith)
        requires
            2 * (m * den) + den >= 2 * big,
            2 * big >= den * w,
            w > 0,
    ;
    assert(q < w) by (nonlinear_arith)
        requires
            big == den * q + r,
            0 <= r,
            big < den * w,
            den > 0,
    ;
    // The same, in units.
    let g = pow2((e + 3000) as nat);
    let h = pow2((x + 3000) as nat);
    assert(a * g == b * h) by {
        if x >= e {
            lemma_pow2_adds((x - e) as nat, (e + 3000) as nat);
            assert(h == a * g && b == 1);
            assert(1 * h == h);
        } else {
            lemma_pow2_adds((e - x) as nat, (x + 3000) as nat);
            assert(g == b * h && a == 1);
            assert(1 * g == g);
        }
    }
    lemma_pow2_pos((e + 3000) as nat);
    assert((m * g) * d * w <= (n * h) * (w + 1)) by {
        let lhs = (m * g) * d * w;
        let rhs = (n * h) * (w + 1);
        assert(lhs * den == (m * den * w) * (g * d)) by (nonlinear_arith)
            requires
                lhs == (m * g) * d * w,
        ;
        assert(rhs * den == (big * (w + 1)) * (g * d)) by (nonlinear_arith)
            requires
                rhs == (n * h) * (w + 1),
                den == d * b,
                big == n * a,
                a * g == b * h,
        ;
        assert((m * den * w) * (g * d) <= (big * (w + 1)) * (g * d)) by (nonlinear_arith)
            requires
                m * den * w <= big * (w + 1),
                g * d >= 0,
        ;
        assert(lhs <= rhs) by (nonlinear_arith)
            requires
                lhs * den <= rhs * den,
                den > 0,
        ;
    }
    assert((m * g) * d * w >= (n * h) * (w - 1)) by {
        let lhs = (m * g) * d * w;
        let rhs = (n * h) * (w - 1);
        assert(lhs * den == (m * den * w) * (g * d)) by (nonlinear_arith)
            requires
                lhs == (m * g) * d * w,
        ;
        assert(rhs * den == (big * (w - 1)) * (g * d)) by (nonlinear_arith)
            requires
                rhs == (n * h) * (w - 1),
                den == d * b,
                big == n * a,
                a * g == b * h,
        ;
        assert((m * den * w) * (g * d) >= (big * (w - 1)) * (g * d)) by (nonlinear_arith)
            requires
                m * den * w >= big * (w - 1),
                g * d >= 0,
        ;
        assert(lhs >= rhs) by (nonlinear_arith)
            requires
                lhs * den >= rhs * den,
                den > 0,
        ;
    }
    // A carry leaves the value as it is.
    lemma_pow2_unfold(p);
    lemma_pow2_unfold((e + 3001) as nat);
    let half = pow2((p - 1) as nat);
    assert(half * (2 * g) == (2 * half) * g) by (nonlinear_arith);
}

/// Truncation does not go up, and down by less than one.
pub(crate) proof fn lemma_truncated_units(man: u64, exp: i32)
    requires
        -2000 <= exp <= 2000,
    ensures
        truncated(Float::Finite { neg: false, man, exp }) * pow2(3000) <= units(
            man as nat,
            exp as int,
        ),
        truncated(Float::Finite { neg: false, man, exp }) == u64::MAX || (truncated(
            Float::Finite { neg: false, man, exp },
        ) + 1) * pow2(3000) > units(man as nat, exp as int),
{
    let a = pow2_up(exp as int);
    let b = pow2_up(-exp);
    let t = truncated(Float::Finite { neg: false, man, exp });
    let g = pow2(3000);
    let h = pow2((exp + 3000) as nat);
    lemma2_to64();
    lemma_pow2_up_pos(exp as int);
    lemma_pow2_up_pos(-exp);
    lemma_pow2_pos(3000);
    assert(a * g == b * h) by {
        if exp >= 0 {
            lemma_pow2_adds(exp as nat, 3000);
        } else {
            lemma_pow2_adds((-exp) as nat, (exp + 3000) as nat);
        }
    }
    lemma_fundamental_div_mod((man * a) as int, b as int);
    let whole = (man * a) / (b as int);
    let rest = (man * a) % (b as int);
    assert(whole >= 0) by (nonlinear_arith)
        requires
            man * a == b * whole + rest,
            0 <= rest < b,
            man * a >= 0,
            b > 0,
    ;
    assert(t <= whole);
    assert(t * g <= man * h) by (nonlinear_arith)
        requires
            t <= whole,
            man * a == b * whole + rest,
            0 <= rest,
            a * g == b * h,
            b > 0,
            g > 0,
    ;
    assert((whole + 1) * g > man * h) by (nonlinear_arith)
        requires
            man * a == b * whole + rest,
            0 <= rest < b,
            a * g == b * h,
            b > 0,
            g > 0,
    {
        assert((man * a) * g < ((whole + 1) * b) * g);
        assert((man * a) * g == man * (a * g));
        assert(man * (b * h) == b * (man * h));
        assert(((whole + 1) * b) * g == b * ((whole + 1) * g));
    }
}

/// The product of two powers of two in units.
proof fn lemma_units_shift(man: nat, exp: int, k: nat)
    requires
        exp - k >= -3000,
    ensures
        units(man, exp - k) * pow2(k) == units(man, exp),
{
    lemma_pow2_adds((exp - k + 3000) as nat, k);
    let a = pow2((exp - k + 3000) as nat);
    let b = pow2(k);
    assert(man * a * b == man * (a * b)) by (nonlinear_arith);
}

/// A positive integer, rounded.
pub(crate) proof fn lemma_integer_close(n: u64, format: Format)
    requires
        n > 0,
    ensures
        match integer(n as nat, format) {
            Float::Finite { neg, man, exp } => {
                let w = pow2(format.precision());
                &&& !neg
                &&& man < w
                &&& -format.precision() < exp <= 65
                &&& units(man as nat, exp as int) * w <= units(n as nat, 0) * (w + 1)
                &&& units(man as nat, exp as int) * w >= units(n as nat, 0) * (w - 1)
            },
            _ => false,
        },
{
    let p = format.precision();
    lemma2_to64();
    lemma_exponent_floor(n as nat, 1, 0, format, 0);
    lemma_below_power(n as nat, 1, 0, p, 64, 64);
    lemma_exponent_ceiling(n as nat, 1, 0, format, 64);
    lemma_rounded_close(n as nat, 1, 0, format);
    match integer(n as nat, format) {
        Float::Finite { neg, man, exp } => {
            let u = units(man as nat, exp as int);
            assert(u * 1 == u);
        },
        _ => {},
    }
}

/// A positive number of moderate size, multiplied by a rounded integer.
proof fn lemma_multiplied_close(man: u64, exp: i32, m: u64, e: i32, format: Format)
    requires
        0 < man < 0x100_0000,
        -40 <= exp <= 0,
        0 < m < pow2(format.precision()),
        -format.precision() < e <= 65,
    ensures
        match rounded(false, (man * m) as nat, 1, exp + e, format) {
            Float::Finite { neg, man: mp, exp: ep } => {
                let w = pow2(format.precision());
                &&& !neg
                &&& mp < w
                &&& -200 <= ep <= 90
                &&& units(mp as nat, ep as int) * pow2((-exp) as nat) * w <= man * units(
                    m as nat,
                    e as int,
                ) * (w + 1)
                &&& units(mp as nat, ep as int) * pow2((-exp) as nat) * w >= man * units(
                    m as nat,
                    e as int,
                ) * (w - 1)
            },
            _ => false,
        },
{
    let p = format.precision();
    let w = pow2(p);
    let n = (man * m) as nat;
    let x = exp + e;
    let k = (-exp) as nat;
    lemma2_to64();
    lemma_pow2_pos(k);
    assert(n > 0) by (nonlinear_arith)
        requires
            n == man * m,
            man > 0,
            m > 0,
    ;
    lemma_pow2_adds(24, p);
    assert(n < pow2(24) * w) by (nonlinear_arith)
        requires
            n == man * m,
            man < pow2(24),
            0 < m < w,
    ;
    lemma_exponent_floor(n, 1, x, format, 0);
    lemma_below_power(n, 1, x, p, 89, 24 + p);
    lemma_exponent_ceiling(n, 1, x, format, 89);
    lemma_rounded_close(n, 1, x, format);
    match rounded(false, n, 1, x, format) {
        Float::Finite { neg, man: mp, exp: ep } => {
            let u = units(mp as nat, ep as int);
            let v = units(n, x);
            let f = units(m as nat, e as int);
            let b = pow2(k);
            assert(u * 1 == u);
            lemma_units_shift(n, e as int, k);
            let g = pow2((e + 3000) as nat);
            assert(n * g == man * (m * g)) by (nonlinear_arith)
                requires
                    n == man * m,
            ;
            assert(v * b == man * f);
            assert(u * b * w <= man * f * (w + 1)) by (nonlinear_arith)
                requires
                    u * w <= v * (w + 1),
                    v * b == man * f,
                    b > 0,
            ;
            assert(u * b * w >= man * f * (w - 1)) by (nonlinear_arith)
                requires
                    u * w >= v * (w - 1),
                    v * b == man * f,
                    b > 0,
            {
                assert((u * w) * b >= (v * (w - 1)) * b);
                assert((u * w) * b == u * b * w);
                assert((v * (w - 1)) * b == (v * b) * (w - 1));
            }
        },
        _ => {},
    }
}

/// A positive integer has a positive lower bound.
proof fn lemma_units_positive(n: nat, w: nat)
    requires
        n > 0,
        w > 1,
    ensures
        units(n, 0) * (w - 1) > 0,
{
    lemma_pow2_pos(3000);
    let g = pow2(3000);
    assert(n * g > 0) by (nonlinear_arith)
        requires
            n > 0,
            g > 0,
    ;
    let v = n * g;
    assert(v * (w - 1) > 0) by (nonlinear_arith)
        requires
            v > 0,
            w > 1,
    ;
}

/// An integer, multiplied by a positive number of moderate size: two roundings.
pub(crate) proof fn lemma_scaled_close(man: u64, exp: i32, n: u64, format: Format)
    requires
        0 < man < 0x100_0000,
        -40 <= exp <= 0,
    ensures
        match product(
            Float::Finite { neg: false, man, exp },
            integer(n as nat, format),
            format,
        ) {
            Float::Finite { neg, man: m, exp: e } => {
                let w = pow2(format.precision());
                &&& !neg
                &&& m < w
                &&& m > 0 ==> -200 <= e <= 90
                &&& -1200 <= e <= 1200
                &&& units(m as nat, e as int) * pow2((-exp) as nat) * (w * w) <= man * units(
                    n as nat,
                    0,
                ) * ((w + 1) * (w + 1))
                &&& units(m as nat, e as int) * pow2((-exp) as nat) * (w * w) >= man * units(
                    n as nat,
                    0,
                ) * ((w - 1) * (w - 1))
            },
            _ => false,
        },
{
    let p = format.precision();
    let w = pow2(p);
    let b = pow2((-exp) as nat);
    lemma_pow2_pos(p);
    lemma2_to64();
    lemma2_to64_rest();
    if n == 0 {
        lemma_zero(1, 0, format);
    } else {
        lemma_integer_close(n, format);
    }
    match integer(n as nat, format) {
        Float::Finite { neg, man: m, exp: e } => {
            let f = units(m as nat, e as int);
            if m == 0 {
                assert(man * 0 == 0);
                lemma_zero(1, exp + e, format);
                let g = pow2((format.min_exp() + 3000) as nat);
                assert(0 * g == 0) by (nonlinear_arith);
                assert(0 * b == 0 && 0 * (w * w) == 0) by (nonlinear_arith);
                assert(n == 0) by {
                    if n != 0 {
                        lemma_units_positive(n as nat, w);
                        assert(0 * pow2((e + 3000) as nat) == 0);
                        assert(0 * w == 0);
                    }
                }
                assert(0 * pow2((0 + 3000) as nat) == 0);
                assert(man * 0 == 0);
                assert(0 * ((w + 1) * (w + 1)) == 0);
                assert(0 * ((w - 1) * (w - 1)) == 0);
            } else {
                lemma_multiplied_close(man, exp, m, e, format);
                match rounded(false, (man * m) as nat, 1, exp + e, format) {
                    Float::Finite { neg: _, man: mp, exp: ep } => {
                        let u = units(mp as nat, ep as int);
                        let v = units(n as nat, 0);
                        assert(u * b * (w * w) <= man * v * ((w + 1) * (w + 1))) by (nonlinear_arith)
                            requires
                                u * b * w <= man * f * (w + 1),
                                f * w <= v * (w + 1),
                                w > 0,
                                man > 0,
                                u >= 0,
                                b >= 0,
                                v >= 0,
                                f >= 0,
                        {
                            let l = u * b * w;
                            let r = man * f * (w + 1);
                            assert(l * w <= r * w);
                            assert(r * w == man * (f * w) * (w + 1));
                            assert(man * (f * w) * (w + 1) <= man * (v * (w + 1)) * (w + 1));
                        }
                        assert(u * b * (w * w) >= man * v * ((w - 1) * (w - 1))) by (nonlinear_arith)
                            requires
                                u * b * w >= man * f * (w - 1),
                                f * w >= v * (w - 1),
                                w > 0,
                                man > 0,
                                v >= 0,
                                f >= 0,
                        {
                            let l = u * b * w;
                            let r = man * f * (w - 1);
                            assert(l * w >= r * w);
                            assert(r * w == (man * (w - 1)) * (f * w));
                            assert((man * (w - 1)) * (f * w) >= (man * (w - 1)) * (v * (w - 1)));
                            assert((man * (w - 1)) * (v * (w - 1)) == man * v * ((w - 1) * (w - 1)));
                            assert(l * w == u * b * (w * w));
                        }
                    },
                    _ => {},
                }
            }
        },
        _ => {},
    }
}

/// A number divided by one million.
pub(crate) proof fn lemma_quotient_close(man: u64, exp: i32)
    requires
        man < pow2(53),
        man > 0 ==> -200 <= exp <= 90,
        -1200 <= exp <= 1200,
    ensures
        match rounded(false, man as nat, 1_000_000, exp as int, Format::Double) {
            Float::Finite { neg, man: m, exp: e } => {
                &&& !neg
                &&& -1200 <= e <= 1200
                &&& units(m as nat, e as int) * 1_000_000 * pow2(53) <= units(
                    man as nat,
                    exp as int,
                ) * (pow2(53) + 1)
                &&& units(m as nat, e as int) * 1_000_000 * pow2(53) >= units(
                    man as nat,
                    exp as int,
                ) * (pow2(53) - 1)
            },
            _ => false,
        },
{
    let format = Format::Double;
    lemma2_to64();
    lemma2_to64_rest();
    if man == 0 {
        lemma_zero(1_000_000, exp as int, format);
        assert(0 * pow2((exp + 3000) as nat) == 0);
        assert(0 * pow2((format.min_exp() + 3000) as nat) == 0);
    } else {
        lemma_exponent_floor(man as nat, 1_000_000, exp as int, format, 20);
        lemma_below_power(man as nat, 1_000_000, exp as int, 53, 90, 53);
        lemma_exponent_ceiling(man as nat, 1_000_000, exp as int, format, 90);
        lemma_rounded_close(man as nat, 1_000_000, exp as int, format);
    }
}

} // verus!
