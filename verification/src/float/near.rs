//! What floating-point results are in terms of integers: a product or a quotient rounded down, to one
//! part in many.

use crate::float::bounds::{
    lemma_quotient_close, lemma_scaled_close, lemma_truncated_units, units,
};
use crate::float::scaling::{scaled, scaled_per_million};
use crate::float::rounding::rounded;
use crate::float::{integer, product, truncated, Float, Format, F32};
use vstd::arithmetic::power2::{lemma2_to64, lemma2_to64_rest, lemma_pow2_pos, pow2};
use vstd::prelude::*;

verus! {

/// `t` is `num / den`, rounded down, to one part in `parts`, or the largest integer where that is
/// beyond it.
pub open spec fn near(t: u64, num: int, den: int, parts: int) -> bool {
    &&& t * den * parts <= num * (parts + 1)
    &&& t == u64::MAX || (t + 1) * den * parts > num * (parts - 1)
}

/// An integer times `man * 2^exp`, rounded down, up to two roundings of the format.
pub(crate) proof fn lemma_scaled_raw(man: u64, exp: i32, n: u64, format: Format)
    requires
        0 < man < 0x100_0000,
        -40 <= exp <= 0,
    ensures
        ({
            let t = truncated(
                product(Float::Finite { neg: false, man, exp }, integer(n as nat, format), format),
            );
            let w = pow2(format.precision());
            let d = pow2((-exp) as nat);
            &&& t * d * (w * w) <= man * n * ((w + 1) * (w + 1))
            &&& t == u64::MAX || (t + 1) * d * (w * w) > man * n * ((w - 1) * (w - 1))
        }),
{
    let w = pow2(format.precision());
    let d = pow2((-exp) as nat);
    let g = pow2(3000);
    lemma_pow2_pos(format.precision());
    lemma_pow2_pos((-exp) as nat);
    lemma_pow2_pos(3000);
    lemma_scaled_close(man, exp, n, format);
    match product(Float::Finite { neg: false, man, exp }, integer(n as nat, format), format) {
        Float::Finite { neg, man: m, exp: e } => {
            lemma_truncated_units(m, e);
            let t = truncated(Float::Finite { neg: false, man: m, exp: e });
            let u = units(m as nat, e as int);
            let above = (w + 1) * (w + 1);
            let below = (w - 1) * (w - 1);
            let c = d * (w * w);
            assert(c > 0) by (nonlinear_arith)
                requires
                    c == d * (w * w),
                    d > 0,
                    w > 0,
            ;
            assert(u * d * (w * w) == u * c) by (nonlinear_arith)
                requires
                    c == d * (w * w),
            ;
            assert(t * c <= man * n * above) by (nonlinear_arith)
                requires
                    t * g <= u,
                    u * c <= man * (n * g) * above,
                    c > 0,
                    g > 0,
            {
                assert((t * g) * c <= u * c);
                assert((t * g) * c == (t * c) * g);
                assert(man * (n * g) * above == (man * n * above) * g);
            }
            assert(t * d * (w * w) == t * c) by (nonlinear_arith)
                requires
                    c == d * (w * w),
            ;
            if t != u64::MAX {
                assert((t + 1) * c > man * n * below) by (nonlinear_arith)
                    requires
                        (t + 1) * g > u,
                        u * c >= man * (n * g) * below,
                        c > 0,
                        g > 0,
                {
                    assert(((t + 1) * g) * c > u * c);
                    assert(((t + 1) * g) * c == ((t + 1) * c) * g);
                    assert(man * (n * g) * below == (man * n * below) * g);
                }
                assert((t + 1) * d * (w * w) == (t + 1) * c) by (nonlinear_arith)
                    requires
                        c == d * (w * w),
                ;
            }
        },
        _ => {},
    }
}

/// An integer times `factor`, over a million, rounded down, up to three roundings of double
/// precision.
pub(crate) proof fn lemma_per_million_raw(factor: F32, n: u64)
    requires
        factor.is_moderate(),
    ensures
        match factor.value() {
            Float::Finite { neg, man, exp } => {
                let t = scaled_per_million(factor, n);
                let w = pow2(53);
                let d = pow2((-exp) as nat);
                &&& t * 1_000_000 * d * (w * (w * w)) <= man * n * ((w + 1) * ((w + 1) * (w + 1)))
                &&& t == u64::MAX || (t + 1) * 1_000_000 * d * (w * (w * w)) > man * n * ((w - 1) * ((
                w - 1) * (w - 1)))
            },
            _ => false,
        },
{
    let w = pow2(53);
    let g = pow2(3000);
    lemma2_to64();
    lemma2_to64_rest();
    lemma_pow2_pos(3000);
    match factor.value() {
        Float::Finite { neg, man, exp } => {
            let d = pow2((-exp) as nat);
            lemma_pow2_pos((-exp) as nat);
            lemma_scaled_close(man, exp, n, Format::Double);
            match product(factor.value(), integer(n as nat, Format::Double), Format::Double) {
                Float::Finite { neg: _, man: m, exp: e } => {
                    lemma_quotient_close(m, e);
                    match rounded(false, m as nat, 1_000_000, e as int, Format::Double) {
                        Float::Finite { neg: _, man: mq, exp: eq } => {
                            lemma_truncated_units(mq, eq);
                            lemma_million_above(
                                truncated(Float::Finite { neg: false, man: mq, exp: eq }) as nat,
                                units(mq as nat, eq as int),
                                units(m as nat, e as int),
                                w,
                                d,
                                g,
                                man as nat,
                                n as nat,
                            );
                            let t = truncated(Float::Finite { neg: false, man: mq, exp: eq });
                            if t != u64::MAX {
                                lemma_million_below(
                                    t as nat,
                                    units(mq as nat, eq as int),
                                    units(m as nat, e as int),
                                    w,
                                    d,
                                    g,
                                    man as nat,
                                    n as nat,
                                );
                            }
                        },
                        _ => {},
                    }
                },
                _ => {},
            }
        },
        _ => {},
    }
}

proof fn lemma_million_above(t: nat, q: nat, u: nat, w: nat, d: nat, g: nat, man: nat, n: nat)
    requires
        t * g <= q,
        q * 1_000_000 * w <= u * (w + 1),
        u * d * (w * w) <= man * (n * g) * ((w + 1) * (w + 1)),
        w > 0,
        d > 0,
        g > 0,
    ensures
        t * 1_000_000 * d * (w * (w * w)) <= man * n * ((w + 1) * ((w + 1) * (w + 1))),
{
    let v = w + 1;
    let c = d * (w * w);
    let k = 1_000_000 * w * c;
    let l = t * 1_000_000 * d * (w * (w * w));
    let r = man * n * (v * (v * v));
    assert(l * g == (t * g) * k) by (nonlinear_arith)
        requires
            l == t * 1_000_000 * d * (w * (w * w)),
            k == 1_000_000 * w * c,
            c == d * (w * w),
    ;
    assert((t * g) * k <= q * k) by (nonlinear_arith)
        requires
            t * g <= q,
            k >= 0,
    ;
    assert(q * k == (q * 1_000_000 * w) * c) by (nonlinear_arith)
        requires
            k == 1_000_000 * w * c,
    ;
    assert((q * 1_000_000 * w) * c <= (u * v) * c) by (nonlinear_arith)
        requires
            q * 1_000_000 * w <= u * v,
            c >= 0,
    ;
    assert((u * v) * c == (u * d * (w * w)) * v) by (nonlinear_arith)
        requires
            c == d * (w * w),
    ;
    assert((u * d * (w * w)) * v <= (man * (n * g) * (v * v)) * v) by (nonlinear_arith)
        requires
            u * d * (w * w) <= man * (n * g) * (v * v),
            v >= 0,
    ;
    assert((man * (n * g) * (v * v)) * v == r * g) by (nonlinear_arith)
        requires
            r == man * n * (v * (v * v)),
    ;
    assert(l <= r) by (nonlinear_arith)
        requires
            l * g <= r * g,
            g > 0,
    ;
}

proof fn lemma_million_below(t: nat, q: nat, u: nat, w: nat, d: nat, g: nat, man: nat, n: nat)
    requires
        (t + 1) * g > q,
        q * 1_000_000 * w >= u * (w - 1),
        u * d * (w * w) >= man * (n * g) * ((w - 1) * (w - 1)),
        w > 0,
        d > 0,
        g > 0,
    ensures
        (t + 1) * 1_000_000 * d * (w * (w * w)) > man * n * ((w - 1) * ((w - 1) * (w - 1))),
{
    let v = w - 1;
    let c = d * (w * w);
    let s = t + 1;
    let l = s * 1_000_000 * d * (w * (w * w));
    let r = man * n * (v * (v * v));
    assert(c > 0) by (nonlinear_arith)
        requires
            c == d * (w * w),
            d > 0,
            w > 0,
    ;
    let k = 1_000_000 * w * c;
    assert(k > 0) by (nonlinear_arith)
        requires
            k == 1_000_000 * w * c,
            c > 0,
            w > 0,
    ;
    assert(l * g == (s * g) * k) by (nonlinear_arith)
        requires
            l == s * 1_000_000 * d * (w * (w * w)),
            k == 1_000_000 * w * c,
            c == d * (w * w),
    ;
    assert((s * g) * k > q * k) by (nonlinear_arith)
        requires
            s * g > q,
            k > 0,
    ;
    assert(q * k == (q * 1_000_000 * w) * c) by (nonlinear_arith)
        requires
            k == 1_000_000 * w * c,
    ;
    assert((q * 1_000_000 * w) * c >= (u * v) * c) by (nonlinear_arith)
        requires
            q * 1_000_000 * w >= u * v,
            c > 0,
    ;
    assert((u * v) * c == (u * d * (w * w)) * v) by (nonlinear_arith)
        requires
            c == d * (w * w),
    ;
    assert((u * d * (w * w)) * v >= (man * (n * g) * (v * v)) * v) by (nonlinear_arith)
        requires
            u * d * (w * w) >= man * (n * g) * (v * v),
            v >= 0,
    ;
    assert((man * (n * g) * (v * v)) * v == r * g) by (nonlinear_arith)
        requires
            r == man * n * (v * (v * v)),
    ;
    assert(l > r) by (nonlinear_arith)
        requires
            l * g > r * g,
            g > 0,
    ;
}

/// An integer times `man * 2^exp`, rounded down, in single precision.
pub proof fn lemma_single_product(man: u64, exp: i32, n: u64)
    requires
        0 < man < 0x100_0000,
        -40 <= exp <= 0,
    ensures
        near(
            truncated(
                product(
                    Float::Finite { neg: false, man, exp },
                    integer(n as nat, Format::Single),
                    Format::Single,
                ),
            ),
            man * n,
            pow2((-exp) as nat) as int,
            4_000_000,
        ),
{
    lemma2_to64();
    lemma_scaled_raw(man, exp, n, Format::Single);
    assert(man * n >= 0) by (nonlinear_arith);
    lemma_near_from_parts(
        truncated(
            product(
                Float::Finite { neg: false, man, exp },
                integer(n as nat, Format::Single),
                Format::Single,
            ),
        ),
        man * n,
        pow2((-exp) as nat) as int,
        0x1_0000_0000_0000,
        0x100_0001int * 0x100_0001int,
        0xff_ffffint * 0xff_ffffint,
        4_000_000,
    );
}

/// A single-precision factor of `man * 2^-k`, applied in single precision.
proof fn lemma_single_factor(factor: F32, man: u64, k: nat, n: u64)
    requires
        k <= 40,
        factor.value() == (Float::Finite { neg: false, man, exp: (-k) as i32 }),
        0 < man < 0x100_0000,
    ensures
        near(scaled(factor, n, Format::Single), man * n, pow2(k) as int, 4_000_000),
{
    lemma_single_product(man, (-k) as i32, n);
}

/// The same, applied in double precision.
proof fn lemma_double_factor(factor: F32, man: u64, k: nat, n: u64)
    requires
        k <= 40,
        factor.value() == (Float::Finite { neg: false, man, exp: (-k) as i32 }),
        0 < man < 0x100_0000,
    ensures
        near(scaled(factor, n, Format::Double), man * n, pow2(k) as int, 1_000_000_000_000_000),
{
    lemma2_to64();
    lemma2_to64_rest();
    lemma_scaled_raw(man, (-k) as i32, n, Format::Double);
    lemma_near_from_parts(
        scaled(factor, n, Format::Double),
        man * n,
        pow2(k) as int,
        0x20_0000_0000_0000int * 0x20_0000_0000_0000int,
        0x20_0000_0000_0001int * 0x20_0000_0000_0001int,
        0x1f_ffff_ffff_ffffint * 0x1f_ffff_ffff_ffffint,
        1_000_000_000_000_000,
    );
}

/// `unit` over `above` and `below` are within one part in `parts` of one.
proof fn lemma_near_from_parts(
    t: u64,
    num: int,
    den: int,
    unit: int,
    above: int,
    below: int,
    parts: int,
)
    requires
        t * den * unit <= num * above,
        t == u64::MAX || (t + 1) * den * unit > num * below,
        num >= 0,
        parts > 0,
        unit > 0,
        above * parts <= unit * (parts + 1),
        below * parts >= unit * (parts - 1),
    ensures
        near(t, num, den, parts),
{
    assert(t * den * parts <= num * (parts + 1)) by (nonlinear_arith)
        requires
            t * den * unit <= num * above,
            num >= 0,
            parts > 0,
            unit > 0,
            above * parts <= unit * (parts + 1),
    {
        let l = t * den * parts;
        let r = num * (parts + 1);
        assert(l * unit == (t * den * unit) * parts);
        assert((t * den * unit) * parts <= (num * above) * parts);
        assert((num * above) * parts == num * (above * parts));
        assert(num * (above * parts) <= num * (unit * (parts + 1)));
        assert(num * (unit * (parts + 1)) == r * unit);
        assert(l * unit <= r * unit);
    }
    if t != u64::MAX {
        let s = t + 1;
        assert(s * den * parts > num * (parts - 1)) by (nonlinear_arith)
            requires
                s * den * unit > num * below,
                num >= 0,
                parts > 0,
                unit > 0,
                below * parts >= unit * (parts - 1),
        {
            let l = s * den * parts;
            let r = num * (parts - 1);
            assert(l * unit == (s * den * unit) * parts);
            assert((s * den * unit) * parts > (num * below) * parts);
            assert((num * below) * parts == num * (below * parts));
            assert(num * (below * parts) >= num * (unit * (parts - 1)));
            assert(num * (unit * (parts - 1)) == r * unit);
            assert(l * unit > r * unit);
        }
    }
}

/// Seven tenths of an integer, in single precision.
pub proof fn lemma_seven_tenths(n: u64)
    ensures
        near(scaled(F32 { bits: 0x3f33_3333 }, n, Format::Single), 7 * n, 10, 1_000_000),
{
    lemma2_to64();
    lemma_single_factor(F32 { bits: 0x3f33_3333 }, 0xb3_3333, 24, n);
}

/// One fiftieth of an integer, in single precision.
pub proof fn lemma_one_fiftieth(n: u64)
    ensures
        near(scaled(F32 { bits: 0x3ca3_d70a }, n, Format::Single), n as int, 50, 1_000_000),
{
    lemma2_to64();
    lemma_single_factor(F32 { bits: 0x3ca3_d70a }, 0xa3_d70a, 29, n);
}

/// 85 percent of an integer, in double precision.
pub proof fn lemma_85_percent(n: u64)
    ensures
        near(scaled(F32 { bits: 0x3f59_999a }, n, Format::Double), 85 * n, 100, 10_000_000),
{
    lemma2_to64();
    lemma_double_factor(F32 { bits: 0x3f59_999a }, 0xd9_999a, 24, n);
}

/// The gains that pace, in double precision: nine tenths, one, five quarters, 2.885 and its
/// inverse.
pub proof fn lemma_paced(n: u64)
    ensures
        near(scaled(F32 { bits: 0x3f66_6666 }, n, Format::Double), 9 * n, 10, 10_000_000),
        near(scaled(F32 { bits: 0x3f80_0000 }, n, Format::Double), 1 * n, 1, 10_000_000),
        near(scaled(F32 { bits: 0x3fa0_0000 }, n, Format::Double), 5 * n, 4, 10_000_000),
        near(scaled(F32 { bits: 0x4038_a3d7 }, n, Format::Double), 2885 * n, 1000, 10_000_000),
        near(scaled(F32 { bits: 0x3eb1_783c }, n, Format::Double), 1000 * n, 2885, 10_000_000),
{
    lemma2_to64();
    assert(near(scaled(F32 { bits: 0x3f66_6666 }, n, Format::Double), 9 * n, 10, 10_000_000)) by {
        lemma_double_factor(F32 { bits: 0x3f66_6666 }, 0xe6_6666, 24, n);
    }
    assert(near(scaled(F32 { bits: 0x3f80_0000 }, n, Format::Double), 1 * n, 1, 10_000_000)) by {
        lemma_double_factor(F32 { bits: 0x3f80_0000 }, 0x80_0000, 23, n);
    }
    assert(near(scaled(F32 { bits: 0x3fa0_0000 }, n, Format::Double), 5 * n, 4, 10_000_000)) by {
        lemma_double_factor(F32 { bits: 0x3fa0_0000 }, 0xa0_0000, 23, n);
    }
    assert(near(scaled(F32 { bits: 0x4038_a3d7 }, n, Format::Double), 2885 * n, 1000, 10_000_000))
        by {
        lemma_double_factor(F32 { bits: 0x4038_a3d7 }, 0xb8_a3d7, 22, n);
    }
    assert(near(scaled(F32 { bits: 0x3eb1_783c }, n, Format::Double), 1000 * n, 2885, 10_000_000))
        by {
        lemma_double_factor(F32 { bits: 0x3eb1_783c }, 0xb1_783c, 25, n);
    }
}

/// The gains of windows, over a million: three quarters, one, five quarters, two and 2.885.
pub proof fn lemma_windowed(n: u64)
    ensures
        near(scaled_per_million(F32 { bits: 0x3f40_0000 }, n), 3 * n, 4_000_000, 10_000_000),
        near(scaled_per_million(F32 { bits: 0x3f80_0000 }, n), 1 * n, 1_000_000, 10_000_000),
        near(scaled_per_million(F32 { bits: 0x3fa0_0000 }, n), 5 * n, 4_000_000, 10_000_000),
        near(scaled_per_million(F32 { bits: 0x4000_0000 }, n), 2 * n, 1_000_000, 10_000_000),
        near(scaled_per_million(F32 { bits: 0x4038_a3d7 }, n), 2885 * n, 1_000_000_000, 10_000_000),
{
    lemma2_to64();
    assert(near(scaled_per_million(F32 { bits: 0x3f40_0000 }, n), 3 * n, 4_000_000, 10_000_000)) by {
        lemma_per_million_factor(F32 { bits: 0x3f40_0000 }, 0xc0_0000, 24, n);
    }
    assert(near(scaled_per_million(F32 { bits: 0x3f80_0000 }, n), 1 * n, 1_000_000, 10_000_000)) by {
        lemma_per_million_factor(F32 { bits: 0x3f80_0000 }, 0x80_0000, 23, n);
    }
    assert(near(scaled_per_million(F32 { bits: 0x3fa0_0000 }, n), 5 * n, 4_000_000, 10_000_000)) by {
        lemma_per_million_factor(F32 { bits: 0x3fa0_0000 }, 0xa0_0000, 23, n);
    }
    assert(near(scaled_per_million(F32 { bits: 0x4000_0000 }, n), 2 * n, 1_000_000, 10_000_000)) by {
        lemma_per_million_factor(F32 { bits: 0x4000_0000 }, 0x80_0000, 22, n);
    }
    assert(near(
        scaled_per_million(F32 { bits: 0x4038_a3d7 }, n),
        2885 * n,
        1_000_000_000,
        10_000_000,
    )) by {
        lemma_per_million_factor(F32 { bits: 0x4038_a3d7 }, 0xb8_a3d7, 22, n);
    }
}

proof fn lemma_per_million_factor(factor: F32, man: u64, k: nat, n: u64)
    requires
        22 <= k <= 40,
        factor.value() == (Float::Finite { neg: false, man, exp: (-k) as i32 }),
        0 < man < 0x100_0000,
    ensures
        near(
            scaled_per_million(factor, n),
            man * n,
            1_000_000 * (pow2(k) as int),
            1_000_000_000_000_000,
        ),
{
    lemma2_to64();
    lemma2_to64_rest();
    lemma_per_million_raw(factor, n);
    let t = scaled_per_million(factor, n);
    let d = pow2(k) as int;
    let w3 = 0x20_0000_0000_0000int * (0x20_0000_0000_0000int * 0x20_0000_0000_0000int);
    let v = 0x20_0000_0000_0001int;
    let above = v * (v * v);
    assert(above == 0x8000000000000c00000000000060000000000001int) by {
        assert(v * v == 0x400000000000040000000000001int) by (nonlinear_arith)
            requires
                v == 0x20_0000_0000_0001int,
        ;
        assert(v * 0x400000000000040000000000001int == 0x8000000000000c00000000000060000000000001int) by (nonlinear_arith)
            requires
                v == 0x20_0000_0000_0001int,
        ;
    }
    let below = 0x1f_ffff_ffff_ffff * (0x1f_ffff_ffff_ffff * 0x1f_ffff_ffff_ffffint);
    assert(above * 1_000_000_000_000_000 <= w3 * 1_000_000_000_000_001) by (nonlinear_arith)
        requires
            w3 == 0x8000000000000000000000000000000000000000int,
            above == 0x8000000000000c00000000000060000000000001int,
    ;
    assert(below * 1_000_000_000_000_000 >= w3 * 999_999_999_999_999) by (nonlinear_arith)
        requires
            w3 == 0x8000000000000000000000000000000000000000int,
            below == 0x7ffffffffffff40000000000005fffffffffffffint,
    ;
    assert(t * 1_000_000 * d * w3 == t * (1_000_000 * d) * w3) by (nonlinear_arith);
    assert((t + 1) * 1_000_000 * d * w3 == (t + 1) * (1_000_000 * d) * w3) by (nonlinear_arith);
    lemma_near_from_parts(
        t,
        man * n,
        1_000_000 * d,
        w3,
        above,
        below,
        1_000_000_000_000_000,
    );
}

} // verus!
