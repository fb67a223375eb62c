//! Comparisons and divisions in single precision, in terms of integers.

use crate::float::bounds::{
    lemma_below_power, lemma_exponent_ceiling, lemma_exponent_floor, lemma_integer_close,
    lemma_rounded_close, lemma_scaled_close, lemma_truncated_units, units,
};
use crate::float::near::near;
use crate::float::rounding::{lemma_zero, pow2_up, rounded};
use crate::float::{integer, less, magnitude_less, product, quotient, truncated, Float, Format, F32};
use vstd::arithmetic::power2::{
    lemma2_to64, lemma_pow2_adds, lemma_pow2_pos, pow2,
};
use vstd::prelude::*;

verus! {

/// Magnitudes compare as they do in units.
proof fn lemma_less_units(ma: nat, ea: int, mb: nat, eb: int)
    requires
        -2000 <= ea <= 2000,
        -2000 <= eb <= 2000,
    ensures
        magnitude_less(ma, ea, mb, eb) == (units(ma, ea) < units(mb, eb)),
{
    lemma2_to64();
    let low = if ea <= eb {
        ea
    } else {
        eb
    };
    let a = pow2_up(ea - eb);
    let b = pow2_up(eb - ea);
    let g = pow2((low + 3000) as nat);
    lemma_pow2_pos((low + 3000) as nat);
    let ua = pow2((ea + 3000) as nat);
    let ub = pow2((eb + 3000) as nat);
    assert(ua == a * g && ub == b * g) by {
        if ea >= eb {
            lemma_pow2_adds((ea - eb) as nat, (low + 3000) as nat);
            assert(b == 1);
            assert(1 * g == g);
        } else {
            lemma_pow2_adds((eb - ea) as nat, (low + 3000) as nat);
            assert(a == 1);
            assert(1 * g == g);
        }
    }
    let l = ma * a;
    let r = mb * b;
    assert(ma * (a * g) == l * g) by (nonlinear_arith)
        requires
            l == ma * a,
    ;
    assert(mb * (b * g) == r * g) by (nonlinear_arith)
        requires
            r == mb * b,
    ;
    assert((l < r) == (l * g < r * g)) by (nonlinear_arith)
        requires
            g > 0,
    ;
}

/// An integer in single precision, with its bounds.
proof fn lemma_single_integer(n: u64)
    ensures
        match integer(n as nat, Format::Single) {
            Float::Finite { neg, man, exp } => {
                &&& !neg
                &&& man < 0x100_0000
                &&& -200 <= exp <= 65
                &&& n > 0 ==> man > 0 && exp > -24
                &&& units(man as nat, exp as int) * 0x100_0000 <= n * pow2(3000) * 0x100_0001
                &&& units(man as nat, exp as int) * 0x100_0000 >= n * pow2(3000) * 0xff_ffff
            },
            _ => false,
        },
{
    lemma2_to64();
    lemma_pow2_pos(3000);
    let g = pow2(3000);
    if n == 0 {
        lemma_zero(1, 0, Format::Single);
        assert(0 * pow2((-149 + 3000) as nat) == 0) by (nonlinear_arith);
        assert(0 * g == 0) by (nonlinear_arith);
    } else {
        lemma_integer_close(n, Format::Single);
        match integer(n as nat, Format::Single) {
            Float::Finite { neg, man, exp } => {
                if man == 0 {
                    let h = pow2((exp + 3000) as nat);
                    assert(0 * h == 0) by (nonlinear_arith);
                    assert(n * g > 0) by (nonlinear_arith)
                        requires
                            n > 0,
                            g > 0,
                    ;
                }
            },
            _ => {},
        }
    }
}

/// Two roundings on one side of a comparison and one on the other.
proof fn lemma_compared(a: int, b: int, x: int, y: int)
    requires
        x >= 0,
        y >= 0,
        a * 0x1_0000_0000_0000 <= x * 0x1_0000_0200_0001,
        a * 0x1_0000_0000_0000 >= x * 0xffff_fe00_0001,
        b * 0x100_0000 <= y * 0x100_0001,
        b * 0x100_0000 >= y * 0xff_ffff,
    ensures
        a < b ==> y * 1_000_000 > x * 999_999,
        a >= b ==> y * 999_999 <= x * 1_000_000,
{
}

/// More than the fraction `man * 2^exp` of `whole`: `part` is compared with it to one part in a
/// million.
pub proof fn lemma_over_fraction(man: u64, exp: i32, part: u64, whole: u64)
    requires
        0 < man < 0x100_0000,
        -40 <= exp <= 0,
    ensures
        ({
            let over = less(
                product(
                    Float::Finite { neg: false, man, exp },
                    integer(whole as nat, Format::Single),
                    Format::Single,
                ),
                integer(part as nat, Format::Single),
            );
            let d = pow2((-exp) as nat);
            &&& over ==> part * d * 1_000_000 > man * whole * 999_999
            &&& part * d * 999_999 > man * whole * 1_000_000 ==> over
        }),
{
    lemma2_to64();
    let d = pow2((-exp) as nat);
    let g = pow2(3000);
    lemma_pow2_pos((-exp) as nat);
    lemma_pow2_pos(3000);
    lemma_scaled_close(man, exp, whole, Format::Single);
    lemma_single_integer(part);
    let p = product(
        Float::Finite { neg: false, man, exp },
        integer(whole as nat, Format::Single),
        Format::Single,
    );
    let q = integer(part as nat, Format::Single);
    match (p, q) {
        (Float::Finite { man: mp, exp: ep, .. }, Float::Finite { man: mq, exp: eq, .. }) => {
            lemma_less_units(mp as nat, ep as int, mq as nat, eq as int);
            let up = units(mp as nat, ep as int);
            let uq = units(mq as nat, eq as int);
            let x = man * whole;
            let y = part * d;
            let a = up * d;
            let b = uq * d;
            let xg = x * g;
            let yg = y * g;
            assert(a * 0x1_0000_0000_0000 <= xg * 0x1_0000_0200_0001) by (nonlinear_arith)
                requires
                    up * d * (0x100_0000 * 0x100_0000) <= man * (whole * g) * (0x100_0001
                        * 0x100_0001),
                    x == man * whole,
                    a == up * d,
                    xg == x * g,
            ;
            assert(a * 0x1_0000_0000_0000 >= xg * 0xffff_fe00_0001) by (nonlinear_arith)
                requires
                    up * d * (0x100_0000 * 0x100_0000) >= man * (whole * g) * (0xff_ffff
                        * 0xff_ffff),
                    x == man * whole,
                    a == up * d,
                    xg == x * g,
            ;
            assert(b * 0x100_0000 <= yg * 0x100_0001) by (nonlinear_arith)
                requires
                    uq * 0x100_0000 <= part * g * 0x100_0001,
                    y == part * d,
                    d > 0,
                    b == uq * d,
                    yg == y * g,
            {
                assert((uq * 0x100_0000) * d <= (part * g * 0x100_0001) * d);
                assert((uq * 0x100_0000) * d == b * 0x100_0000);
                assert((part * g * 0x100_0001) * d == ((part * d) * g) * 0x100_0001);
            }
            assert(b * 0x100_0000 >= yg * 0xff_ffff) by (nonlinear_arith)
                requires
                    uq * 0x100_0000 >= part * g * 0xff_ffff,
                    y == part * d,
                    d > 0,
                    b == uq * d,
                    yg == y * g,
            {
                assert((uq * 0x100_0000) * d >= (part * g * 0xff_ffff) * d);
                assert((uq * 0x100_0000) * d == b * 0x100_0000);
                assert((part * g * 0xff_ffff) * d == ((part * d) * g) * 0xff_ffff);
            }
            assert((up < uq) == (a < b)) by (nonlinear_arith)
                requires
                    a == up * d,
                    b == uq * d,
                    d > 0,
            ;
            assert(xg >= 0 && yg >= 0) by (nonlinear_arith)
                requires
                    xg == x * g,
                    yg == y * g,
                    x == man * whole,
                    y == part * d,
                    g > 0,
                    d > 0,
            ;
            lemma_compared(a as int, b as int, xg as int, yg as int);
            assert((yg * 1_000_000 > xg * 999_999) == (y * 1_000_000 > x * 999_999))
                by (nonlinear_arith)
                requires
                    xg == x * g,
                    yg == y * g,
                    g > 0,
            {
                assert(yg * 1_000_000 - xg * 999_999 == (y * 1_000_000 - x * 999_999) * g);
            }
            assert((yg * 999_999 <= xg * 1_000_000) == (y * 999_999 <= x * 1_000_000))
                by (nonlinear_arith)
                requires
                    xg == x * g,
                    yg == y * g,
                    g > 0,
            {
                assert(xg * 1_000_000 - yg * 999_999 == (x * 1_000_000 - y * 999_999) * g);
            }
        },
        _ => {},
    }
}

/// A quotient of two positive numbers, rounded once.
proof fn lemma_divided(a: u64, ea: i32, b: u64, eb: i32)
    requires
        0 < a < 0x100_0000,
        0 < b < 0x100_0000,
        -24 <= ea <= 65,
        -24 <= eb <= 65,
    ensures
        match rounded(false, a as nat, b as nat, ea - eb, Format::Single) {
            Float::Finite { neg, man, exp } => {
                let u = units(man as nat, exp as int);
                let ub = units(b as nat, eb as int);
                let ua = units(a as nat, ea as int);
                &&& !neg
                &&& -200 <= exp <= 200
                &&& u * ub * 0x100_0000 <= ua * pow2(3000) * 0x100_0001
                &&& u * ub * 0x100_0000 >= ua * pow2(3000) * 0xff_ffff
            },
            _ => false,
        },
{
    lemma2_to64();
    let x = ea - eb;
    let an = a as nat;
    let bn = b as nat;
    lemma_exponent_floor(an, bn, x, Format::Single, 24);
    lemma_below_power(an, bn, x, 24, x, 24);
    lemma_exponent_ceiling(an, bn, x, Format::Single, x);
    lemma_rounded_close(an, bn, x, Format::Single);
    match rounded(false, an, bn, x, Format::Single) {
        Float::Finite { neg, man, exp } => {
            let u = units(man as nat, exp as int);
            let h = pow2((eb + 3000) as nat);
            let g = pow2(3000);
            let f = pow2((ea + 3000) as nat);
            let k = pow2((x + 3000) as nat);
            lemma_pow2_pos((eb + 3000) as nat);
            lemma_pow2_adds((x + 3000) as nat, (eb + 3000) as nat);
            lemma_pow2_adds((ea + 3000) as nat, 3000);
            assert(k * h == f * g);
            assert(u * (bn * h) * 0x100_0000 <= (an * f) * g * 0x100_0001) by (nonlinear_arith)
                requires
                    u * bn * 0x100_0000 <= (an * k) * 0x100_0001,
                    k * h == f * g,
                    h > 0,
            {
                assert((u * bn * 0x100_0000) * h <= ((an * k) * 0x100_0001) * h);
                assert((u * bn * 0x100_0000) * h == u * (bn * h) * 0x100_0000);
                assert(((an * k) * 0x100_0001) * h == an * (k * h) * 0x100_0001);
                assert(an * (f * g) == (an * f) * g);
            }
            assert(u * (bn * h) * 0x100_0000 >= (an * f) * g * 0xff_ffff) by (nonlinear_arith)
                requires
                    u * bn * 0x100_0000 >= (an * k) * 0xff_ffff,
                    k * h == f * g,
                    h > 0,
            {
                assert((u * bn * 0x100_0000) * h >= ((an * k) * 0xff_ffff) * h);
                assert((u * bn * 0x100_0000) * h == u * (bn * h) * 0x100_0000);
                assert(((an * k) * 0xff_ffff) * h == an * (k * h) * 0xff_ffff);
                assert(an * (f * g) == (an * f) * g);
            }
        },
        _ => {},
    }
}

/// Whether `part / whole` is more than the fraction `man * 2^exp`, to one part in a million.
pub proof fn lemma_ratio_over_fraction(man: u64, exp: i32, part: u64, whole: u64)
    requires
        0 < man < 0x100_0000,
        -40 <= exp <= 0,
        whole > 0,
    ensures
        ({
            let over = less(
                Float::Finite { neg: false, man, exp },
                quotient(
                    integer(part as nat, Format::Single),
                    integer(whole as nat, Format::Single),
                    Format::Single,
                ),
            );
            let d = pow2((-exp) as nat);
            &&& over ==> part * d * 1_000_000 > man * whole * 999_999
            &&& part * d * 999_999 > man * whole * 1_000_000 ==> over
        }),
{
    lemma2_to64();
    let d = pow2((-exp) as nat);
    let g = pow2(3000);
    lemma_pow2_pos((-exp) as nat);
    lemma_pow2_pos(3000);
    lemma_single_integer(part);
    lemma_single_integer(whole);
    match (integer(part as nat, Format::Single), integer(whole as nat, Format::Single)) {
        (Float::Finite { man: mp, exp: ep, .. }, Float::Finite { man: mw, exp: ew, .. }) => {
            if part == 0 {
                lemma_zero(1, 0, Format::Single);
                lemma_zero(mw as nat, ep - ew, Format::Single);
                lemma_less_units(man as nat, exp as int, 0, -149);
                assert(0 * pow2((-149 + 3000) as nat) == 0) by (nonlinear_arith);
                assert(0 * d * 999_999 == 0) by (nonlinear_arith);
                assert(man * whole * 1_000_000 >= 0) by (nonlinear_arith);
            } else {
                lemma_divided(mp, ep, mw, ew);
                match rounded(false, mp as nat, mw as nat, ep - ew, Format::Single) {
                    Float::Finite { man: mq, exp: eq, .. } => {
                        lemma_less_units(man as nat, exp as int, mq as nat, eq as int);
                        lemma_pow2_adds((exp + 3000) as nat, (-exp) as nat);
                        let f = pow2((exp + 3000) as nat);
                        assert((man * f) * d == man * g) by (nonlinear_arith)
                            requires
                                f * d == g,
                        ;
                        lemma_ratio_arithmetic(
                            units(man as nat, exp as int) as int,
                            units(mq as nat, eq as int) as int,
                            units(mw as nat, ew as int) as int,
                            units(mp as nat, ep as int) as int,
                            d as int,
                            g as int,
                            man as int,
                            part as int,
                            whole as int,
                        );
                    },
                    _ => {},
                }
            }
        },
        _ => {},
    }
}

/// `f` is the fraction, `q` the quotient of `up` over `uw`, all in units of `g`.
proof fn lemma_ratio_arithmetic(
    f: int,
    q: int,
    uw: int,
    up: int,
    d: int,
    g: int,
    man: int,
    part: int,
    whole: int,
)
    requires
        f * d == man * g,
        q * uw * 0x100_0000 <= up * g * 0x100_0001,
        q * uw * 0x100_0000 >= up * g * 0xff_ffff,
        uw * 0x100_0000 <= whole * g * 0x100_0001,
        uw * 0x100_0000 >= whole * g * 0xff_ffff,
        up * 0x100_0000 <= part * g * 0x100_0001,
        up * 0x100_0000 >= part * g * 0xff_ffff,
        d > 0,
        g > 0,
        man > 0,
        part >= 0,
        whole > 0,
    ensures
        f < q ==> part * d * 1_000_000 > man * whole * 999_999,
        f >= q ==> part * d * 999_999 <= man * whole * 1_000_000,
{
    let g2 = g * g;
    let x = man * whole * g2;
    let y = part * d * g2;
    assert(uw > 0) by (nonlinear_arith)
        requires
            uw * 0x100_0000 >= whole * g * 0xff_ffff,
            whole > 0,
            g > 0,
    {
        assert(whole * g > 0);
    }
    // Both sides times `uw * d`.
    let a = f * uw * d;
    let b = q * uw * d;
    assert((f < q) == (a < b)) by (nonlinear_arith)
        requires
            a == f * uw * d,
            b == q * uw * d,
            uw > 0,
            d > 0,
    {
        assert(uw * d > 0);
        assert(b - a == (q - f) * (uw * d));
    }
    assert(a == man * (uw * g)) by (nonlinear_arith)
        requires
            a == f * uw * d,
            f * d == man * g,
    ;
    assert(a * 0x100_0000 <= x * 0x100_0001) by (nonlinear_arith)
        requires
            a == man * (uw * g),
            uw * 0x100_0000 <= whole * g * 0x100_0001,
            x == man * whole * g2,
            g2 == g * g,
            man > 0,
            g > 0,
    {
        let c = man * g;
        assert(c > 0);
        assert((uw * 0x100_0000) * c <= (whole * g * 0x100_0001) * c);
        assert((uw * 0x100_0000) * c == a * 0x100_0000);
        assert((whole * g * 0x100_0001) * c == x * 0x100_0001);
    }
    assert(a * 0x100_0000 >= x * 0xff_ffff) by (nonlinear_arith)
        requires
            a == man * (uw * g),
            uw * 0x100_0000 >= whole * g * 0xff_ffff,
            x == man * whole * g2,
            g2 == g * g,
            man > 0,
            g > 0,
    {
        let c = man * g;
        assert(c > 0);
        assert((uw * 0x100_0000) * c >= (whole * g * 0xff_ffff) * c);
        assert((uw * 0x100_0000) * c == a * 0x100_0000);
        assert((whole * g * 0xff_ffff) * c == x * 0xff_ffff);
    }
    let ug = up * g * d;
    assert(b * 0x100_0000 <= ug * 0x100_0001) by (nonlinear_arith)
        requires
            q * uw * 0x100_0000 <= up * g * 0x100_0001,
            b == q * uw * d,
            ug == up * g * d,
            d > 0,
    {
        assert((q * uw * 0x100_0000) * d <= (up * g * 0x100_0001) * d);
    }
    assert(b * 0x100_0000 >= ug * 0xff_ffff) by (nonlinear_arith)
        requires
            q * uw * 0x100_0000 >= up * g * 0xff_ffff,
            b == q * uw * d,
            ug == up * g * d,
            d > 0,
    {
        assert((q * uw * 0x100_0000) * d >= (up * g * 0xff_ffff) * d);
    }
    assert(ug * 0x100_0000 <= y * 0x100_0001) by (nonlinear_arith)
        requires
            up * 0x100_0000 <= part * g * 0x100_0001,
            ug == up * g * d,
            y == part * d * g2,
            g2 == g * g,
            d > 0,
            g > 0,
    {
        let c = g * d;
        assert(c > 0);
        assert((up * 0x100_0000) * c <= (part * g * 0x100_0001) * c);
        assert((up * 0x100_0000) * c == ug * 0x100_0000);
        assert((part * g * 0x100_0001) * c == y * 0x100_0001);
    }
    assert(ug * 0x100_0000 >= y * 0xff_ffff) by (nonlinear_arith)
        requires
            up * 0x100_0000 >= part * g * 0xff_ffff,
            ug == up * g * d,
            y == part * d * g2,
            g2 == g * g,
            d > 0,
            g > 0,
    {
        let c = g * d;
        assert(c > 0);
        assert((up * 0x100_0000) * c >= (part * g * 0xff_ffff) * c);
        assert((up * 0x100_0000) * c == ug * 0x100_0000);
        assert((part * g * 0xff_ffff) * c == y * 0xff_ffff);
    }
    assert(x >= 0 && y >= 0 && g2 > 0) by (nonlinear_arith)
        requires
            x == man * whole * g2,
            y == part * d * g2,
            g2 == g * g,
            man > 0,
            whole > 0,
            part >= 0,
            d > 0,
            g > 0,
    {
        assert(g2 > 0);
        assert(man * whole > 0);
        assert(part * d >= 0);
    }
    lemma_ratio_compared(a, b, ug, x, y);
    let xs = man * whole;
    let ys = part * d;
    assert((y * 1_000_000 > x * 999_999) == (ys * 1_000_000 > xs * 999_999)) by (nonlinear_arith)
        requires
            x == xs * g2,
            y == ys * g2,
            g2 > 0,
    {
        assert(y * 1_000_000 - x * 999_999 == (ys * 1_000_000 - xs * 999_999) * g2);
    }
    assert((y * 999_999 <= x * 1_000_000) == (ys * 999_999 <= xs * 1_000_000)) by (nonlinear_arith)
        requires
            x == xs * g2,
            y == ys * g2,
            g2 > 0,
    {
        assert(x * 1_000_000 - y * 999_999 == (xs * 1_000_000 - ys * 999_999) * g2);
    }
}

proof fn lemma_ratio_compared(a: int, b: int, u: int, x: int, y: int)
    requires
        x >= 0,
        y >= 0,
        a * 0x100_0000 <= x * 0x100_0001,
        a * 0x100_0000 >= x * 0xff_ffff,
        b * 0x100_0000 <= u * 0x100_0001,
        b * 0x100_0000 >= u * 0xff_ffff,
        u * 0x100_0000 <= y * 0x100_0001,
        u * 0x100_0000 >= y * 0xff_ffff,
    ensures
        a < b ==> y * 1_000_000 > x * 999_999,
        a >= b ==> y * 999_999 <= x * 1_000_000,
{
}

/// An integer over `man * 2^-24`, rounded down.
pub proof fn lemma_divided_by(n: u64, man: u64)
    requires
        0 < man < 0x100_0000,
    ensures
        near(
            truncated(
                quotient(
                    integer(n as nat, Format::Single),
                    Float::Finite { neg: false, man, exp: -24i32 },
                    Format::Single,
                ),
            ),
            0x100_0000 * n,
            man as int,
            4_000_000,
        ),
{
    lemma2_to64();
    lemma_pow2_pos(3000);
    let g = pow2(3000);
    lemma_single_integer(n);
    let quot = quotient(
        integer(n as nat, Format::Single),
        Float::Finite { neg: false, man, exp: -24i32 },
        Format::Single,
    );
    match integer(n as nat, Format::Single) {
        Float::Finite { neg, man: mn, exp: en } => {
            assert(quot == rounded(false, mn as nat, man as nat, en + 24, Format::Single));
            if n == 0 {
                lemma_zero(1, 0, Format::Single);
                lemma_zero(man as nat, en + 24, Format::Single);
                assert(quot == (Float::Finite { neg: false, man: 0, exp: -149i32 }));
                lemma_truncated_units(0, -149i32);
                assert(0 * pow2((-149 + 3000) as nat) == 0) by (nonlinear_arith);
                let t = truncated(Float::Finite { neg: false, man: 0, exp: -149i32 });
                assert(t == 0) by (nonlinear_arith)
                    requires
                        t * g <= 0,
                        t >= 0,
                        g > 0,
                ;
                assert(near(t, 0x100_0000 * n, man as int, 4_000_000));
            } else {
                lemma_divided(mn, en, man, -24i32);
                match rounded(false, mn as nat, man as nat, en + 24, Format::Single) {
                    Float::Finite { man: mq, exp: eq, .. } => {
                        lemma_truncated_units(mq, eq);
                        lemma_pow2_adds(2976, 24);
                        let h = pow2(2976);
                        assert(units(man as nat, -24) == man * h);
                        assert(h * pow2(24) == h * 0x100_0000) by (nonlinear_arith)
                            requires
                                pow2(24) == 0x100_0000,
                        ;
                        lemma_pow2_pos(2976);
                        lemma_quotient_arithmetic(
                            truncated(Float::Finite { neg: false, man: mq, exp: eq }),
                            units(mq as nat, eq as int) as int,
                            units(mn as nat, en as int) as int,
                            h as int,
                            g as int,
                            man as int,
                            n as int,
                        );
                    },
                    _ => {},
                }
            }
        },
        _ => {},
    }
}

proof fn lemma_quotient_arithmetic(t: u64, u: int, un: int, h: int, g: int, man: int, n: int)
    requires
        g == h * 0x100_0000,
        h > 0,
        man > 0,
        n > 0,
        t * g <= u,
        t == u64::MAX || (t + 1) * g > u,
        u * (man * h) * 0x100_0000 <= un * g * 0x100_0001,
        u * (man * h) * 0x100_0000 >= un * g * 0xff_ffff,
        un * 0x100_0000 <= n * g * 0x100_0001,
        un * 0x100_0000 >= n * g * 0xff_ffff,
    ensures
        near(t, 0x100_0000 * n, man, 4_000_000),
{
    let s = t as int;
    let a = s * man;
    // In units of `h`, `u * man` is `un` times `2^24`, up to a rounding.
    let v = u * man;
    assert(v <= un * 0x100_0001) by (nonlinear_arith)
        requires
            v == u * man,
            u * (man * h) * 0x100_0000 <= un * g * 0x100_0001,
            g == h * 0x100_0000,
            h > 0,
    {
        let k = h * 0x100_0000;
        assert(u * (man * h) * 0x100_0000 == v * k);
        assert(un * g * 0x100_0001 == (un * 0x100_0001) * k);
    }
    assert(v >= un * 0xff_ffff) by (nonlinear_arith)
        requires
            v == u * man,
            u * (man * h) * 0x100_0000 >= un * g * 0xff_ffff,
            g == h * 0x100_0000,
            h > 0,
    {
        let k = h * 0x100_0000;
        assert(u * (man * h) * 0x100_0000 == v * k);
        assert(un * g * 0xff_ffff == (un * 0xff_ffff) * k);
    }
    let x = n * g;
    assert(x > 0) by (nonlinear_arith)
        requires
            x == n * g,
            n > 0,
            g == h * 0x100_0000,
            h > 0,
    ;
    assert(a * g <= v) by (nonlinear_arith)
        requires
            a == s * man,
            v == u * man,
            s * g <= u,
            man > 0,
    ;
    let ag = a * g;
    assert(ag * 4_000_000 <= x * 0x100_0000 * 4_000_001) by {
        lemma_quotient_linear(ag, 0, v, un, x);
    }
    assert(s * man * 4_000_000 <= 0x100_0000 * n * 4_000_001) by (nonlinear_arith)
        requires
            (a * g) * 4_000_000 <= (n * g) * 0x100_0000 * 4_000_001,
            a == s * man,
            g > 0,
    {
        assert((a * 4_000_000) * g <= (n * 0x100_0000 * 4_000_001) * g);
    }
    if t != u64::MAX {
        let b = (s + 1) * man;
        assert(b * g > v) by (nonlinear_arith)
            requires
                b == (s + 1) * man,
                v == u * man,
                (s + 1) * g > u,
                man > 0,
        ;
        let bg = b * g;
        assert(bg * 4_000_000 > x * 0x100_0000 * 3_999_999) by {
            lemma_quotient_linear(0, bg, v, un, x);
        }
        assert((s + 1) * man * 4_000_000 > 0x100_0000 * n * 3_999_999) by (nonlinear_arith)
            requires
                (b * g) * 4_000_000 > (n * g) * 0x100_0000 * 3_999_999,
                b == (s + 1) * man,
                g > 0,
        {
            assert((b * 4_000_000) * g > (n * 0x100_0000 * 3_999_999) * g);
        }
    }
}

proof fn lemma_quotient_linear(a: int, b: int, v: int, un: int, x: int)
    requires
        v <= un * 0x100_0001,
        v >= un * 0xff_ffff,
        un * 0x100_0000 <= x * 0x100_0001,
        un * 0x100_0000 >= x * 0xff_ffff,
        x > 0,
    ensures
        a <= v ==> a * 4_000_000 <= x * 0x100_0000 * 4_000_001,
        b > v ==> b * 4_000_000 > x * 0x100_0000 * 3_999_999,
{
}

/// Two and 2.885 are below three and above one.
pub proof fn lemma_above_gain(n: u64)
    ensures
        n >= 3 ==> less(
            (F32 { bits: 0x4038_a3d7 }).value(),
            integer(n as nat, Format::Single),
        ) && less((F32 { bits: 0x4000_0000 }).value(), integer(n as nat, Format::Single)),
        n <= 1 ==> !less(
            (F32 { bits: 0x4038_a3d7 }).value(),
            integer(n as nat, Format::Single),
        ) && !less((F32 { bits: 0x4000_0000 }).value(), integer(n as nat, Format::Single)),
{
    lemma2_to64();
    lemma_single_integer(n);
    let g = pow2(3000);
    let h = pow2(2978);
    lemma_pow2_pos(3000);
    lemma_pow2_adds(2978, 22);
    match integer(n as nat, Format::Single) {
        Float::Finite { man, exp, .. } => {
            lemma_less_units(0xb8_a3d7, -22, man as nat, exp as int);
            lemma_less_units(0x80_0000, -22, man as nat, exp as int);
            let u = units(man as nat, exp as int) as int;
            assert(n >= 3 ==> n * g >= 3 * g) by (nonlinear_arith)
                requires
                    g > 0,
            ;
            assert(n <= 1 ==> n * g <= g) by (nonlinear_arith)
                requires
                    g > 0,
            ;
            lemma_gain_compared(u, n * g, g as int, h as int, n as int);
        },
        _ => {},
    }
}

proof fn lemma_gain_compared(u: int, x: int, g: int, h: int, n: int)
    requires
        g == h * 0x40_0000,
        g > 0,
        u * 0x100_0000 <= x * 0x100_0001,
        u * 0x100_0000 >= x * 0xff_ffff,
        n >= 3 ==> x >= 3 * g,
        n <= 1 ==> x <= g,
    ensures
        n >= 3 ==> 0xb8_a3d7 * h < u && 0x80_0000 * h < u,
        n <= 1 ==> 0xb8_a3d7 * h >= u && 0x80_0000 * h >= u,
{
}

} // verus!
