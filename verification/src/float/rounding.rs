//! Rounding of a ratio to a binary format: to nearest, ties to even.

use crate::float::{Float, Format};
use vstd::arithmetic::div_mod::{
    lemma_basic_div, lemma_div_multiples_vanish_quotient, lemma_div_of0, lemma_fundamental_div_mod,
    lemma_fundamental_div_mod_converse, lemma_small_mod, lemma_truncate_middle,
};
use vstd::arithmetic::power2::{
    lemma2_to64, lemma2_to64_rest, lemma_pow2_adds, lemma_pow2_pos, lemma_pow2_strictly_increases,
    lemma_pow2_unfold, pow2,
};
use vstd::prelude::*;

verus! {

/// `2^k` for nonnegative `k`, and `1` otherwise, so that `2^k` is `pow2_up(k) / pow2_up(-k)`.
pub open spec fn pow2_up(k: int) -> nat {
    if k >= 0 {
        pow2(k as nat)
    } else {
        1
    }
}

/// The integer nearest to `n / d`, the even one of two that are equally near.
pub open spec fn nearest(n: nat, d: nat) -> nat
    recommends
        d > 0,
{
    let q = n / d;
    let r = n % d;
    if 2 * r < d || (2 * r == d && q % 2 == 0) {
        q
    } else {
        q + 1
    }
}

/// `n / d * 2^x` is below `2^(p + e)`.
pub open spec fn below(n: nat, d: nat, x: int, p: nat, e: int) -> bool {
    n * pow2_up(x - e) < d * pow2_up(e - x) * pow2(p)
}

/// `e` is the exponent at which `format` holds numbers of the size of `n / d * 2^x`: the least one
/// that leaves the significand below `2^precision`, but no less than the format's own least.
pub open spec fn is_exponent(n: nat, d: nat, x: int, format: Format, e: int) -> bool {
    &&& format.min_exp() <= e
    &&& below(n, d, x, format.precision(), e)
    &&& e == format.min_exp() || !below(n, d, x, format.precision(), e - 1)
}

pub open spec fn exponent(n: nat, d: nat, x: int, format: Format) -> int {
    choose|e: int| is_exponent(n, d, x, format, e)
}

/// The datum with significand `m` at exponent `e`, where `m` may have reached `2^precision`.
pub open spec fn packed(neg: bool, m: nat, e: int, format: Format) -> Float {
    let carry = m >= pow2(format.precision());
    let man = if carry {
        pow2((format.precision() - 1) as nat)
    } else {
        m
    };
    let exp = if carry {
        e + 1
    } else {
        e
    };
    if exp > format.max_exp() {
        Float::Infinite { neg }
    } else {
        Float::Finite { neg, man: man as u64, exp: exp as i32 }
    }
}

/// `n / d * 2^x`, negated if `neg`, rounded to `format`: to the nearest number, ties to even,
/// and to infinity beyond the largest one.
pub open spec fn rounded(neg: bool, n: nat, d: nat, x: int, format: Format) -> Float {
    let e = exponent(n, d, x, format);
    packed(neg, nearest(n * pow2_up(x - e), d * pow2_up(e - x)), e, format)
}

pub(crate) proof fn lemma_pow2_up_pos(k: int)
    ensures
        pow2_up(k) > 0,
{
    if k >= 0 {
        lemma_pow2_pos(k as nat);
    }
}

pub(crate) proof fn lemma_pow2_at_least(a: nat, b: nat)
    requires
        a <= b,
    ensures
        pow2(a) <= pow2(b),
{
    if a < b {
        lemma_pow2_strictly_increases(a, b);
    }
}

pub(crate) proof fn lemma_pow2_exceeds(n: nat)
    ensures
        pow2(n) > n,
    decreases n,
{
    if n == 0 {
        lemma2_to64();
    } else {
        lemma_pow2_exceeds((n - 1) as nat);
        lemma_pow2_unfold(n);
    }
}

pub(crate) proof fn lemma_pow2_124()
    ensures
        pow2(124) == 0x1000_0000_0000_0000_0000_0000_0000_0000,
{
    lemma2_to64();
    lemma2_to64_rest();
    lemma_pow2_adds(64, 60);
}

/// Cancelling a common factor does not change the nearest integer.
pub(crate) proof fn lemma_nearest_scaled(n: nat, d: nat, c: nat)
    requires
        d > 0,
        c > 0,
    ensures
        nearest(n * c, d * c) == nearest(n, d),
{
    lemma_div_multiples_vanish_quotient(c as int, n as int, d as int);
    lemma_truncate_middle(n as int, c as int, d as int);
    let q = n / d;
    let r = n % d;
    assert(n * c == c * n && d * c == c * d) by (nonlinear_arith);
    assert(d * c > 0) by (nonlinear_arith)
        requires
            d > 0,
            c > 0,
    ;
    assert((n * c) / (d * c) == q);
    assert((n * c) % (d * c) == c * r);
    assert(2 * (c * r) < d * c <==> 2 * r < d) by (nonlinear_arith)
        requires
            c > 0,
    ;
    assert(2 * (c * r) == d * c <==> 2 * r == d) by (nonlinear_arith)
        requires
            c > 0,
    ;
}

/// A bound at one exponent is a bound at the next.
pub(crate) proof fn lemma_below_step(n: nat, d: nat, x: int, p: nat, e: int)
    requires
        d > 0,
        below(n, d, x, p, e),
    ensures
        below(n, d, x, p, e + 1),
{
    let t = pow2(p);
    lemma_pow2_pos(p);
    if x - e >= 1 {
        lemma_pow2_unfold((x - e) as nat);
        let u = pow2_up(x - e - 1);
        assert(pow2_up(x - e) == 2 * u);
        assert(n * u < d * 1 * t) by (nonlinear_arith)
            requires
                n * (2 * u) < d * 1 * t,
                n >= 0,
                u >= 0,
        ;
        if x - e == 1 {
            assert(pow2_up(0) == 1) by {
                lemma2_to64();
            }
        }
    } else {
        if x - e == 0 {
            lemma2_to64();
        }
        lemma_pow2_unfold((e + 1 - x) as nat);
        let u = pow2_up(e - x);
        assert(pow2_up(e + 1 - x) == 2 * u);
        assert(n * 1 < d * (2 * u) * t) by (nonlinear_arith)
            requires
                n * 1 < d * u * t,
                d > 0,
                u >= 0,
                t >= 0,
        ;
    }
}

pub(crate) proof fn lemma_below_mono(n: nat, d: nat, x: int, p: nat, e: int, f: int)
    requires
        d > 0,
        e <= f,
        below(n, d, x, p, e),
    ensures
        below(n, d, x, p, f),
    decreases f - e,
{
    if e < f {
        lemma_below_step(n, d, x, p, e);
        lemma_below_mono(n, d, x, p, e + 1, f);
    }
}

/// There is at most one exponent.
pub proof fn lemma_exponent_unique(n: nat, d: nat, x: int, format: Format, e: int)
    requires
        d > 0,
        is_exponent(n, d, x, format, e),
    ensures
        exponent(n, d, x, format) == e,
{
    let f = exponent(n, d, x, format);
    assert(is_exponent(n, d, x, format, f));
    if e < f {
        lemma_below_mono(n, d, x, format.precision(), e, f - 1);
    } else if f < e {
        lemma_below_mono(n, d, x, format.precision(), f, e - 1);
    }
}

/// Below any bound there is a least exponent.
pub(crate) proof fn lemma_exponent_descends(n: nat, d: nat, x: int, format: Format, e: int)
    requires
        d > 0,
        format.min_exp() <= e,
        below(n, d, x, format.precision(), e),
    ensures
        exists|f: int| is_exponent(n, d, x, format, f),
    decreases e - format.min_exp(),
{
    if e > format.min_exp() && below(n, d, x, format.precision(), e - 1) {
        lemma_exponent_descends(n, d, x, format, e - 1);
    } else {
        assert(is_exponent(n, d, x, format, e));
    }
}

/// Every number has an exponent.
pub(crate) proof fn lemma_exponent_exists(n: nat, d: nat, x: int, format: Format)
    requires
        d > 0,
    ensures
        is_exponent(n, d, x, format, exponent(n, d, x, format)),
{
    let p = format.precision();
    let e = if x + n >= format.min_exp() {
        x + n
    } else {
        format.min_exp()
    };
    let k = (e - x) as nat;
    lemma_pow2_exceeds(n);
    lemma_pow2_at_least(n, k);
    lemma_pow2_pos(p);
    lemma2_to64();
    assert(pow2_up(x - e) == 1);
    let u = pow2(k);
    let w = pow2(p);
    assert(n * 1 < d * u * w) by (nonlinear_arith)
        requires
            n < u,
            d >= 1,
            w >= 1,
    ;
    lemma_exponent_descends(n, d, x, format, e);
}

/// Multiplying by `2^t` and dividing by `2^s` moves the exponent by `s - t`.
pub(crate) proof fn lemma_shifted(n: nat, d: nat, x: int, p: nat, t: nat, s: nat)
    requires
        d > 0,
    ensures
        below(n, d, x, p, x - t + s) <==> n * pow2(t) < d * pow2(s) * pow2(p),
        nearest(n * pow2_up(t - s), d * pow2_up(s - t)) == nearest(n * pow2(t), d * pow2(s)),
        d * pow2(s) > 0,
{
    let c = if t <= s {
        pow2(t)
    } else {
        pow2(s)
    };
    let a = pow2_up(t - s);
    let b = pow2_up(s - t);
    let q = pow2(p);
    lemma_pow2_pos(t);
    lemma_pow2_pos(s);
    lemma_pow2_up_pos(t - s);
    lemma_pow2_up_pos(s - t);
    assert(pow2(t) == a * c && pow2(s) == b * c) by {
        lemma2_to64();
        if t <= s {
            lemma_pow2_adds((s - t) as nat, t);
        } else {
            lemma_pow2_adds((t - s) as nat, s);
        }
    }
    assert(n * (a * c) == n * a * c) by (nonlinear_arith);
    assert(d * (b * c) == d * b * c) by (nonlinear_arith);
    assert(d * b > 0) by (nonlinear_arith)
        requires
            d > 0,
            b > 0,
    ;
    assert(d * b * c > 0) by (nonlinear_arith)
        requires
            d * b > 0,
            c > 0,
    ;
    lemma_nearest_scaled(n * a, d * b, c);
    assert(n * a < d * b * q <==> n * a * c < d * b * c * q) by (nonlinear_arith)
        requires
            c > 0,
    ;
}

pub(crate) proof fn lemma_rescaled_at(n: nat, d: nat, x: int, k: nat, p: nat, e: int)
    requires
        d > 0,
    ensures
        below(n * pow2(k), d, x - k, p, e) <==> below(n, d, x, p, e),
        nearest(n * pow2(k) * pow2_up(x - k - e), d * pow2_up(e - x + k)) == nearest(
            n * pow2_up(x - e),
            d * pow2_up(e - x),
        ),
{
    let s: nat = (if e - x >= 0 {
        e - x + k
    } else {
        k as int
    }) as nat;
    let t: nat = (x - e + s) as nat;
    let t2: nat = (t - k) as nat;
    let m = n * pow2(k);
    lemma_shifted(n, d, x, p, t, s);
    lemma_shifted(m, d, x - k, p, t2, s);
    lemma_pow2_adds(k, t2);
    assert(n * pow2(k) * pow2(t2) == n * (pow2(k) * pow2(t2))) by (nonlinear_arith);
    assert(x - t + s == e);
    assert((x - k) - t2 + s == e);
    assert(t - s == x - e && s - t == e - x);
    assert(t2 - s == x - k - e && s - t2 == e - x + k);
}

/// A number does not depend on how its power of two is split between significand and exponent.
pub(crate) proof fn lemma_rescaled(neg: bool, n: nat, d: nat, x: int, k: nat, format: Format)
    requires
        d > 0,
    ensures
        rounded(neg, n * pow2(k), d, x - k, format) == rounded(neg, n, d, x, format),
{
    let p = format.precision();
    let m = n * pow2(k);
    lemma_exponent_exists(n, d, x, format);
    let e = exponent(n, d, x, format);
    lemma_rescaled_at(n, d, x, k, p, e);
    lemma_rescaled_at(n, d, x, k, p, e - 1);
    assert(is_exponent(m, d, x - k, format, e));
    lemma_exponent_unique(m, d, x - k, format, e);
}

pub(crate) proof fn lemma_zero(d: nat, x: int, format: Format)
    requires
        d > 0,
    ensures
        forall|neg: bool|
            #![auto]
            rounded(neg, 0, d, x, format) == (Float::Finite {
                neg,
                man: 0,
                exp: format.min_exp() as i32,
            }),
{
    let e = format.min_exp();
    lemma_pow2_up_pos(e - x);
    lemma_pow2_pos(format.precision());
    let c = d * pow2_up(e - x);
    assert(c > 0) by (nonlinear_arith)
        requires
            d > 0,
            pow2_up(e - x) > 0,
            c == d * pow2_up(e - x),
    ;
    assert(c * pow2(format.precision()) > 0) by (nonlinear_arith)
        requires
            c > 0,
            pow2(format.precision()) > 0,
    ;
    assert(0 * pow2_up(x - e) == 0);
    assert(is_exponent(0, d, x, format, e));
    lemma_exponent_unique(0, d, x, format, e);
    assert(nearest(0, c) == 0) by {
        lemma_div_of0(c as int);
        lemma_small_mod(0, c);
    }
}

/// A quotient that is under a half at an exponent no greater than the least one rounds to zero.
pub(crate) proof fn lemma_vanishes(neg: bool, n: nat, d: nat, x: int, format: Format, t: nat, s: nat)
    requires
        d > 0,
        x - t + s <= format.min_exp(),
        2 * (n * pow2(t)) < d * pow2(s),
        below(n, d, x, format.precision(), x - t + s),
    ensures
        rounded(neg, n, d, x, format) == (Float::Finite {
            neg,
            man: 0,
            exp: format.min_exp() as i32,
        }),
{
    let e = format.min_exp();
    let p = format.precision();
    let v = (e - x + t) as nat;
    lemma_below_mono(n, d, x, p, x - t + s, e);
    assert(is_exponent(n, d, x, format, e));
    lemma_exponent_unique(n, d, x, format, e);
    lemma_shifted(n, d, x, p, t, v);
    lemma_pow2_adds(s, (v - s) as nat);
    lemma_pow2_pos((v - s) as nat);
    lemma_pow2_pos(p);
    let a = d * pow2(s);
    let b = pow2((v - s) as nat);
    assert(d * (pow2(s) * b) == a * b) by (nonlinear_arith)
        requires
            a == d * pow2(s),
    ;
    assert(a * b >= a) by (nonlinear_arith)
        requires
            b >= 1,
            a >= 0,
    ;
    let c = d * pow2(v);
    let k = n * pow2(t);
    assert(k / c == 0 && k % c == k) by {
        lemma_small_mod(k, c);
        lemma_basic_div(k as int, c as int);
    }
}

pub(crate) proof fn lemma_sticky_low(q: nat, j: nat, r: nat, x: int, p: nat)
    requires
        j >= 1,
        q >= pow2(p),
    ensures
        !below(q * pow2(j) + r, 1, x, p, x + j),
        !below(2 * q + 1, 1, x + j - 1, p, x + j),
{
    lemma2_to64();
    let w = pow2(p);
    let u = pow2(j);
    assert(q * u + r >= u * w) by (nonlinear_arith)
        requires
            q >= w,
            u >= 0,
            r >= 0,
    ;
    assert(1 * u * w == u * w) by (nonlinear_arith);
    assert(pow2_up(x + j - 1 - (x + j)) == 1);
    assert(pow2_up(x + j - (x + j - 1)) == 2);
    assert((2 * q + 1) * 1 >= 1 * 2 * w) by (nonlinear_arith)
        requires
            q >= w,
    ;
}

pub(crate) proof fn lemma_sticky_high(q: nat, j: nat, r: nat, x: int, p: nat, e: int)
    requires
        j >= 1,
        0 < r < pow2(j),
        e > x + j,
    ensures
        below(q * pow2(j) + r, 1, x, p, e) <==> below(2 * q + 1, 1, x + j - 1, p, e),
        nearest((q * pow2(j) + r) * pow2_up(x - e), 1 * pow2_up(e - x)) == nearest(
            (2 * q + 1) * pow2_up(x + j - 1 - e),
            1 * pow2_up(e - (x + j - 1)),
        ),
{
    let k = (e - x - j) as nat;
    let u = pow2(j);
    let b = pow2(k);
    let h = pow2((k - 1) as nat);
    let w = pow2(p);
    let n = q * u + r;
    let n2 = 2 * q + 1;
    lemma_pow2_pos(j);
    lemma_pow2_pos((k - 1) as nat);
    lemma_pow2_unfold(k);
    lemma_pow2_adds(k, j);
    lemma_pow2_unfold(k + 1);
    assert(pow2_up(e - x) == b * u);
    assert(pow2_up(e - (x + j - 1)) == 2 * b);
    assert(pow2_up(x - e) == 1 && pow2_up(x + j - 1 - e) == 1);
    assert(n < b * u * w <==> n2 < 2 * b * w) by {
        let c = b * w;
        assert(b * u * w == c * u) by (nonlinear_arith)
            requires
                c == b * w,
        ;
        assert(2 * b * w == 2 * c) by (nonlinear_arith)
            requires
                c == b * w,
        ;
        if q < c {
            assert(q * u + u <= c * u) by (nonlinear_arith)
                requires
                    q + 1 <= c,
                    u >= 0,
            ;
        } else {
            assert(q * u >= c * u) by (nonlinear_arith)
                requires
                    q >= c,
                    u >= 0,
            ;
        }
    }
    assert(n * 1 == n && n2 * 1 == n2);
    assert(1 * (b * u) == b * u && 1 * (2 * b) == 2 * b);
    // The quotients agree, and the remainders lie on the same side of the half.
    let big = q / b;
    let a = q % b;
    lemma_fundamental_div_mod(q as int, b as int);
    assert(n == (b * u) * big + (a * u + r)) by (nonlinear_arith)
        requires
            n == q * u + r,
            q == b * big + a,
    ;
    assert(a * u + r < b * u) by (nonlinear_arith)
        requires
            a + 1 <= b,
            r < u,
    ;
    assert(a * u >= 0) by (nonlinear_arith)
        requires
            a >= 0,
            u >= 0,
    ;
    lemma_fundamental_div_mod_converse(
        n as int,
        (b * u) as int,
        big as int,
        (a * u + r) as int,
    );
    assert(n2 == (2 * b) * big + (2 * a + 1)) by (nonlinear_arith)
        requires
            n2 == 2 * q + 1,
            q == b * big + a,
    ;
    lemma_fundamental_div_mod_converse(
        n2 as int,
        (2 * b) as int,
        big as int,
        (2 * a + 1) as int,
    );
    assert(b == 2 * h);
    if a < h {
        assert(2 * (a * u + r) < b * u) by (nonlinear_arith)
            requires
                a + 1 <= h,
                b == 2 * h,
                r < u,
        ;
    } else {
        assert(2 * (a * u + r) > b * u) by (nonlinear_arith)
            requires
                a >= h,
                b == 2 * h,
                r > 0,
                u > 0,
        ;
    }
}

/// Where enough bits are kept, all that counts of those that follow is that some are set.
pub(crate) proof fn lemma_sticky(neg: bool, q: nat, j: nat, r: nat, x: int, format: Format)
    requires
        j >= 1,
        0 < r < pow2(j),
        q >= pow2(format.precision()),
    ensures
        rounded(neg, q * pow2(j) + r, 1, x, format) == rounded(
            neg,
            2 * q + 1,
            1,
            x + j - 1,
            format,
        ),
{
    let p = format.precision();
    let n = q * pow2(j) + r;
    let n2 = 2 * q + 1;
    let x2 = x + j - 1;
    lemma_exponent_exists(n, 1, x, format);
    let e = exponent(n, 1, x, format);
    lemma_sticky_low(q, j, r, x, p);
    if e <= x + j {
        lemma_below_mono(n, 1, x, p, e, x + j);
    }
    lemma_sticky_high(q, j, r, x, p, e);
    if e - 1 > x + j {
        lemma_sticky_high(q, j, r, x, p, e - 1);
    }
    assert(is_exponent(n2, 1, x2, format, e));
    lemma_exponent_unique(n2, 1, x2, format, e);
}

impl Format {
    /// `2^precision`
    pub(crate) fn limit(self) -> (limit: u128)
        ensures
            limit == pow2(self.precision()),
            0x100_0000 <= limit <= 0x20_0000_0000_0000,
    {
        proof {
            lemma2_to64();
            lemma2_to64_rest();
        }
        match self {
            Format::Single => 0x100_0000,
            Format::Double => 0x20_0000_0000_0000,
        }
    }

    pub(crate) fn least_exp(self) -> (exp: i32)
        ensures
            exp == self.min_exp(),
    {
        match self {
            Format::Single => -149,
            Format::Double => -1074,
        }
    }

    pub(crate) fn most_exp(self) -> (exp: i32)
        ensures
            exp == self.max_exp(),
    {
        match self {
            Format::Single => 104,
            Format::Double => 971,
        }
    }
}

/// Rounds `n / d * 2^x` to `format`.
pub(crate) fn round(neg: bool, n: u128, d: u128, x: i32, format: Format) -> (r: Float)
    requires
        n < 0x1000_0000_0000_0000_0000_0000_0000_0000,
        0 < d < 0x1_0000_0000_0000_0000,
        -100_000 <= x <= 100_000,
    ensures
        r == rounded(neg, n as nat, d as nat, x as int, format),
        r.wf(),
{
    let limit = format.limit();
    let least = format.least_exp();
    let ghost p = format.precision();
    proof {
        lemma2_to64();
    }
    if n == 0 {
        proof {
            lemma_zero(d as nat, x as int, format);
        }
        return Float::Finite { neg, man: 0, exp: least };
    }
    let mut num: u128 = n;
    let mut t: i32 = 0;
    assert(n * pow2(0) == n) by (nonlinear_arith)
        requires
            pow2(0) == 1,
    ;
    while num < 0x800_0000_0000_0000_0000_0000_0000_0000
        invariant
            0 < num < 0x1000_0000_0000_0000_0000_0000_0000_0000,
            0 <= t,
            num == n * pow2(t as nat),
            num >= pow2(t as nat),
            t <= 124,
        decreases 0x1000_0000_0000_0000_0000_0000_0000_0000 - num,
    {
        proof {
            lemma_pow2_unfold((t + 1) as nat);
            let u = pow2(t as nat);
            assert(n * (2 * u) == 2 * (n * u)) by (nonlinear_arith);
            if t >= 124 {
                lemma_pow2_124();
                if t > 124 {
                    lemma_pow2_strictly_increases(124, t as nat);
                }
            }
        }
        num = num * 2;
        t = t + 1;
    }
    let mut den: u128 = d;
    let mut s: i32 = 0;
    assert(d * pow2(0) == d) by (nonlinear_arith)
        requires
            pow2(0) == 1,
    ;
    while num / den >= limit
        invariant
            0x800_0000_0000_0000_0000_0000_0000_0000 <= num < 0x1000_0000_0000_0000_0000_0000_0000_0000,
            0x100_0000 <= limit <= 0x20_0000_0000_0000,
            0 <= s,
            0 < d < 0x1_0000_0000_0000_0000,
            0 < den,
            den == d * pow2(s as nat),
            den >= pow2(s as nat),
            s <= 124,
            s > 0 ==> num * 2 >= den * limit,
            s == 0 ==> den == d,
        decreases 0x2000_0000_0000_0000_0000_0000_0000_0000 - den,
    {
        proof {
            lemma_fundamental_div_mod(num as int, den as int);
            let q = num / den;
            assert(den * limit <= num) by (nonlinear_arith)
                requires
                    q >= limit,
                    num >= den * q,
                    den > 0,
            ;
            assert(den * 0x100_0000 <= num) by (nonlinear_arith)
                requires
                    den * limit <= num,
                    limit >= 0x100_0000,
                    den > 0,
            ;
            lemma_pow2_unfold((s + 1) as nat);
            let u = pow2(s as nat);
            assert(d * (2 * u) == 2 * (d * u)) by (nonlinear_arith);
            assert((den * 2) * limit == 2 * (den * limit)) by (nonlinear_arith);
            if s >= 124 {
                lemma_pow2_124();
                if s > 124 {
                    lemma_pow2_strictly_increases(124, s as nat);
                }
            }
        }
        den = den * 2;
        s = s + 1;
    }
    let mut e: i32 = x - t + s;
    proof {
        lemma_fundamental_div_mod(num as int, den as int);
        let q = num / den;
        let r = num % den;
        assert(num < den * limit) by (nonlinear_arith)
            requires
                q + 1 <= limit,
                num == den * q + r,
                r < den,
                den > 0,
        ;
        if s == 0 {
            assert(den * limit <= 0x1_0000_0000_0000_0000 * 0x20_0000_0000_0000) by (nonlinear_arith)
                requires
                    0 < den <= 0x1_0000_0000_0000_0000,
                    0 < limit <= 0x20_0000_0000_0000,
            ;
            assert(false);
        }
        lemma_shifted(n as nat, d as nat, x as int, p, t as nat, s as nat);
        let u = pow2((s - 1) as nat);
        lemma_pow2_unfold(s as nat);
        assert(d * (2 * u) == 2 * (d * u)) by (nonlinear_arith);
        assert((d * u) * limit * 2 == den * limit) by (nonlinear_arith)
            requires
                den == 2 * (d * u),
        ;
        lemma_shifted(n as nat, d as nat, x as int, p, t as nat, (s - 1) as nat);
        assert(!below(n as nat, d as nat, x as int, p, e - 1));
    }
    let ghost e0 = e;
    while e < least
        invariant
            0x800_0000_0000_0000_0000_0000_0000_0000 <= num < 0x1000_0000_0000_0000_0000_0000_0000_0000,
            0 < limit <= 0x20_0000_0000_0000,
            limit == pow2(p),
            p == format.precision(),
            least == format.min_exp(),
            0 <= t <= 124,
            0 < s,
            -100_000 <= x <= 100_000,
            e == x - t + s,
            e == e0 || e0 < e <= least,
            e0 <= 200_000,
            num == n * pow2(t as nat),
            0 < d,
            den == d * pow2(s as nat),
            num < den * limit,
        decreases least - e,
    {
        proof {
            lemma_shifted(n as nat, d as nat, x as int, p, t as nat, s as nat);
        }
        if den >= 0x2000_0000_0000_0000_0000_0000_0000_0000 {
            proof {
                lemma_vanishes(neg, n as nat, d as nat, x as int, format, t as nat, s as nat);
            }
            return Float::Finite { neg, man: 0, exp: least };
        }
        proof {
            lemma_pow2_unfold((s + 1) as nat);
            let u = pow2(s as nat);
            assert(d * (2 * u) == 2 * (d * u)) by (nonlinear_arith);
            assert(num < (2 * den) * limit) by (nonlinear_arith)
                requires
                    num < den * limit,
                    den >= 0,
                    limit > 0,
            ;
        }
        den = den * 2;
        s = s + 1;
        e = e + 1;
    }
    proof {
        lemma_shifted(n as nat, d as nat, x as int, p, t as nat, s as nat);
        assert(is_exponent(n as nat, d as nat, x as int, format, e as int));
        lemma_exponent_unique(n as nat, d as nat, x as int, format, e as int);
        lemma_fundamental_div_mod(num as int, den as int);
        let q = num / den;
        let r = num % den;
        assert(q < limit) by (nonlinear_arith)
            requires
                num == den * q + r,
                r >= 0,
                num < den * limit,
                den > 0,
        ;
    }
    let q: u128 = num / den;
    let r: u128 = num % den;
    let m: u128 = if r < den - r || (r == den - r && q % 2 == 0) {
        q
    } else {
        q + 1
    };
    assert(m == nearest(num as nat, den as nat));
    proof {
        lemma_pow2_unfold(p);
    }
    let (man, exp): (u128, i32) = if m >= limit {
        (limit / 2, e + 1)
    } else {
        (m, e)
    };
    if exp > format.most_exp() {
        Float::Infinite { neg }
    } else {
        Float::Finite { neg, man: man as u64, exp }
    }
}

} // verus!
