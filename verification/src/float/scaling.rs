//! Integers multiplied by a single-precision factor.

use crate::float::bounds::{lemma_quotient_close, lemma_scaled_close, lemma_truncated_units, units};
use crate::float::near::lemma_scaled_raw;
use crate::float::rounding::{lemma_pow2_at_least, rounded};
use crate::float::{integer, product, quotient, truncated, Float, Format, F32};
use vstd::arithmetic::power2::{lemma2_to64, lemma2_to64_rest, lemma_pow2_pos, pow2};
use vstd::prelude::*;

verus! {

/// The integer part of `factor * n`, carried out in `format`.
pub open spec fn scaled(factor: F32, n: u64, format: Format) -> u64 {
    truncated(product(factor.value(), integer(n as nat, format), format))
}

/// One million, which every format holds exactly.
pub open spec fn million() -> Float {
    Float::Finite { neg: false, man: 1_000_000, exp: 0 }
}

/// The integer part of `factor * n / 1_000_000`, carried out in double precision.
pub open spec fn scaled_per_million(factor: F32, n: u64) -> u64 {
    truncated(
        quotient(
            product(factor.value(), integer(n as nat, Format::Double), Format::Double),
            million(),
            Format::Double,
        ),
    )
}

impl F32 {
    /// `(self * n) as u64`
    pub fn scale(self, n: u64, format: Format) -> (r: u64)
        ensures
            r == scaled(self, n, format),
    {
        self.get().times(Float::from_u64(n, format), format).to_u64()
    }

    /// `(self * n / 1_000_000) as u64`
    pub fn scale_per_million(self, n: u64) -> (r: u64)
        ensures
            r == scaled_per_million(self, n),
    {
        let bytes = self.get().times(Float::from_u64(n, Format::Double), Format::Double);
        bytes.over(Float::Finite { neg: false, man: 1_000_000, exp: 0 }, Format::Double).to_u64()
    }

    /// A positive number below four, and no less than `2^-40`.
    pub open spec fn is_moderate(self) -> bool {
        match self.value() {
            Float::Finite { neg, man, exp } => !neg && man > 0 && -40 <= exp <= -22,
            _ => false,
        }
    }
}

/// A factor below one does not enlarge an integer, whatever is rounded on the way.
pub proof fn lemma_scaled_no_more(factor: Float, n: u64, format: Format)
    requires
        match factor {
            Float::Finite { neg, man, exp } => !neg && 0 < man && exp == -24 && man <= 0xff_0000,
            _ => false,
        },
    ensures
        truncated(product(factor, integer(n as nat, format), format)) <= n,
{
    lemma2_to64();
    lemma2_to64_rest();
    match factor {
        Float::Finite { neg, man, exp } => {
            lemma_scaled_close(man, exp, n, format);
            match product(factor, integer(n as nat, format), format) {
                Float::Finite { neg: _, man: m, exp: e } => {
                    let w = pow2(format.precision());
                    let g = pow2(3000);
                    let t = truncated(Float::Finite { neg: false, man: m, exp: e });
                    let u = units(m as nat, e as int);
                    lemma_truncated_units(m, e);
                    lemma_pow2_pos(3000);
                    lemma_pow2_pos(format.precision());
                    let a = 0x100_0000 * (w * w);
                    let b = (w + 1) * (w + 1);
                    assert(a > 0) by (nonlinear_arith)
                        requires
                            a == 0x100_0000 * (w * w),
                            w >= 0x100_0000,
                    ;
                    assert(man * b <= a) by (nonlinear_arith)
                        requires
                            a == 0x100_0000 * (w * w),
                            b == (w + 1) * (w + 1),
                            0 < man <= 0xff_0000,
                            w >= 0x100_0000,
                    ;
                    assert(t <= n) by (nonlinear_arith)
                        requires
                            t * g <= u,
                            u * 0x100_0000 * (w * w) <= man * (n * g) * b,
                            a == 0x100_0000 * (w * w),
                            man * b <= a,
                            a > 0,
                            g > 0,
                            n >= 0,
                            t >= 0,
                    {
                        assert(u * a == u * 0x100_0000 * (w * w));
                        assert(man * (n * g) * b == (n * g) * (man * b));
                        assert((n * g) * (man * b) <= (n * g) * a);
                        assert((t * g) * a <= u * a);
                        assert((t * g) * a <= (n * g) * a);
                        assert((t * g) * a == t * (g * a) && (n * g) * a == n * (g * a));
                        assert(g * a > 0);
                    }
                },
                _ => {},
            }
        },
        _ => {},
    }
}

/// A factor below one makes a positive integer smaller.
pub proof fn lemma_scaled_less(factor: Float, n: u64, format: Format)
    requires
        match factor {
            Float::Finite { neg, man, exp } => !neg && 0 < man && exp == -24 && man <= 0xff_0000,
            _ => false,
        },
        n > 0,
    ensures
        truncated(product(factor, integer(n as nat, format), format)) < n,
{
    lemma2_to64();
    lemma2_to64_rest();
    match factor {
        Float::Finite { neg, man, exp } => {
            lemma_scaled_raw(man, exp, n, format);
            let t = truncated(product(factor, integer(n as nat, format), format));
            let w = pow2(format.precision());
            let a = 0x100_0000 * (w * w);
            let b = (w + 1) * (w + 1);
            assert(man * b < a) by (nonlinear_arith)
                requires
                    a == 0x100_0000 * (w * w),
                    b == (w + 1) * (w + 1),
                    0 < man <= 0xff_0000,
                    w >= 0x100_0000,
            ;
            assert(t < n) by (nonlinear_arith)
                requires
                    t * 0x100_0000 * (w * w) <= man * n * b,
                    a == 0x100_0000 * (w * w),
                    man * b < a,
                    n > 0,
                    t >= 0,
                    b >= 0,
                    man > 0,
            {
                assert(t * 0x100_0000 * (w * w) == t * a);
                assert(man * n * b == n * (man * b));
                assert(n * (man * b) < n * a);
                assert(a > 0);
            }
        },
        _ => {},
    }
}

/// A moderate factor, applied to any integer and divided by a million, stays below `2^48`.
pub proof fn lemma_scaled_per_million_bound(factor: F32, n: u64)
    requires
        factor.is_moderate(),
    ensures
        scaled_per_million(factor, n) <= 0x1_0000_0000_0000,
{
    lemma2_to64();
    lemma2_to64_rest();
    match factor.value() {
        Float::Finite { neg, man, exp } => {
            lemma_scaled_close(man, exp, n, Format::Double);
            match product(factor.value(), integer(n as nat, Format::Double), Format::Double) {
                Float::Finite { neg: _, man: m, exp: e } => {
                    lemma_quotient_close(m, e);
                    match rounded(false, m as nat, 1_000_000, e as int, Format::Double) {
                        Float::Finite { neg: _, man: mq, exp: eq } => {
                            lemma_truncated_units(mq, eq);
                            lemma_pow2_pos(3000);
                            lemma_pow2_at_least(22, (-exp) as nat);
                            let t = truncated(Float::Finite { neg: false, man: mq, exp: eq });
                            lemma_per_million_arithmetic(
                                t as nat,
                                units(mq as nat, eq as int),
                                units(m as nat, e as int),
                                pow2(53),
                                pow2((-exp) as nat),
                                pow2(3000),
                                man as nat,
                                n as nat,
                            );
                        },
                        _ => {},
                    }
                },
                _ => {},
            }
        },
        _ => {},
    }
}

/// `t` is `q` in units of `g`, `q` is at most `u / 1_000_000`, and `u` is at most
/// `man * n * g / b`, each up to one part in `w`.
proof fn lemma_per_million_arithmetic(
    t: nat,
    q: nat,
    u: nat,
    w: nat,
    b: nat,
    g: nat,
    man: nat,
    n: nat,
)
    requires
        t * g <= q,
        q * 1_000_000 * w <= u * (w + 1),
        u * b * (w * w) <= man * (n * g) * ((w + 1) * (w + 1)),
        w >= 0x100_0000,
        b >= 0x40_0000,
        g > 0,
        man < 0x100_0000,
        n < 0x1_0000_0000_0000_0000,
    ensures
        t <= 0x1_0000_0000_0000,
{
    let v = w + 1;
    let c = b * (w * w);
    let z = w * c;
    let v3 = v * (v * v);
    assert((t * g) * 1_000_000 * z <= (man * (n * g)) * v3) by (nonlinear_arith)
        requires
            t * g <= q,
            q * 1_000_000 * w <= u * v,
            u * b * (w * w) <= man * (n * g) * (v * v),
            c == b * (w * w),
            z == w * c,
            v3 == v * (v * v),
            c >= 0,
            v >= 0,
            w >= 0,
    {
        assert((t * g) * 1_000_000 * z <= q * 1_000_000 * z);
        assert(q * 1_000_000 * z == (q * 1_000_000 * w) * c);
        assert((q * 1_000_000 * w) * c <= (u * v) * c);
        assert((u * v) * c == (u * b * (w * w)) * v);
        assert((u * b * (w * w)) * v <= (man * (n * g) * (v * v)) * v);
        assert((man * (n * g) * (v * v)) * v == (man * (n * g)) * v3);
    }
    assert(v3 <= 2 * (w * (w * w))) by (nonlinear_arith)
        requires
            v == w + 1,
            v3 == v * (v * v),
            w >= 0x100_0000,
    {
        assert(v3 == w * (w * w) + 3 * (w * w) + 3 * w + 1);
        assert(w * (w * w) >= 0x100_0000 * (w * w));
        assert(w * w >= 0x100_0000 * w);
    }
    let w3 = w * (w * w);
    assert(z == b * w3) by (nonlinear_arith)
        requires
            c == b * (w * w),
            z == w * c,
            w3 == w * (w * w),
    ;
    assert(w3 > 0) by (nonlinear_arith)
        requires
            w3 == w * (w * w),
            w > 0,
    ;
    assert(t * 1_000_000 * b <= 2 * (man * n)) by (nonlinear_arith)
        requires
            (t * g) * 1_000_000 * z <= (man * (n * g)) * v3,
            v3 <= 2 * w3,
            z == b * w3,
            w3 > 0,
            g > 0,
            man >= 0,
            n >= 0,
    {
        assert((t * g) * 1_000_000 * (b * w3) == (t * 1_000_000 * b) * (g * w3));
        assert((man * (n * g)) * v3 <= (man * (n * g)) * (2 * w3));
        assert((man * (n * g)) * (2 * w3) == (2 * (man * n)) * (g * w3));
        assert(g * w3 > 0);
    }
    assert(man * n <= 0x100_0000 * 0x1_0000_0000_0000_0000) by (nonlinear_arith)
        requires
            0 <= man < 0x100_0000,
            0 <= n < 0x1_0000_0000_0000_0000,
    ;
    assert(t * 1_000_000 * 0x40_0000 <= t * 1_000_000 * b) by (nonlinear_arith)
        requires
            b >= 0x40_0000,
            t >= 0,
    ;
}

} // verus!
