//! The operations on floating-point numbers.

use crate::float::rounding::{
    lemma_pow2_at_least, lemma_pow2_up_pos, lemma_rescaled, lemma_sticky, pow2_up, round, rounded,
};
use crate::float::{
    complement, integer, less, magnitude_less, product, quotient, truncated, Float, Format, F32,
};
use vstd::arithmetic::div_mod::{lemma_basic_div, lemma_div_nonincreasing};
use vstd::arithmetic::power2::{
    lemma2_to64, lemma2_to64_rest, lemma_pow2_adds, lemma_pow2_pos, lemma_pow2_unfold, pow2,
};
use vstd::prelude::*;

verus! {

/// A product of an integer below `2^64` and a power of two up to `2^64` fits.
proof fn lemma_doubled_fits(m: u64, k: nat)
    requires
        k <= 64,
    ensures
        m * pow2(k) <= u128::MAX,
{
    lemma2_to64();
    lemma_pow2_at_least(k, 64);
    let u = pow2(k);
    assert(m * u <= 0xffff_ffff_ffff_ffff * 0x1_0000_0000_0000_0000) by (nonlinear_arith)
        requires
            0 <= m <= 0xffff_ffff_ffff_ffff,
            0 <= u <= 0x1_0000_0000_0000_0000,
    ;
}

/// `m * 2^k`
fn doubled(m: u64, k: u32) -> (r: u128)
    requires
        m * pow2(k as nat) <= u128::MAX,
    ensures
        r == m * pow2(k as nat),
{
    let mut r: u128 = m as u128;
    let mut i: u32 = 0;
    proof {
        lemma2_to64();
    }
    while i < k
        invariant
            i <= k,
            r == m * pow2(i as nat),
            m * pow2(k as nat) <= u128::MAX,
        decreases k - i,
    {
        proof {
            lemma_pow2_unfold((i + 1) as nat);
            lemma_pow2_at_least((i + 1) as nat, k as nat);
            let u = pow2(i as nat);
            let w = pow2(k as nat);
            assert(m * (2 * u) == 2 * (m * u)) by (nonlinear_arith);
            assert(m * (2 * u) <= m * w) by (nonlinear_arith)
                requires
                    2 * u <= w,
                    0 <= m,
            ;
        }
        r = r * 2;
        i = i + 1;
    }
    r
}

/// `ma * 2^ea < mb * 2^eb`
fn smaller(ma: u64, ea: i32, mb: u64, eb: i32) -> (r: bool)
    requires
        -10_000 <= ea <= 10_000,
        -10_000 <= eb <= 10_000,
    ensures
        r == magnitude_less(ma as nat, ea as int, mb as nat, eb as int),
{
    proof {
        lemma2_to64();
    }
    if ea >= eb {
        let k: i32 = ea - eb;
        assert(mb * pow2_up(eb - ea) == mb) by {
            assert(pow2_up(eb - ea) == 1);
        }
        if ma == 0 {
            assert(0 * pow2_up(k as int) == 0);
            0 < mb
        } else if k > 64 {
            proof {
                lemma_pow2_at_least(64, k as nat);
                let u = pow2(k as nat);
                assert(ma * u >= u) by (nonlinear_arith)
                    requires
                        ma >= 1,
                        u >= 0,
                ;
            }
            false
        } else {
            proof {
                lemma_doubled_fits(ma, k as nat);
            }
            doubled(ma, k as u32) < mb as u128
        }
    } else {
        let k: i32 = eb - ea;
        assert(ma * pow2_up(ea - eb) == ma) by {
            assert(pow2_up(ea - eb) == 1);
        }
        if mb == 0 {
            assert(0 * pow2_up(k as int) == 0);
            false
        } else if k > 64 {
            proof {
                lemma_pow2_at_least(64, k as nat);
                let u = pow2(k as nat);
                assert(mb * u >= u) by (nonlinear_arith)
                    requires
                        mb >= 1,
                        u >= 0,
                ;
            }
            true
        } else {
            proof {
                lemma_doubled_fits(mb, k as nat);
            }
            (ma as u128) < doubled(mb, k as u32)
        }
    }
}

impl F32 {
    /// Reads the bit pattern.
    pub fn get(self) -> (a: Float)
        ensures
            a == self.value(),
            a.wf(),
    {
        let neg: bool = self.bits >= 0x8000_0000;
        let field: u32 = (self.bits / 0x80_0000) % 0x100;
        let fraction: u32 = self.bits % 0x80_0000;
        if field == 0xff {
            if fraction == 0 {
                Float::Infinite { neg }
            } else {
                Float::NaN
            }
        } else if field == 0 {
            Float::Finite { neg, man: fraction as u64, exp: -149 }
        } else {
            Float::Finite { neg, man: (fraction + 0x80_0000) as u64, exp: field as i32 - 150 }
        }
    }
}

impl Float {
    /// `n`, rounded to `format`.
    pub fn from_u64(n: u64, format: Format) -> (r: Float)
        ensures
            r == integer(n as nat, format),
            r.wf(),
    {
        round(false, n as u128, 1, 0, format)
    }

    /// `self * other`, rounded to `format`.
    pub fn times(self, other: Float, format: Format) -> (r: Float)
        requires
            self.wf(),
            other.wf(),
        ensures
            r == product(self, other, format),
            r.wf(),
    {
        match self {
            Float::Finite { neg: na, man: ma, exp: ea } => match other {
                Float::Finite { neg: nb, man: mb, exp: eb } => {
                    assert(ma * mb < 0x20_0000_0000_0000 * 0x20_0000_0000_0000) by (nonlinear_arith)
                        requires
                            0 <= ma < 0x20_0000_0000_0000,
                            0 <= mb < 0x20_0000_0000_0000,
                    ;
                    round(na != nb, ma as u128 * mb as u128, 1, ea + eb, format)
                },
                Float::Infinite { neg: nb } => if ma == 0 {
                    Float::NaN
                } else {
                    Float::Infinite { neg: na != nb }
                },
                Float::NaN => Float::NaN,
            },
            Float::Infinite { neg: na } => match other {
                Float::Finite { neg: nb, man, .. } => if man == 0 {
                    Float::NaN
                } else {
                    Float::Infinite { neg: na != nb }
                },
                Float::Infinite { neg: nb } => Float::Infinite { neg: na != nb },
                Float::NaN => Float::NaN,
            },
            Float::NaN => Float::NaN,
        }
    }

    /// `self / other`, rounded to `format`.
    pub fn over(self, other: Float, format: Format) -> (r: Float)
        requires
            self.wf(),
            other.wf(),
        ensures
            r == quotient(self, other, format),
            r.wf(),
    {
        match self {
            Float::Finite { neg: na, man: ma, exp: ea } => match other {
                Float::Finite { neg: nb, man: mb, exp: eb } => {
                    if mb != 0 {
                        round(na != nb, ma as u128, mb as u128, ea - eb, format)
                    } else if ma != 0 {
                        Float::Infinite { neg: na != nb }
                    } else {
                        Float::NaN
                    }
                },
                Float::Infinite { neg: nb } => Float::Finite {
                    neg: na != nb,
                    man: 0,
                    exp: format.least_exp(),
                },
                Float::NaN => Float::NaN,
            },
            Float::Infinite { neg: na } => match other {
                Float::Finite { neg: nb, .. } => Float::Infinite { neg: na != nb },
                _ => Float::NaN,
            },
            Float::NaN => Float::NaN,
        }
    }

    /// The integer part, brought into range.
    pub fn to_u64(self) -> (n: u64)
        requires
            self.wf(),
        ensures
            n == truncated(self),
    {
        match self {
            Float::Finite { neg, man, exp } => {
                proof {
                    lemma2_to64();
                    lemma_pow2_up_pos(exp as int);
                    lemma_pow2_up_pos(-exp);
                }
                if neg {
                    0
                } else if exp >= 0 {
                    assert(pow2_up(-exp) == 1);
                    assert(man * pow2_up(exp as int) / 1 == man * pow2_up(exp as int));
                    if man == 0 {
                        assert(0 * pow2_up(exp as int) == 0);
                        0
                    } else if exp >= 64 {
                        proof {
                            lemma_pow2_at_least(64, exp as nat);
                            let u = pow2(exp as nat);
                            assert(man * u >= u) by (nonlinear_arith)
                                requires
                                    man >= 1,
                                    u >= 0,
                            ;
                        }
                        u64::MAX
                    } else {
                        proof {
                            lemma_doubled_fits(man, exp as nat);
                        }
                        let shifted: u128 = doubled(man, exp as u32);
                        if shifted > u64::MAX as u128 {
                            u64::MAX
                        } else {
                            shifted as u64
                        }
                    }
                } else if exp <= -64 {
                    proof {
                        assert(man * pow2_up(exp as int) == man) by (nonlinear_arith)
                            requires
                                pow2_up(exp as int) == 1,
                        ;
                        lemma_pow2_at_least(64, (-exp) as nat);
                        lemma_basic_div(
                            man as int,
                            pow2((-exp) as nat) as int,
                        );
                    }
                    0
                } else {
                    proof {
                        assert(man * pow2_up(exp as int) == man) by (nonlinear_arith)
                            requires
                                pow2_up(exp as int) == 1,
                        ;
                        lemma_pow2_at_least((-exp) as nat, 64);
                        lemma_div_nonincreasing(
                            man as int,
                            pow2((-exp) as nat) as int,
                        );
                    }
                    proof {
                        lemma_doubled_fits(1, (-exp) as nat);
                    }
                    let unit: u128 = doubled(1, (-exp) as u32);
                    let whole: u128 = man as u128 / unit;
                    assert(1 * pow2((-exp) as nat) == pow2((-exp) as nat)) by (nonlinear_arith);
                    assert(whole == man as int / pow2((-exp) as nat) as int);
                    whole as u64
                }
            },
            Float::Infinite { neg } => if neg {
                0
            } else {
                u64::MAX
            },
            Float::NaN => 0,
        }
    }

    /// `self < other`
    pub fn lt(self, other: Float) -> (r: bool)
        requires
            self.wf(),
            other.wf(),
        ensures
            r == less(self, other),
    {
        match self {
            Float::Finite { neg: na, man: ma, exp: ea } => match other {
                Float::Finite { neg: nb, man: mb, exp: eb } => {
                    if na && nb {
                        smaller(mb, eb, ma, ea)
                    } else if !na && !nb {
                        smaller(ma, ea, mb, eb)
                    } else {
                        na && (ma != 0 || mb != 0)
                    }
                },
                Float::Infinite { neg: nb } => !nb,
                Float::NaN => false,
            },
            Float::Infinite { neg: na } => match other {
                Float::Finite { .. } => na,
                Float::Infinite { neg: nb } => na && !nb,
                Float::NaN => false,
            },
            Float::NaN => false,
        }
    }
}

/// One minus a number that is too small to show: the last bits of the result are decided.
proof fn lemma_complement_tiny(neg: bool, man: u64, exp: i32)
    requires
        0 < man < 0x100_0000,
        -149 <= exp < -100,
    ensures
        complement(Float::Finite { neg, man, exp }, Format::Single) == rounded(
            false,
            if neg {
                0x2000_0000_0000_0001
            } else {
                0x1fff_ffff_ffff_ffff
            },
            1,
            -61,
            Format::Single,
        ),
{
    let j = (-exp - 60) as nat;
    let u = pow2(j);
    let v = pow2(60);
    lemma2_to64();
    lemma2_to64_rest();
    lemma_pow2_adds(60, j);
    lemma_pow2_at_least(24, j);
    assert(man * pow2(0) == man) by (nonlinear_arith)
        requires
            pow2(0) == 1,
    ;
    assert(v * u >= u) by (nonlinear_arith)
        requires
            v >= 1,
            u >= 0,
    ;
    if neg {
        lemma_sticky(false, v, j, man as nat, exp as int, Format::Single);
    } else {
        assert((v - 1) * u + (u - man) == v * u - man) by (nonlinear_arith);
        lemma_sticky(false, (v - 1) as nat, j, (u - man) as nat, exp as int, Format::Single);
    }
}

/// One minus a number beside which the one does not show.
proof fn lemma_complement_huge(neg: bool, man: u64, exp: i32)
    requires
        0x80_0000 <= man < 0x100_0000,
        60 < exp <= 104,
    ensures
        complement(Float::Finite { neg, man, exp }, Format::Single) == rounded(
            !neg,
            if neg {
                (man * 0x200_0000_0000 + 1) as nat
            } else {
                (man * 0x200_0000_0000 - 1) as nat
            },
            1,
            exp - 41,
            Format::Single,
        ),
{
    let j = (exp - 40) as nat;
    let u = pow2(j);
    let v = pow2(40);
    lemma2_to64();
    lemma2_to64_rest();
    lemma_pow2_adds(40, j);
    lemma_pow2_at_least(20, j);
    assert(man * (v * u) == (man * v) * u) by (nonlinear_arith);
    assert((man * v) * u > 1) by (nonlinear_arith)
        requires
            man >= 2,
            v >= 1,
            u >= 1,
    ;
    if neg {
        lemma_sticky(false, (man * v) as nat, j, 1, 0, Format::Single);
    } else {
        assert((man * v - 1) * u + (u - 1) == (man * v) * u - 1) by (nonlinear_arith);
        lemma_sticky(true, (man * v - 1) as nat, j, (u - 1) as nat, 0, Format::Single);
    }
}

fn one_minus_fraction(neg: bool, man: u64, exp: i32) -> (r: Float)
    requires
        man < 0x100_0000,
        -100 <= exp < 0,
    ensures
        r == complement((Float::Finite { neg, man, exp }), Format::Single),
        r.wf(),
{
    proof {
        lemma2_to64();
        lemma2_to64_rest();
        lemma_pow2_at_least((-exp) as nat, 100);
        lemma_pow2_adds(64, 36);
        assert(1 * pow2((-exp) as nat) == pow2((-exp) as nat)) by (nonlinear_arith);
        assert(man * pow2(0) == man) by (nonlinear_arith)
            requires
                pow2(0) == 1,
        ;
    }
    let one: u128 = doubled(1, (-exp) as u32);
    if neg {
        round(false, one + man as u128, 1, exp, Format::Single)
    } else if one >= man as u128 {
        round(false, one - man as u128, 1, exp, Format::Single)
    } else {
        round(true, man as u128 - one, 1, exp, Format::Single)
    }
}

fn one_minus_integer(neg: bool, man: u64, exp: i32) -> (r: Float)
    requires
        man < 0x100_0000,
        0 <= exp <= 60,
    ensures
        r == complement((Float::Finite { neg, man, exp }), Format::Single),
        r.wf(),
{
    proof {
        lemma2_to64();
        lemma2_to64_rest();
        lemma_doubled_fits(man, exp as nat);
        lemma_pow2_at_least(exp as nat, 60);
        let u = pow2(exp as nat);
        assert(man * u <= 0x100_0000 * 0x1000_0000_0000_0000) by (nonlinear_arith)
            requires
                0 <= man <= 0x100_0000,
                0 <= u <= 0x1000_0000_0000_0000,
        ;
    }
    let magnitude: u128 = doubled(man, exp as u32);
    if neg {
        round(false, 1 + magnitude, 1, 0, Format::Single)
    } else if magnitude <= 1 {
        round(false, 1 - magnitude, 1, 0, Format::Single)
    } else {
        round(true, magnitude - 1, 1, 0, Format::Single)
    }
}

impl F32 {
    /// `1 - self`, rounded to single precision.
    pub fn one_minus(self) -> (r: Float)
        ensures
            r == complement(self.value(), Format::Single),
            r.wf(),
    {
        match self.get() {
            Float::Finite { neg, man, exp } => {
                proof {
                    lemma2_to64();
                }
                if exp < -100 && man == 0 {
                    proof {
                        let k = (-exp) as nat;
                        lemma_pow2_pos(k);
                        assert(0 * pow2(0) == 0);
                        assert(1 * pow2(k) == pow2(k)) by (nonlinear_arith);
                        lemma_rescaled(false, 1, 1, 0, k, Format::Single);
                    }
                    round(false, 1, 1, 0, Format::Single)
                } else if exp < -100 {
                    proof {
                        lemma_complement_tiny(neg, man, exp);
                    }
                    if neg {
                        round(false, 0x2000_0000_0000_0001, 1, -61, Format::Single)
                    } else {
                        round(false, 0x1fff_ffff_ffff_ffff, 1, -61, Format::Single)
                    }
                } else if exp < 0 {
                    one_minus_fraction(neg, man, exp)
                } else if exp <= 60 {
                    one_minus_integer(neg, man, exp)
                } else {
                    proof {
                        lemma_complement_huge(neg, man, exp);
                    }
                    let wide: u128 = man as u128 * 0x200_0000_0000;
                    if neg {
                        round(false, wide + 1, 1, exp - 41, Format::Single)
                    } else {
                        round(true, wide - 1, 1, exp - 41, Format::Single)
                    }
                }
            },
            Float::Infinite { neg } => Float::Infinite { neg: !neg },
            Float::NaN => Float::NaN,
        }
    }
}

} // verus!
