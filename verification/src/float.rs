//! IEEE 754 binary floating point, carried out in integers.
//!
//! A number is taken apart into a significand and a power of two, an operation is carried out
//! exactly on these, and the result is rounded once. What is stated here is the value of each
//! operation as the standard has it; [`arithmetic`] computes it.

pub mod arithmetic;
pub mod bounds;
pub mod exact;
pub mod laws;
pub mod near;
pub mod ratio;
pub mod rounding;
pub mod scaling;

use crate::float::rounding::{pow2_up, rounded};
use vstd::arithmetic::power2::pow2;
use vstd::prelude::*;

verus! {

/// The two interchange formats in use.
#[derive(Debug, Clone, Copy, PartialEq, Eq, Structural)]
pub enum Format {
    /// 32 bits: 24 significant bits.
    Single,
    /// 64 bits: 53 significant bits.
    Double,
}

impl Format {
    /// Number of significant bits.
    pub open spec fn precision(self) -> nat {
        match self {
            Format::Single => 24,
            Format::Double => 53,
        }
    }

    /// Exponent of the smallest positive number.
    pub open spec fn min_exp(self) -> int {
        match self {
            Format::Single => -149,
            Format::Double => -1074,
        }
    }

    /// Exponent of the last place of the largest finite number.
    pub open spec fn max_exp(self) -> int {
        match self {
            Format::Single => 104,
            Format::Double => 971,
        }
    }
}

/// A floating-point datum: a finite one stands for `man * 2^exp`, negated if `neg`.
#[derive(Debug, Clone, Copy, PartialEq, Eq, Structural)]
pub enum Float {
    NaN,
    Infinite { neg: bool },
    Finite { neg: bool, man: u64, exp: i32 },
}

impl Float {
    /// The datum is within reach of the wider format.
    pub open spec fn wf(self) -> bool {
        match self {
            Float::Finite { man, exp, .. } => man < 0x20_0000_0000_0000 && -1074 <= exp <= 971,
            _ => true,
        }
    }
}

/// The integer `n` in `format`.
pub open spec fn integer(n: nat, format: Format) -> Float {
    rounded(false, n, 1, 0, format)
}

/// `a * b` in `format`.
pub open spec fn product(a: Float, b: Float, format: Format) -> Float {
    match (a, b) {
        (
            Float::Finite { neg: na, man: ma, exp: ea },
            Float::Finite { neg: nb, man: mb, exp: eb },
        ) => rounded(na != nb, (ma * mb) as nat, 1, ea + eb, format),
        (Float::Infinite { neg: na }, Float::Infinite { neg: nb }) => Float::Infinite {
            neg: na != nb,
        },
        (Float::Infinite { neg: na }, Float::Finite { neg: nb, man, .. }) => if man == 0 {
            Float::NaN
        } else {
            Float::Infinite { neg: na != nb }
        },
        (Float::Finite { neg: na, man, .. }, Float::Infinite { neg: nb }) => if man == 0 {
            Float::NaN
        } else {
            Float::Infinite { neg: na != nb }
        },
        _ => Float::NaN,
    }
}

/// `a / b` in `format`.
pub open spec fn quotient(a: Float, b: Float, format: Format) -> Float {
    match (a, b) {
        (
            Float::Finite { neg: na, man: ma, exp: ea },
            Float::Finite { neg: nb, man: mb, exp: eb },
        ) => if mb != 0 {
            rounded(na != nb, ma as nat, mb as nat, ea - eb, format)
        } else if ma != 0 {
            Float::Infinite { neg: na != nb }
        } else {
            Float::NaN
        },
        (Float::Infinite { neg: na }, Float::Finite { neg: nb, .. }) => Float::Infinite {
            neg: na != nb,
        },
        (Float::Finite { neg: na, .. }, Float::Infinite { neg: nb }) => Float::Finite {
            neg: na != nb,
            man: 0,
            exp: format.min_exp() as i32,
        },
        _ => Float::NaN,
    }
}

/// `1 - a` in `format`.
pub open spec fn complement(a: Float, format: Format) -> Float {
    match a {
        Float::Finite { neg, man, exp } => {
            let e = if exp < 0 {
                exp as int
            } else {
                0
            };
            let magnitude = man * pow2((exp - e) as nat);
            let v = if neg {
                pow2((-e) as nat) + magnitude
            } else {
                pow2((-e) as nat) - magnitude
            };
            if v < 0 {
                rounded(true, (-v) as nat, 1, e, format)
            } else {
                rounded(false, v as nat, 1, e, format)
            }
        },
        Float::Infinite { neg } => Float::Infinite { neg: !neg },
        Float::NaN => Float::NaN,
    }
}

/// The integer part of `a`, brought into the range of the result; zero for what is no number.
pub open spec fn truncated(a: Float) -> u64 {
    match a {
        Float::Finite { neg, man, exp } => {
            let whole = (man * pow2_up(exp as int)) / (pow2_up(-exp) as int);
            if neg {
                0
            } else if whole > u64::MAX {
                u64::MAX
            } else {
                whole as u64
            }
        },
        Float::Infinite { neg } => if neg {
            0
        } else {
            u64::MAX
        },
        Float::NaN => 0,
    }
}

/// `ma * 2^ea < mb * 2^eb`
pub open spec fn magnitude_less(ma: nat, ea: int, mb: nat, eb: int) -> bool {
    ma * pow2_up(ea - eb) < mb * pow2_up(eb - ea)
}

/// `a < b`; false where either is no number.
pub open spec fn less(a: Float, b: Float) -> bool {
    match (a, b) {
        (
            Float::Finite { neg: na, man: ma, exp: ea },
            Float::Finite { neg: nb, man: mb, exp: eb },
        ) => if na && nb {
            magnitude_less(mb as nat, eb as int, ma as nat, ea as int)
        } else if !na && !nb {
            magnitude_less(ma as nat, ea as int, mb as nat, eb as int)
        } else {
            na && (ma != 0 || mb != 0)
        },
        (Float::Infinite { neg: na }, Float::Infinite { neg: nb }) => na && !nb,
        (Float::Infinite { neg: na }, Float::Finite { .. }) => na,
        (Float::Finite { .. }, Float::Infinite { neg: nb }) => !nb,
        _ => false,
    }
}

/// A single-precision number by its bit pattern.
#[derive(Debug, Clone, Copy, PartialEq, Eq, Structural)]
pub struct F32 {
    pub bits: u32,
}

impl F32 {
    /// What the bit pattern stands for.
    pub open spec fn value(self) -> Float {
        let neg = self.bits >= 0x8000_0000;
        let field = (self.bits / 0x80_0000) % 0x100;
        let fraction = self.bits % 0x80_0000;
        if field == 0xff {
            if fraction == 0 {
                Float::Infinite { neg }
            } else {
                Float::NaN
            }
        } else if field == 0 {
            Float::Finite { neg, man: fraction as u64, exp: (-149) as i32 }
        } else {
            Float::Finite {
                neg,
                man: (fraction + 0x80_0000) as u64,
                exp: (field - 150) as i32,
            }
        }
    }
}

} // verus!
