//! Every operation against the machine's own floating point.

use quinn_proto::float::{Float, Format, F32};

/// A xorshift generator: the same numbers in every run.
struct Numbers {
    state: u64,
}

impl Numbers {
    fn new() -> Self {
        Numbers { state: 0x9e37_79b9_7f4a_7c15 }
    }

    fn next(&mut self) -> u64 {
        self.state ^= self.state << 13;
        self.state ^= self.state >> 7;
        self.state ^= self.state << 17;
        self.state
    }

    /// Integers of all sizes.
    fn integer(&mut self) -> u64 {
        let shift = self.next() % 64;
        self.next() >> shift
    }
}

fn single(bits: u32) -> F32 {
    F32 { bits }
}

fn of(x: f32) -> F32 {
    F32 { bits: x.to_bits() }
}

/// The datum of a double.
fn double(x: f64) -> Float {
    let bits = x.to_bits();
    let neg = bits >> 63 == 1;
    let field = (bits >> 52) & 0x7ff;
    let fraction = bits & 0xf_ffff_ffff_ffff;
    if field == 0x7ff {
        if fraction == 0 {
            Float::Infinite { neg }
        } else {
            Float::NaN
        }
    } else if field == 0 {
        Float::Finite { neg, man: fraction, exp: -1074 }
    } else {
        Float::Finite { neg, man: fraction + 0x10_0000_0000_0000, exp: field as i32 - 1075 }
    }
}

/// The same number: zeros and significands may be written in more than one way.
fn same(a: Float, b: Float) -> bool {
    match (a, b) {
        (Float::NaN, Float::NaN) => true,
        (Float::Infinite { neg: x }, Float::Infinite { neg: y }) => x == y,
        (
            Float::Finite { neg: na, man: ma, exp: ea },
            Float::Finite { neg: nb, man: mb, exp: eb },
        ) => {
            if ma == 0 || mb == 0 {
                return ma == mb && na == nb;
            }
            let (za, zb) = (ma.trailing_zeros(), mb.trailing_zeros());
            na == nb && ma >> za == mb >> zb && ea + za as i32 == eb + zb as i32
        }
        _ => false,
    }
}

const EDGES: [u64; 20] = [
    0,
    1,
    2,
    3,
    999_999,
    1_000_000,
    (1 << 24) - 1,
    1 << 24,
    (1 << 24) + 1,
    (1 << 24) + 3,
    (1 << 53) - 1,
    1 << 53,
    (1 << 53) + 1,
    (1 << 53) + 3,
    (1 << 63) - 1,
    1 << 63,
    (1 << 63) + 1,
    u64::MAX - 2048,
    u64::MAX - 1,
    u64::MAX,
];

#[test]
fn integers_convert_as_the_machine_does() {
    let mut numbers = Numbers::new();
    let mut all: Vec<u64> = EDGES.to_vec();
    for _ in 0..20_000 {
        all.push(numbers.integer());
    }
    for n in all {
        let s = Float::from_u64(n, Format::Single);
        assert!(same(s, of(n as f32).get()), "{} in single precision", n);
        let d = Float::from_u64(n, Format::Double);
        assert!(same(d, double(n as f64)), "{} in double precision", n);
        assert_eq!(s.to_u64(), (n as f32) as u64);
        assert_eq!(d.to_u64(), (n as f64) as u64);
    }
}

#[test]
fn single_precision_arithmetic_is_the_machines() {
    let mut numbers = Numbers::new();
    for _ in 0..20_000 {
        let (x, y) = (numbers.next() as u32, numbers.next() as u32);
        let (a, b) = (f32::from_bits(x), f32::from_bits(y));
        let (fa, fb) = (single(x).get(), single(y).get());
        assert!(same(fa.times(fb, Format::Single), of(a * b).get()), "{:e} * {:e}", a, b);
        assert!(same(fa.over(fb, Format::Single), of(a / b).get()), "{:e} / {:e}", a, b);
        assert!(same(single(x).one_minus(), of(1.0 - a).get()), "1 - {:e}", a);
        assert_eq!(fa.lt(fb), a < b, "{:e} < {:e}", a, b);
        assert_eq!(fa.to_u64(), a as u64, "{:e} as an integer", a);
    }
}

#[test]
fn special_values_are_the_machines() {
    let values = [
        0.0f32,
        -0.0,
        1.0,
        -1.0,
        0.5,
        2.0,
        f32::MIN_POSITIVE,
        f32::from_bits(1),
        f32::from_bits(0x007f_ffff),
        f32::MAX,
        f32::MIN,
        f32::INFINITY,
        f32::NEG_INFINITY,
        f32::NAN,
        1.0e-30,
        f32::EPSILON,
        1.0 - f32::EPSILON / 2.0,
        1.8446744e19,
        1.8446743e19,
    ];
    for a in values {
        for b in values {
            let (fa, fb) = (of(a).get(), of(b).get());
            assert!(same(fa.times(fb, Format::Single), of(a * b).get()), "{:e} * {:e}", a, b);
            assert!(same(fa.over(fb, Format::Single), of(a / b).get()), "{:e} / {:e}", a, b);
            assert_eq!(fa.lt(fb), a < b, "{:e} < {:e}", a, b);
        }
        assert!(same(of(a).one_minus(), of(1.0 - a).get()), "1 - {:e}", a);
        assert_eq!(of(a).get().to_u64(), a as u64, "{:e} as an integer", a);
    }
}

#[test]
fn double_precision_arithmetic_is_the_machines() {
    let mut numbers = Numbers::new();
    for _ in 0..20_000 {
        let n = numbers.integer();
        let x = numbers.next() as u32;
        let a = f32::from_bits(x) as f64;
        let product = single(x).get().times(Float::from_u64(n, Format::Double), Format::Double);
        assert!(same(product, double(a * n as f64)), "{:e} * {}", a, n);
        let million = Float::from_u64(1_000_000, Format::Double);
        let quotient = product.over(million, Format::Double);
        assert!(same(quotient, double(a * n as f64 / 1_000_000f64)), "{:e} * {} / 1e6", a, n);
        assert_eq!(quotient.to_u64(), (a * n as f64 / 1_000_000f64) as u64);
    }
}

#[test]
fn scaling_is_the_machines() {
    let mut numbers = Numbers::new();
    let factors = [2.885f32, 2.0, 1.25, 1.0, 0.9, 0.85, 0.75, 0.7, 0.3, 0.02, 1.0 / 2.885];
    let mut all: Vec<u64> = EDGES.to_vec();
    for _ in 0..2_000 {
        all.push(numbers.integer());
    }
    for f in factors {
        for &n in &all {
            assert_eq!(of(f).scale(n, Format::Single), (f * n as f32) as u64, "{} * {}", f, n);
            assert_eq!(
                of(f).scale(n, Format::Double),
                (f as f64 * n as f64) as u64,
                "{} * {}",
                f,
                n
            );
            assert_eq!(
                of(f).scale_per_million(n),
                ((f as f64 * n as f64) / 1_000_000f64) as u64,
                "{} * {} / 1e6",
                f,
                n
            );
        }
    }
}

#[test]
fn factors_below_one_do_not_enlarge() {
    let mut numbers = Numbers::new();
    for _ in 0..5_000 {
        let n = numbers.integer();
        assert!(of(0.7).scale(n, Format::Single) <= n);
        assert!(of(0.85).scale(n, Format::Double) <= n);
    }
    assert_eq!(of(0.7).scale(1000, Format::Single), 700);
    assert_eq!(of(0.85).scale(1000, Format::Double), 850);
    assert_eq!(of(2.885).scale_per_million(1_000_000_000), 2884);
}

#[test]
fn targets_stay_below_their_limit() {
    assert!(of(2.885).scale_per_million(u64::MAX) <= 0x1_0000_0000_0000);
    assert_eq!(
        of(2.885).scale_per_million(u64::MAX),
        ((2.885f32 as f64 * u64::MAX as f64) / 1_000_000f64) as u64
    );
}
