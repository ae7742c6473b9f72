use xemm_rust::double::Double;

fn d(x: f64) -> Double {
    Double::from_bits(x.to_bits())
}

fn f(x: Double) -> f64 {
    f64::from_bits(x.to_bits())
}

fn same(x: Double, y: f64) -> bool {
    if y.is_nan() {
        x.is_nan()
    } else {
        x.to_bits() == y.to_bits()
    }
}

fn notable() -> Vec<f64> {
    let mut v = vec![
        0.0,
        1.0,
        2.0,
        0.5,
        1.5,
        2.5,
        0.1,
        0.2,
        0.3,
        1e-9,
        1e-12,
        0.0001,
        10000.0,
        1.6,
        3.0,
        7.0,
        1e16,
        9007199254740991.0,
        9007199254740992.0,
        9007199254740993.0,
        4503599627370495.5,
        4503599627370496.5,
        f64::MAX,
        f64::MIN_POSITIVE,
        f64::MIN_POSITIVE / 2.0,
        f64::from_bits(1),
        f64::from_bits(3),
        f64::EPSILON,
        1.0 + f64::EPSILON,
        1.0 - f64::EPSILON / 2.0,
        f64::INFINITY,
        f64::NAN,
        123456.789,
        0.49999999999999994,
        1e300,
        1e-300,
        5e-324,
    ];
    let negatives: Vec<f64> = v.iter().map(|x| -x).collect();
    v.extend(negatives);
    v
}

struct Random(u64);

impl Random {
    fn next(&mut self) -> u64 {
        self.0 ^= self.0 << 13;
        self.0 ^= self.0 >> 7;
        self.0 ^= self.0 << 17;
        self.0
    }
}

fn check_pair(a: f64, b: f64) {
    assert!(same(d(a).plus(&d(b)), a + b), "{} + {}", a, b);
    assert!(same(d(a).minus(&d(b)), a - b), "{} - {}", a, b);
    assert!(same(d(a).times(&d(b)), a * b), "{} * {}", a, b);
    assert!(same(d(a).over(&d(b)), a / b), "{} / {}", a, b);
    assert_eq!(d(a).lt(&d(b)), a < b);
    assert_eq!(d(a).le(&d(b)), a <= b);
    assert_eq!(d(a).gt(&d(b)), a > b);
    assert_eq!(d(a).ge(&d(b)), a >= b);
    let (x, y) = (d(a).max(&d(b)), a.max(b));
    assert!(f(x) == y || (x.is_nan() && y.is_nan()));
    let (x, y) = (d(a).min(&d(b)), a.min(b));
    assert!(f(x) == y || (x.is_nan() && y.is_nan()));
}

fn check_one(a: f64) {
    assert!(same(d(a).floor(), a.floor()), "floor {}", a);
    assert!(same(d(a).round(), a.round()), "round {}", a);
    assert!(same(d(a).sqrt(), a.sqrt()), "sqrt {}", a);
    assert!(same(d(a).abs(), a.abs()), "abs {}", a);
    assert!(same(d(a).negated(), -a), "negated {}", a);
    assert_eq!(d(a).is_nan(), a.is_nan());
    assert_eq!(d(a).is_zero(), a == 0.0);
    assert_eq!(d(a).is_positive(), a > 0.0);
    assert_eq!(d(a).is_non_negative(), a >= 0.0);
}

#[test]
fn notable_values() {
    for &a in notable().iter() {
        check_one(a);
        for &b in notable().iter() {
            check_pair(a, b);
        }
    }
}

#[test]
fn random_bit_patterns() {
    let mut r = Random(0x9E37_79B9_7F4A_7C15);
    for _ in 0..20000 {
        let (a, b) = (f64::from_bits(r.next()), f64::from_bits(r.next()));
        check_one(a);
        check_pair(a, b);
    }
}

#[test]
fn random_values_of_like_size() {
    let mut r = Random(0x1234_5678_9ABC_DEF1);
    for _ in 0..20000 {
        let a = (r.next() % 2_000_000_000) as f64 / 1000.0 - 1_000_000.0;
        let b = (r.next() % 2_000_000) as f64 / 64.0 - 15_000.0;
        check_one(a);
        check_pair(a, b);
        check_pair(a, a);
        check_pair(a, -a);
    }
}

#[test]
fn neighbouring_exponents() {
    let mut r = Random(0xDEAD_BEEF_1234_5678);
    for _ in 0..5000 {
        let a = f64::from_bits(0x3FF0_0000_0000_0000 | (r.next() >> 12));
        let shift = (r.next() % 160) as i32 - 80;
        let b = f64::from_bits(0x3FF0_0000_0000_0000 | (r.next() >> 12)) * 2f64.powi(shift);
        check_pair(a, b);
        check_pair(a, -b);
    }
}

#[test]
fn whole_numbers_and_fractions() {
    for n in [0u32, 1, 2, 3, 10, 60, 10000, 1_000_000, u32::MAX] {
        assert_eq!(f(Double::whole(n)), n as f64);
        assert_eq!(f(Double::halves(n)), n as f64 / 2.0);
    }
    for n in [0u64, 1, 9007199254740993, u64::MAX, 0x8000_0000_0000_0400, 1 << 60] {
        assert_eq!(f(Double::integer(n)), n as f64);
    }
    assert_eq!(f(Double::ratio(1, 10000)), 0.0001);
    assert_eq!(f(Double::ratio(1, 1_000_000_000)), 1e-9);
    assert_eq!(f(Double::ratio(8, 5)), 1.6);
    assert_eq!(f(Double::ratio(1, 100)), 0.01);
    assert_eq!(f(Double::ratio64(1, 1_000_000_000_000)), 1e-12);
}

#[test]
fn ranges() {
    assert!(d(500.0).is_positive_up_to(500));
    assert!(!d(500.00000000000006).is_positive_up_to(500));
    assert!(!d(0.0).is_positive_up_to(500));
    assert!(!d(f64::NAN).is_positive_up_to(500));
    assert!(d(0.0).is_between_zero_and(1000));
    assert!(d(-0.0).is_between_zero_and(1000));
    assert!(!d(-1e-300).is_between_zero_and(1000));
}

#[test]
fn signs_of_zero() {
    assert_eq!(d(-0.0).plus(&d(-0.0)).to_bits(), (-0.0f64).to_bits());
    assert_eq!(d(1.5).plus(&d(-1.5)).to_bits(), 0.0f64.to_bits());
    assert_eq!(d(-0.25).round().to_bits(), (-0.0f64).to_bits());
    assert_eq!(d(-0.0).floor().to_bits(), (-0.0f64).to_bits());
    assert_eq!(d(-0.0).sqrt().to_bits(), (-0.0f64).to_bits());
}

#[test]
fn what_cannot_be_read_is_zero() {
    let x = Double::from_bits(1.5f64.to_bits());
    assert_eq!(Double::read_or_zero(Some(x)), x);
    assert_eq!(Double::read_or_zero(None).to_bits(), 0);
}
