//! Prices, sizes and basis points as IEEE 754 binary64 values, held by their
//! bit patterns.
//!
//! Comparison, sign changes and the choice of the larger or the smaller of two
//! values are exact; here they are stated over the number that a bit pattern
//! stands for. `arithmetic` holds the operations that round, `rounding` what
//! it means to round, and `laws` how far their results are from the exact ones.
pub mod arithmetic;
pub mod laws;
pub mod rounding;

use vstd::arithmetic::mul::*;
use vstd::arithmetic::power2::*;
use vstd::prelude::*;

verus! {

/// The weight of the sign bit.
pub const SIGN: u64 = 0x8000_0000_0000_0000;

/// The bit pattern of positive infinity; larger magnitudes are NaNs.
pub const INFINITY: u64 = 0x7FF0_0000_0000_0000;

/// One step of the exponent field.
pub const EXPONENT_STEP: u64 = 0x10_0000_0000_0000;

/// A binary64 number, held by its bit pattern.
#[derive(Clone, Copy, Debug, PartialEq, Eq, Structural)]
pub struct Double {
    pub bits: u64,
}

/// The number 1, counted in units of 2^-1074 (the smallest positive double).
pub open spec fn one() -> int {
    pow2(1074) as int
}

/// What a magnitude (a bit pattern without its sign) stands for, counted in
/// units of 2^-1074: a subnormal is its fraction, a normal number has an
/// implied leading bit and is scaled by its exponent. Infinity comes out above
/// every finite number.
pub open spec fn units(magnitude: int) -> int {
    let exponent = magnitude / EXPONENT_STEP as int;
    let fraction = magnitude % EXPONENT_STEP as int;
    if exponent <= 0 {
        fraction
    } else {
        (EXPONENT_STEP + fraction) * pow2((exponent - 1) as nat)
    }
}

impl Double {
    /// The bit pattern without its sign.
    pub open spec fn magnitude(self) -> int {
        if self.bits >= SIGN {
            self.bits - SIGN
        } else {
            self.bits as int
        }
    }

    pub open spec fn nan(self) -> bool {
        self.magnitude() > INFINITY
    }

    /// The number itself, counted in units of 2^-1074. Both zeros are 0.
    pub open spec fn amount(self) -> int {
        if self.bits >= SIGN {
            -units(self.magnitude())
        } else {
            units(self.magnitude())
        }
    }

    /// `self < other`, false when either is a NaN.
    pub open spec fn below(self, other: Double) -> bool {
        !self.nan() && !other.nan() && self.amount() < other.amount()
    }

    /// `self <= other`, false when either is a NaN.
    pub open spec fn at_most(self, other: Double) -> bool {
        !self.nan() && !other.nan() && self.amount() <= other.amount()
    }

    /// `self > 0`.
    pub open spec fn positive(self) -> bool {
        !self.nan() && self.amount() > 0
    }

    /// `self >= 0`.
    pub open spec fn non_negative(self) -> bool {
        !self.nan() && self.amount() >= 0
    }

    /// `0 < self <= limit`, for a whole number `limit`.
    pub open spec fn positive_up_to(self, limit: int) -> bool {
        !self.nan() && 0 < self.amount() <= limit * one()
    }

    /// `0 <= self <= limit`, for a whole number `limit`.
    pub open spec fn between_zero_and(self, limit: int) -> bool {
        !self.nan() && 0 <= self.amount() <= limit * one()
    }

    pub fn from_bits(bits: u64) -> (d: Double)
        ensures
            d.bits == bits,
    {
        Double { bits }
    }

    pub fn to_bits(&self) -> (bits: u64)
        ensures
            bits == self.bits,
    {
        self.bits
    }
}

/// A larger magnitude stands for a larger number.
pub proof fn lemma_units_increase(a: int, b: int)
    requires
        0 <= a < b,
    ensures
        0 <= units(a) < units(b),
{
    let step = EXPONENT_STEP as int;
    let (ea, fa) = (a / step, a % step);
    let (eb, fb) = (b / step, b % step);
    assert(a == step * ea + fa && 0 <= fa < step && 0 <= ea) by (nonlinear_arith)
        requires
            ea == a / step,
            fa == a % step,
            step == 0x10_0000_0000_0000,
            0 <= a,
    ;
    assert(b == step * eb + fb && 0 <= fb < step && 0 <= eb) by (nonlinear_arith)
        requires
            eb == b / step,
            fb == b % step,
            step == 0x10_0000_0000_0000,
            0 <= b,
    ;
    if ea > 0 {
        lemma_pow2_pos((ea - 1) as nat);
        lemma_mul_strictly_positive(step + fa, pow2((ea - 1) as nat) as int);
    }
    if ea == eb {
        if ea > 0 {
            lemma_mul_strict_inequality(step + fa, step + fb, pow2((ea - 1) as nat) as int);
        }
    } else {
        assert(ea < eb) by (nonlinear_arith)
            requires
                a < b,
                a == step * ea + fa,
                b == step * eb + fb,
                0 <= fa < step,
                0 <= fb < step,
                ea != eb,
        ;
        let top = pow2((eb - 1) as nat) as int;
        lemma_pow2_pos((eb - 1) as nat);
        lemma_mul_inequality(step, step + fb, top);
        if ea == 0 {
            lemma_mul_inequality(1, top, step);
            lemma_mul_is_commutative(step, top);
        } else {
            let low = pow2((ea - 1) as nat) as int;
            lemma_mul_strict_inequality(step + fa, 2 * step, low);
            lemma_pow2_unfold(ea as nat);
            if ea < eb - 1 {
                lemma_pow2_strictly_increases(ea as nat, (eb - 1) as nat);
            }
            lemma_mul_is_associative(step, 2, low);
            lemma_mul_inequality(2 * low, top, step);
            lemma_mul_is_commutative(2 * low, step);
            lemma_mul_is_commutative(top, step);
            lemma_mul_is_commutative(2, step);
        }
    }
}

/// Distinct magnitudes stand for distinct numbers, in the same order.
pub proof fn lemma_units_order(a: int, b: int)
    requires
        0 <= a,
        0 <= b,
    ensures
        (units(a) < units(b)) == (a < b),
        (units(a) == units(b)) == (a == b),
        0 <= units(a),
        (units(a) == 0) == (a == 0),
{
    assert(units(0) == 0);
    if a < b {
        lemma_units_increase(a, b);
    } else if b < a {
        lemma_units_increase(b, a);
    }
    if 0 < a {
        lemma_units_increase(0, a);
    }
}

impl Double {
    pub fn is_nan(&self) -> (r: bool)
        ensures
            r == self.nan(),
    {
        self.unsigned() > INFINITY
    }

    fn unsigned(&self) -> (m: u64)
        ensures
            m == self.magnitude(),
            m < SIGN,
    {
        if self.bits >= SIGN {
            self.bits - SIGN
        } else {
            self.bits
        }
    }

    /// `self < other`.
    pub fn lt(&self, other: &Double) -> (r: bool)
        ensures
            r == self.below(*other),
    {
        let (a, b) = (self.unsigned(), other.unsigned());
        proof {
            lemma_units_order(a as int, b as int);
            lemma_units_order(b as int, a as int);
        }
        if a > INFINITY || b > INFINITY {
            false
        } else if self.bits < SIGN {
            if other.bits < SIGN {
                a < b
            } else {
                false
            }
        } else if other.bits < SIGN {
            a != 0 || b != 0
        } else {
            b < a
        }
    }

    /// `self <= other`.
    pub fn le(&self, other: &Double) -> (r: bool)
        ensures
            r == self.at_most(*other),
    {
        !self.is_nan() && !other.is_nan() && !other.lt(self)
    }

    /// `self > other`.
    pub fn gt(&self, other: &Double) -> (r: bool)
        ensures
            r == other.below(*self),
    {
        other.lt(self)
    }

    /// `self >= other`.
    pub fn ge(&self, other: &Double) -> (r: bool)
        ensures
            r == other.at_most(*self),
    {
        other.le(self)
    }

    /// `self == 0`, of either sign.
    pub fn is_zero(&self) -> (r: bool)
        ensures
            r == (!self.nan() && self.amount() == 0),
    {
        proof {
            lemma_units_order(self.magnitude(), 0);
        }
        self.unsigned() == 0
    }

    pub fn is_positive(&self) -> (r: bool)
        ensures
            r == self.positive(),
    {
        let zero = Double::whole(0);
        self.gt(&zero)
    }

    /// The absolute value.
    pub fn abs(&self) -> (d: Double)
        ensures
            d.nan() == self.nan(),
            d.amount() == if self.amount() < 0 { -self.amount() } else { self.amount() },
            d.bits == self.magnitude(),
    {
        proof {
            lemma_units_order(self.magnitude(), 0);
        }
        Double { bits: self.unsigned() }
    }

    /// `-self`.
    pub fn negated(&self) -> (d: Double)
        ensures
            d.nan() == self.nan(),
            d.amount() == -self.amount(),
            d.magnitude() == self.magnitude(),
            d == self.opposite(),
    {
        if self.bits >= SIGN {
            Double { bits: self.bits - SIGN }
        } else {
            Double { bits: self.bits + SIGN }
        }
    }

    /// The larger of the two; the other one when one is a NaN.
    pub open spec fn larger(self, other: Double) -> Double {
        if self.nan() || self.below(other) {
            other
        } else {
            self
        }
    }

    /// The smaller of the two; the other one when one is a NaN.
    pub open spec fn smaller(self, other: Double) -> Double {
        if self.nan() || other.below(self) {
            other
        } else {
            self
        }
    }

    pub fn max(&self, other: &Double) -> (d: Double)
        ensures
            d == self.larger(*other),
    {
        if self.is_nan() || self.lt(other) {
            *other
        } else {
            *self
        }
    }

    pub fn min(&self, other: &Double) -> (d: Double)
        ensures
            d == self.smaller(*other),
    {
        if self.is_nan() || other.lt(self) {
            *other
        } else {
            *self
        }
    }

    /// A number that was read, 0 where there was none to read.
    pub fn read_or_zero(read: Option<Double>) -> (d: Double)
        ensures
            d == match read {
                Some(x) => x,
                None => Double::whole_number(0),
            },
    {
        match read {
            Some(x) => x,
            None => Double::whole(0),
        }
    }

    /// The whole number `n`.
    pub fn whole(n: u32) -> (d: Double)
        ensures
            !d.nan(),
            d.amount() == n * one(),
            d.bits < SIGN,
            d == Double::whole_number(n as int),
    {
        let d = Double::scaled(n, false);
        proof {
            arithmetic::lemma_whole_finite(d, n as int);
            arithmetic::lemma_units_exact(d.magnitude());
            lemma_units_order(d.magnitude(), 0);
        }
        d
    }

    /// `0 < self <= limit`.
    pub fn is_positive_up_to(&self, limit: u32) -> (r: bool)
        ensures
            r == self.positive_up_to(limit as int),
    {
        let top = Double::whole(limit);
        self.is_positive() && self.le(&top)
    }

    /// `0 <= self <= limit`.
    pub fn is_between_zero_and(&self, limit: u32) -> (r: bool)
        ensures
            r == self.between_zero_and(limit as int),
    {
        let top = Double::whole(limit);
        self.is_non_negative() && self.le(&top)
    }

    /// `self >= 0`.
    pub fn is_non_negative(&self) -> (r: bool)
        ensures
            r == self.non_negative(),
    {
        let zero = Double::whole(0);
        self.ge(&zero)
    }

    /// `n / 2`.
    pub fn halves(n: u32) -> (d: Double)
        ensures
            !d.nan(),
            2 * d.amount() == n * one(),
            d.bits < SIGN,
    {
        Double::scaled(n, true)
    }

    /// `n`, or `n / 2` when `halve` is set.
    fn scaled(n: u32, halve: bool) -> (d: Double)
        ensures
            !d.nan(),
            !halve ==> d.amount() == n * one(),
            halve ==> 2 * d.amount() == n * one(),
            d.bits < SIGN,
    {
        if n == 0 {
            proof {
                assert(units(0) == 0);
            }
            return Double { bits: 0 };
        }
        let mut significand: u64 = n as u64;
        let mut exponent: u64 = 52;
        proof {
            lemma2_to64();
            lemma_mul_basics(n as int);
        }
        while significand < EXPONENT_STEP
            invariant
                significand < 2 * EXPONENT_STEP,
                exponent <= 52,
                n > 0,
                significand == n * pow2((52 - exponent) as nat),
                significand >= pow2((52 - exponent) as nat),
            decreases exponent,
        {
            proof {
                if exponent == 0 {
                    lemma2_to64_rest();
                }
                lemma_pow2_unfold((52 - exponent + 1) as nat);
                lemma_mul_is_associative(n as int, 2, pow2((52 - exponent) as nat) as int);
                lemma_mul_is_associative(2, n as int, pow2((52 - exponent) as nat) as int);
            }
            significand = significand * 2;
            exponent = exponent - 1;
        }
        let bias: u64 = if halve {
            1022
        } else {
            1023
        };
        let d = Double { bits: (bias + exponent) * EXPONENT_STEP + (significand - EXPONENT_STEP) };
        proof {
            let step = EXPONENT_STEP as int;
            let (field, fraction) = (bias + exponent, significand - EXPONENT_STEP);
            assert((field * step + fraction) / step == field && (field * step + fraction) % step
                == fraction) by (nonlinear_arith)
                requires
                    0 <= fraction < step,
                    step == 0x10_0000_0000_0000,
            ;
            let rest = (52 - exponent) as nat;
            let scale = (field - 1) as nat;
            lemma_pow2_adds(rest, scale);
            lemma_mul_is_associative(n as int, pow2(rest) as int, pow2(scale) as int);
            if halve {
                lemma_pow2_unfold(1074);
                lemma_mul_is_associative(n as int, 2, pow2(1073) as int);
                lemma_mul_is_associative(2, n as int, pow2(1073) as int);
            }
        }
        d
    }
}

} // verus!
