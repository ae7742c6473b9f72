//! Sums, products and quotients, each the double nearest to the exact result.
use super::rounding;
use super::{Double, EXPONENT_STEP, INFINITY, SIGN};
use vstd::arithmetic::div_mod::*;
use vstd::arithmetic::mul::*;
use vstd::arithmetic::power2::*;
use vstd::prelude::*;

verus! {

/// The bit pattern of the NaN that arithmetic returns.
pub const NAN: u64 = 0x7FF8_0000_0000_0000;

impl Double {
    pub open spec fn negative(self) -> bool {
        self.bits >= SIGN
    }

    pub open spec fn infinite(self) -> bool {
        self.magnitude() == INFINITY
    }

    /// The magnitude `m` with a sign.
    pub open spec fn signed(negative: bool, m: int) -> Double {
        Double { bits: (if negative { SIGN + m } else { m }) as u64 }
    }

    /// The double nearest to `num / den` for `0 < den`, counted in units of 2^-1074.
    pub open spec fn nearest(num: int, den: int) -> Double {
        if num < 0 {
            Double::signed(true, rounding::nearest_magnitude(-num, den))
        } else {
            Double::signed(false, rounding::nearest_magnitude(num, den))
        }
    }

    /// `self + other`. An exact zero is positive unless both are negative zeros.
    pub open spec fn sum(self, other: Double) -> Double {
        let total = self.amount() + other.amount();
        if self.nan() || other.nan() {
            Double { bits: NAN }
        } else if self.infinite() && other.infinite() && self.bits != other.bits {
            Double { bits: NAN }
        } else if self.infinite() {
            self
        } else if other.infinite() {
            other
        } else if total == 0 {
            Double::signed(self.negative() && other.negative(), 0)
        } else {
            Double::nearest(total, 1)
        }
    }

    /// `-self`.
    pub open spec fn opposite(self) -> Double {
        Double::signed(!self.negative(), self.magnitude())
    }

    /// `self - other`.
    pub open spec fn difference(self, other: Double) -> Double {
        self.sum(other.opposite())
    }

    /// `self * other`.
    pub open spec fn product(self, other: Double) -> Double {
        let (a, b) = (super::units(self.magnitude()), super::units(other.magnitude()));
        let negative = self.negative() != other.negative();
        if self.nan() || other.nan() {
            Double { bits: NAN }
        } else if self.infinite() || other.infinite() {
            if a == 0 || b == 0 {
                Double { bits: NAN }
            } else {
                Double::signed(negative, INFINITY as int)
            }
        } else {
            Double::signed(negative, rounding::nearest_magnitude(a * b, super::one()))
        }
    }

    /// `self / other`.
    pub open spec fn quotient(self, other: Double) -> Double {
        let (a, b) = (super::units(self.magnitude()), super::units(other.magnitude()));
        let negative = self.negative() != other.negative();
        if self.nan() || other.nan() || (self.infinite() && other.infinite()) || (a == 0 && b == 0) {
            Double { bits: NAN }
        } else if self.infinite() || b == 0 {
            Double::signed(negative, INFINITY as int)
        } else if other.infinite() {
            Double::signed(negative, 0)
        } else {
            Double::signed(negative, rounding::nearest_magnitude(a * super::one(), b))
        }
    }

    /// The largest whole number that is at most `self`, with the sign of `self`.
    pub open spec fn floored(self) -> Double {
        let down = self.amount() / super::one();
        if self.nan() || self.infinite() {
            self
        } else if down == 0 {
            Double::signed(self.negative(), 0)
        } else {
            Double::whole_number(down)
        }
    }

    /// The whole number nearest to `self`, of two the one further from zero, with the
    /// sign of `self`.
    pub open spec fn rounded(self) -> Double {
        let size = super::units(self.magnitude());
        let n = (2 * size + super::one()) / (2 * super::one());
        if self.nan() || self.infinite() {
            self
        } else {
            Double::signed(
                self.negative(),
                rounding::nearest_magnitude(n * super::one(), 1),
            )
        }
    }

    /// The double nearest to the whole number `n`.
    pub open spec fn whole_number(n: int) -> Double {
        Double::nearest(n * super::one(), 1)
    }

    /// The double nearest to `n / d`, which is what the decimal literal of that value means.
    pub open spec fn fraction(n: int, d: int) -> Double {
        Double::nearest(n * super::one(), d)
    }

    /// The double nearest to the square root of `self`.
    ///
    /// Counted in units of 2^-1074, the root is that of the integer
    /// `self.amount() * one()`. It has more than 500 bits, so that all numbers
    /// strictly between two neighbouring integers round alike.
    pub open spec fn root(self) -> Double {
        let square = self.amount() * super::one();
        let q = floor_root(square);
        if self.nan() || self.amount() < 0 {
            Double { bits: NAN }
        } else if self.infinite() || self.amount() == 0 {
            self
        } else if q * q == square {
            Double::nearest(q, 1)
        } else {
            Double::nearest(2 * q + 1, 2)
        }
    }
}

/// The largest integer whose square is at most `n`.
pub open spec fn floor_root(n: int) -> int {
    choose|q: int| is_floor_root(n, q)
}

pub open spec fn is_floor_root(n: int, q: int) -> bool {
    0 <= q && q * q <= n < (q + 1) * (q + 1)
}

/// There is at most one such integer.
proof fn lemma_floor_root(n: int, q: int)
    requires
        is_floor_root(n, q),
    ensures
        floor_root(n) == q,
{
    let p = floor_root(n);
    assert(is_floor_root(n, p));
    assert(p == q) by (nonlinear_arith)
        requires
            0 <= p,
            0 <= q,
            p * p < (q + 1) * (q + 1),
            q * q < (p + 1) * (p + 1),
    ;
}

/// Zero is exact.
pub proof fn lemma_nearest_zero(den: int)
    requires
        0 < den,
    ensures
        rounding::nearest_magnitude(0, den) == 0,
{
    lemma2_to64();
    lemma_pow2_pos(53);
    lemma_mul_strictly_positive(den, pow2(53) as int);
    assert(rounding::excess(0, den) == 0);
    assert(pow2(0) == 1);
    lemma_small_mod(0, den as nat);
    lemma_basic_div(0, den);
}

/// Rounding gives a number, possibly infinite.
pub proof fn lemma_nearest_range(num: int, den: int)
    requires
        0 <= num,
        0 < den,
    ensures
        0 <= rounding::nearest_magnitude(num, den) <= INFINITY,
{
    let k = rounding::excess(num, den);
    lemma_pow2_pos(k);
    lemma_mul_strictly_positive(den, pow2(k) as int);
    lemma_div_pos_is_pos(num, den * pow2(k));
    lemma_mul_nonnegative(k as int, EXPONENT_STEP as int);
}

/// `x * 2^a` scaled by `2^b`.
proof fn lemma_scale(x: int, a: nat, b: nat)
    ensures
        (x * pow2(a)) * pow2(b) == x * pow2((a + b) as nat),
{
    lemma_pow2_adds(a, b);
    lemma_mul_is_associative(x, pow2(a) as int, pow2(b) as int);
}

/// The significand `s` and the exponent `e` of a finite magnitude.
fn parts(magnitude: u64) -> (p: (u64, u32))
    requires
        magnitude < INFINITY,
    ensures
        super::units(magnitude as int) == p.0 * pow2(p.1 as nat),
        p.0 < 2 * EXPONENT_STEP,
        p.1 <= 2045,
        p.1 > 0 ==> p.0 >= EXPONENT_STEP,
        (p.0 == 0) == (magnitude == 0),
{
    let exponent: u64 = magnitude / EXPONENT_STEP;
    let fraction: u64 = magnitude % EXPONENT_STEP;
    proof {
        lemma2_to64();
        super::lemma_units_order(magnitude as int, 0);
        lemma_mul_basics(fraction as int);
    }
    if exponent == 0 {
        (fraction, 0)
    } else {
        (EXPONENT_STEP + fraction, (exponent - 1) as u32)
    }
}

/// The magnitude nearest to the sum, or to the difference when `apart`, of
/// `a * 2^(e + d)` and `b * 2^e`.
fn combine(a: u64, b: u64, e: u32, d: u32, apart: bool) -> (r: (bool, u64))
    requires
        a < 2 * EXPONENT_STEP,
        b < 2 * EXPONENT_STEP,
        e + d <= 2045,
        e + d > 0 ==> a >= EXPONENT_STEP,
        e + d == 0 ==> d == 0,
    ensures
        ({
            let x = a * pow2((e + d) as nat);
            let y = b * pow2(e as nat);
            let t = if apart { x - y } else { x + y };
            &&& r.0 == (t < 0)
            &&& r.1 == rounding::nearest_magnitude(if t < 0 { -t } else { t }, 1)
            &&& (r.1 == 0) ==> t == 0
            &&& r.1 <= INFINITY
        }),
{
    let ghost x = a * pow2((e + d) as nat);
    let ghost y = b * pow2(e as nat);
    let ghost t = if apart { x - y } else { x + y };
    proof {
        lemma2_to64();
        lemma2_to64_rest();
        lemma_pow2_pos(e as nat);
        lemma_nearest_zero(1);
    }
    if d <= 73 {
        let up = rounding::power(d);
        proof {
            lemma_pow2_adds(64, 9);
            if d < 73 {
                lemma_pow2_strictly_increases(d as nat, 73);
            }
            lemma_mul_upper_bound(
                a as int,
                0x20_0000_0000_0000,
                up as int,
                0x200_0000_0000_0000_0000,
            );
            lemma_mul_nonnegative(a as int, up as int);
            lemma_scale(a as int, d as nat, e as nat);
        }
        let high: u128 = a as u128 * up;
        let low: u128 = b as u128;
        let negative = apart && high < low;
        let m: u128 = if !apart {
            high + low
        } else if high < low {
            low - high
        } else {
            high - low
        };
        let ghost size = if t < 0 { -t } else { t };
        proof {
            let unit = pow2(e as nat) as int;
            assert(t == (if apart { high - low } else { high + low }) * unit) by {
                lemma_mul_is_distributive_add_other_way(unit, high as int, low as int);
                lemma_mul_is_distributive_sub_other_way(unit, high as int, low as int);
            }
            if negative {
                lemma_mul_strict_inequality(high as int, low as int, unit);
            } else if apart {
                lemma_mul_inequality(low as int, high as int, unit);
            } else {
                lemma_mul_nonnegative(high + low, unit);
            }
            lemma_mul_unary_negation(high - low, unit);
            assert(size == m * unit);
            if m > 0 {
                lemma_mul_strictly_positive(m as int, unit);
            }
        }
        if m == 0 {
            return (false, 0);
        }
        proof {
            lemma_mul_is_commutative(m as int, pow2(e as nat) as int);
            assert(size * pow2(0) == size);
            assert(1 * pow2(e as nat) == pow2(e as nat));
        }
        let r = rounding::round(m, e as i32, false, Ghost(size), Ghost(1));
        proof {
            lemma_nearest_positive(size);
        }
        (negative, r)
    } else {
        let k: u32 = e + d - 21;
        let exact = b == 0;
        let m: u128 = if apart && !exact {
            a as u128 * 0x20_0000 - 1
        } else {
            a as u128 * 0x20_0000
        };
        proof {
            // The smaller one is less than one unit of `m`.
            let unit = pow2(k as nat) as int;
            lemma_scale(a as int, 21, k as nat);
            lemma_pow2_adds(53, e as nat);
            if 53 + e < k {
                lemma_pow2_strictly_increases((53 + e) as nat, k as nat);
            }
            lemma_mul_strict_inequality(b as int, 0x20_0000_0000_0000, pow2(e as nat) as int);
            assert(y < unit);
            if !exact {
                lemma_mul_strictly_positive(b as int, pow2(e as nat) as int);
            }
            assert(x == (a * 0x20_0000) * unit);
            lemma_mul_is_distributive_sub_other_way(unit, a * 0x20_0000, 1);
            lemma_mul_inequality(1, a * 0x20_0000, unit);
            assert(t * pow2(0) == t);
            assert(1 * pow2(k as nat) == pow2(k as nat));
            lemma_mul_is_commutative(m as int, unit);
        }
        let r = rounding::round(m, k as i32, !exact, Ghost(t), Ghost(1));
        proof {
            lemma_nearest_positive(t);
        }
        (false, r)
    }
}

/// A positive whole number of units does not round to zero.
pub proof fn lemma_nearest_positive(t: int)
    requires
        0 < t,
    ensures
        rounding::nearest_magnitude(t, 1) > 0,
        rounding::nearest_magnitude(t, 1) <= INFINITY,
{
    let k = rounding::excess(t, 1);
    lemma2_to64();
    assert(1 * pow2(k) == pow2(k));
    lemma_pow2_pos(k);
    lemma_div_pos_is_pos(t, pow2(k) as int);
    if k == 0 {
        lemma_div_by_self(1);
        lemma_div_basics(t);
    } else {
        assert(k * EXPONENT_STEP >= EXPONENT_STEP) by (nonlinear_arith)
            requires
                k >= 1,
        ;
    }
}

impl Double {
    fn with_sign(negative: bool, magnitude: u64) -> (d: Double)
        requires
            magnitude < SIGN,
        ensures
            d == Double::signed(negative, magnitude as int),
    {
        Double {
            bits: if negative {
                SIGN + magnitude
            } else {
                magnitude
            },
        }
    }

    /// `self + other`.
    pub fn plus(&self, other: &Double) -> (d: Double)
        ensures
            d == self.sum(*other),
    {
        let (a, b) = (self.unsigned(), other.unsigned());
        if a > INFINITY || b > INFINITY {
            return Double { bits: NAN };
        }
        if a == INFINITY {
            if b == INFINITY && self.bits != other.bits {
                return Double { bits: NAN };
            }
            return *self;
        }
        if b == INFINITY {
            return *other;
        }
        let (p, q) = (parts(a), parts(b));
        let apart = (self.bits >= SIGN) != (other.bits >= SIGN);
        proof {
            super::lemma_units_order(a as int, 0);
            super::lemma_units_order(b as int, 0);
        }
        let (flip, magnitude) = if p.1 >= q.1 {
            combine(p.0, q.0, q.1, p.1 - q.1, apart)
        } else {
            combine(q.0, p.0, p.1, q.1 - p.1, apart)
        };
        let leading = if p.1 >= q.1 {
            self.bits >= SIGN
        } else {
            other.bits >= SIGN
        };
        proof {
            lemma_nearest_zero(1);
        }
        if magnitude == 0 {
            Double::with_sign(self.bits >= SIGN && other.bits >= SIGN, 0)
        } else {
            Double::with_sign(leading != flip, magnitude)
        }
    }

    /// `self - other`.
    pub fn minus(&self, other: &Double) -> (d: Double)
        ensures
            d == self.difference(*other),
    {
        let opposite = other.negated();
        self.plus(&opposite)
    }

    /// `self * other`.
    pub fn times(&self, other: &Double) -> (d: Double)
        ensures
            d == self.product(*other),
    {
        let (a, b) = (self.unsigned(), other.unsigned());
        let negative = (self.bits >= SIGN) != (other.bits >= SIGN);
        proof {
            super::lemma_units_order(a as int, 0);
            super::lemma_units_order(b as int, 0);
        }
        if a > INFINITY || b > INFINITY {
            return Double { bits: NAN };
        }
        if a == INFINITY || b == INFINITY {
            if a == 0 || b == 0 {
                return Double { bits: NAN };
            }
            return Double::with_sign(negative, INFINITY);
        }
        let (p, q) = (parts(a), parts(b));
        let ghost exact = super::units(a as int) * super::units(b as int);
        proof {
            lemma_pow2_pos(1074);
            lemma_nearest_zero(super::one());
            lemma_mul_upper_bound(
                p.0 as int,
                0x20_0000_0000_0000,
                q.0 as int,
                0x20_0000_0000_0000,
            );
            lemma_mul_nonnegative(p.0 as int, q.0 as int);
        }
        if a == 0 || b == 0 {
            proof {
                lemma_mul_basics(super::units(a as int));
                lemma_mul_basics(super::units(b as int));
            }
            return Double::with_sign(negative, 0);
        }
        let m: u128 = p.0 as u128 * q.0 as u128;
        let k: i32 = p.1 as i32 + q.1 as i32 - 1074;
        proof {
            lemma_mul_strictly_positive(p.0 as int, q.0 as int);
            let (i, j) = (p.1 as nat, q.1 as nat);
            let (x, y) = (pow2(i) as int, pow2(j) as int);
            lemma_pow2_adds(i, j);
            assert(exact == m * (x * y)) by (nonlinear_arith)
                requires
                    exact == (p.0 * x) * (q.0 * y),
                    m == p.0 * q.0,
            ;
            lemma2_to64();
            if k < 0 {
                lemma_scale(m as int, (i + j) as nat, (-k) as nat);
                assert(super::one() * pow2(0) == super::one());
            } else {
                lemma_pow2_adds(1074, k as nat);
                assert(exact * pow2(0) == exact);
                lemma_pow2_pos(k as nat);
                lemma_mul_strictly_positive(super::one(), pow2(k as nat) as int);
            }
            lemma_mul_is_commutative(m as int, pow2((i + j) as nat) as int);
            lemma_mul_is_commutative(m as int, super::one());
        }
        let magnitude = rounding::round(m, k, false, Ghost(exact), Ghost(super::one()));
        Double::with_sign(negative, magnitude)
    }

    /// `self / other`.
    pub fn over(&self, other: &Double) -> (d: Double)
        ensures
            d == self.quotient(*other),
    {
        let (a, b) = (self.unsigned(), other.unsigned());
        let negative = (self.bits >= SIGN) != (other.bits >= SIGN);
        proof {
            super::lemma_units_order(a as int, 0);
            super::lemma_units_order(b as int, 0);
        }
        if a > INFINITY || b > INFINITY || (a == INFINITY && b == INFINITY) || (a == 0 && b == 0) {
            return Double { bits: NAN };
        }
        if a == INFINITY || b == 0 {
            return Double::with_sign(negative, INFINITY);
        }
        if b == INFINITY {
            return Double::with_sign(negative, 0);
        }
        let ghost one = super::one();
        let ghost num = super::units(a as int) * one;
        let ghost den = super::units(b as int);
        if a == 0 {
            proof {
                lemma_mul_basics(one);
                lemma_nearest_zero(den);
            }
            return Double::with_sign(negative, 0);
        }
        let (p, q) = (parts(a), parts(b));
        let mut s: u64 = p.0;
        let mut n: i32 = 0;
        proof {
            lemma2_to64();
            lemma_mul_basics(s as int);
        }
        while s < EXPONENT_STEP
            invariant
                0 < p.0 <= s < 2 * EXPONENT_STEP,
                0 <= n <= 52,
                s == p.0 * pow2(n as nat),
                s >= pow2(n as nat),
            decreases 52 - n,
        {
            proof {
                if n == 52 {
                    lemma2_to64_rest();
                }
                lemma_pow2_unfold((n + 1) as nat);
                lemma_mul_is_associative(p.0 as int, 2, pow2(n as nat) as int);
                lemma_mul_is_associative(2, p.0 as int, pow2(n as nat) as int);
            }
            s = s * 2;
            n = n + 1;
        }
        let top: u128 = s as u128 * 0x200_0000_0000_0000_0000;
        let bottom: u128 = q.0 as u128;
        let m: u128 = top / bottom;
        let r: u128 = top % bottom;
        let k: i32 = p.1 as i32 + 1001 - q.1 as i32 - n;
        proof {
            lemma_fundamental_div_mod(top as int, bottom as int);
            assert(m < 0x8000_0000_0000_0000_0000_0000_0000_0000) by (nonlinear_arith)
                requires
                    top == bottom * m + r,
                    r >= 0,
                    bottom >= 1,
                    top < 0x8000_0000_0000_0000_0000_0000_0000_0000,
            ;
            assert(m >= 0x40_0000_0000_0000) by (nonlinear_arith)
                requires
                    top == bottom * m + r,
                    r < bottom,
                    bottom < 0x20_0000_0000_0000,
                    top >= 0x10_0000_0000_0000 * 0x200_0000_0000_0000_0000,
            ;
            let (i, j) = (p.1 as nat, q.1 as nat);
            let x = if k < 0 { (-k) as nat } else { 0 };
            let y = if k > 0 { k as nat } else { 0 };
            lemma2_to64_rest();
            lemma_pow2_adds(64, 9);
            lemma_scale(p.0 as int, n as nat, 73);
            lemma_scale(p.0 as int, (n + 73) as nat, (j + y) as nat);
            lemma_scale(p.0 as int, i, 1074);
            lemma_scale(p.0 as int, (i + 1074) as nat, x);
            assert(n + 73 + j + y == i + 1074 + x);
            let scale = pow2((j + y) as nat) as int;
            assert(num * pow2(x) == top * scale);
            lemma_scale(q.0 as int, j, y);
            lemma_pow2_pos((j + y) as nat);
            assert(den * pow2(y) == bottom * scale);
            assert(num * pow2(x) - den * pow2(y) * m == r * scale) by (nonlinear_arith)
                requires
                    num * pow2(x) == top * scale,
                    den * pow2(y) == bottom * scale,
                    top == bottom * m + r,
            ;
            lemma_mul_nonnegative(r as int, scale);
            lemma_mul_strict_inequality(r as int, bottom as int, scale);
            if r > 0 {
                lemma_mul_strictly_positive(r as int, scale);
            } else {
                lemma_mul_basics(scale);
            }
            let rest = num * pow2(x) - den * pow2(y) * m;
            assert(0 <= rest < den * pow2(y));
            assert((r > 0) == (rest > 0));
        }
        let magnitude = rounding::round(m, k, r > 0, Ghost(num), Ghost(den));
        Double::with_sign(negative, magnitude)
    }
}

/// Scaling both sides of a fraction does not change where it rounds.
pub(super) proof fn lemma_nearest_scaled(num: int, den: int, c: int)
    requires
        0 <= num,
        0 < den,
        0 < c,
    ensures
        rounding::nearest_magnitude(num * c, den * c) == rounding::nearest_magnitude(num, den),
{
    lemma_excess_scaled(num, den, c);
    let k = rounding::excess(num, den);
    let d = den * pow2(k);
    lemma_pow2_pos(k);
    lemma_mul_strictly_positive(den, pow2(k) as int);
    lemma_mul_strictly_positive(d, c);
    assert((den * c) * pow2(k) == d * c) by (nonlinear_arith)
        requires
            d == den * pow2(k),
    ;
    let (q, r) = (num / d, num % d);
    lemma_fundamental_div_mod(num, d);
    assert(num * c == q * (d * c) + r * c) by (nonlinear_arith)
        requires
            num == d * q + r,
    ;
    lemma_mul_nonnegative(r, c);
    lemma_mul_strict_inequality(r, d, c);
    lemma_fundamental_div_mod_converse(num * c, d * c, q, r * c);
    lemma_mul_is_associative(2, r, c);
    if 2 * r > d {
        lemma_mul_strict_inequality(d, 2 * r, c);
    } else if 2 * r < d {
        lemma_mul_strict_inequality(2 * r, d, c);
    }
}

proof fn lemma_excess_scaled(num: int, den: int, c: int)
    requires
        0 <= num,
        0 < den,
        0 < c,
    ensures
        rounding::excess(num * c, den * c) == rounding::excess(num, den),
    decreases num - den,
{
    let top = pow2(53) as int;
    lemma_mul_strictly_positive(den, c);
    assert((den * c) * top == (den * top) * c) by (nonlinear_arith);
    if num < den * top {
        lemma_mul_strict_inequality(num, den * top, c);
    } else {
        lemma_mul_inequality(den * top, num, c);
        lemma_mul_is_associative(2, den, c);
        assert(num >= 2 * den) by {
            lemma_pow2_unfold(53);
            lemma_pow2_pos(52);
            lemma_mul_inequality(2, top, den);
            lemma_mul_is_commutative(den, top);
        }
        lemma_excess_scaled(num, 2 * den, c);
    }
}

/// The largest integer whose square is at most `n`.
fn integer_root(n: u128) -> (q: u128)
    requires
        n < 0x4000_0000_0000_0000_0000_0000_0000,
    ensures
        is_floor_root(n as int, q as int),
        q < 0x80_0000_0000_0000,
{
    let mut q: u128 = 0;
    let mut bit: u128 = 0x40_0000_0000_0000;
    let mut left: u32 = 55;
    proof {
        lemma2_to64();
        lemma2_to64_rest();
    }
    while left > 0
        invariant
            left <= 55,
            n < 0x4000_0000_0000_0000_0000_0000_0000,
            left > 0 ==> bit == pow2((left - 1) as nat),
            q * q <= n < (q + pow2(left as nat)) * (q + pow2(left as nat)),
            q + pow2(left as nat) <= 0x80_0000_0000_0000,
        decreases left,
    {
        proof {
            lemma_pow2_unfold(left as nat);
            lemma_pow2_pos((left - 1) as nat);
        }
        let next: u128 = q + bit;
        proof {
            lemma_mul_upper_bound(
                next as int,
                0x80_0000_0000_0000,
                next as int,
                0x80_0000_0000_0000,
            );
        }
        if next * next <= n {
            q = next;
        }
        left = left - 1;
        proof {
            if left > 0 {
                lemma_pow2_unfold(left as nat);
            }
        }
        bit = bit / 2;
    }
    proof {
        lemma2_to64();
    }
    q
}

impl Double {
    /// The double nearest to `n`.
    pub fn integer(n: u64) -> (d: Double)
        ensures
            d == Double::whole_number(n as int),
    {
        proof {
            lemma_pow2_pos(1074);
            lemma_nearest_zero(1);
        }
        if n == 0 {
            proof {
                lemma_mul_basics(super::one());
            }
            return Double { bits: 0 };
        }
        let ghost num = n * super::one();
        proof {
            lemma2_to64();
            lemma_mul_strictly_positive(n as int, super::one());
            lemma_mul_basics(num);
            lemma_mul_basics(super::one());
            lemma_mul_is_commutative(n as int, super::one());
        }
        let magnitude = rounding::round(n as u128, 1074, false, Ghost(num), Ghost(1));
        Double::with_sign(false, magnitude)
    }

    /// The double nearest to `n / d`.
    pub fn ratio(n: u32, d: u32) -> (r: Double)
        requires
            d > 0,
        ensures
            r == Double::fraction(n as int, d as int),
            !r.nan(),
    {
        let (a, b) = (Double::whole(n), Double::whole(d));
        proof {
            let one = super::one();
            lemma_pow2_pos(1074);
            lemma_mul_strictly_positive(d as int, one);
            lemma_mul_nonnegative(n as int, one);
            lemma_mul_is_associative(n as int, one, one);
            lemma_nearest_scaled(n * one, d as int, one);
            lemma_whole_finite(a, n as int);
            lemma_whole_finite(b, d as int);
            lemma_nearest_range(n * one, d as int);
        }
        a.over(&b)
    }

    /// The double nearest to `n / d`.
    pub fn ratio64(n: u32, d: u64) -> (r: Double)
        requires
            0 < d < 0x20_0000_0000_0000,
        ensures
            r == Double::fraction(n as int, d as int),
            !r.nan(),
    {
        let (a, b) = (Double::whole(n), Double::integer(d));
        proof {
            let one = super::one();
            lemma_pow2_pos(1074);
            lemma_mul_strictly_positive(d as int, one);
            lemma_mul_nonnegative(n as int, one);
            lemma_mul_is_associative(n as int, one, one);
            lemma_nearest_scaled(n * one, d as int, one);
            lemma_whole_finite(a, n as int);
            lemma_whole_exact(d as int);
            lemma_nearest_range(n * one, d as int);
        }
        a.over(&b)
    }

    /// The largest whole number that is at most `self`.
    pub fn floor(&self) -> (d: Double)
        ensures
            d == self.floored(),
    {
        let a = self.unsigned();
        if a >= INFINITY {
            return *self;
        }
        let (s, e) = parts(a);
        let negative = self.bits >= SIGN;
        let ghost one = super::one();
        proof {
            lemma_pow2_pos(1074);
            super::lemma_units_order(a as int, 0);
        }
        if e >= 1074 {
            // Already whole.
            proof {
                lemma_whole_above(*self, s as int, e as nat);
            }
            return *self;
        }
        let below: u32 = 1074 - e;
        let whole: u64;
        let rest: bool;
        if below < 64 {
            let unit = rounding::power(below);
            proof {
                lemma_pow2_pos(below as nat);
            }
            let high: u128 = s as u128 / unit;
            let low: u128 = s as u128 % unit;
            proof {
                lemma_fundamental_div_mod(s as int, unit as int);
                assert(0 <= high <= s) by (nonlinear_arith)
                    requires
                        s == unit * high + low,
                        low >= 0,
                        unit >= 1,
                        high >= 0,
                ;
                lemma_floor_parts(s as int, e as nat, unit as int, high as int, low as int);
            }
            whole = high as u64;
            rest = low > 0;
        } else {
            proof {
                lemma2_to64();
                lemma2_to64_rest();
                if below > 64 {
                    lemma_pow2_strictly_increases(64, below as nat);
                }
                lemma_pow2_pos(below as nat);
                lemma_mul_basics(pow2(below as nat) as int);
                lemma_floor_parts(s as int, e as nat, pow2(below as nat) as int, 0, s as int);
            }
            whole = 0;
            rest = s > 0;
        }
        let size: u64 = if negative && rest {
            whole + 1
        } else {
            whole
        };
        assert(self.amount() / one == if negative { -(size as int) } else { size as int });
        if size == 0 {
            Double::with_sign(negative, 0)
        } else {
            let d = Double::integer(size);
            proof {
                lemma_mul_strictly_positive(size as int, one);
                lemma_mul_unary_negation(size as int, one);
                lemma_nearest_positive(size * one);
            }
            if negative {
                d.negated()
            } else {
                d
            }
        }
    }

    /// The whole number nearest to `self`, of two the one further from zero.
    pub fn round(&self) -> (d: Double)
        ensures
            d == self.rounded(),
    {
        let a = self.unsigned();
        if a >= INFINITY {
            return *self;
        }
        let (s, e) = parts(a);
        let ghost one = super::one();
        proof {
            lemma_pow2_pos(1074);
            lemma_nearest_zero(1);
            lemma_mul_basics(one);
        }
        if e >= 1074 {
            // Already whole.
            proof {
                lemma_round_whole(a as int, s as int, e as nat);
            }
            return *self;
        }
        let below: u32 = 1074 - e;
        let mut n: u64 = 0;
        proof {
            lemma_pow2_pos(below as nat);
        }
        if below < 64 {
            let unit = rounding::power(below);
            let high: u128 = s as u128 / unit;
            let low: u128 = s as u128 % unit;
            proof {
                lemma_fundamental_div_mod(s as int, unit as int);
                assert(0 <= high <= s) by (nonlinear_arith)
                    requires
                        s == unit * high + low,
                        low >= 0,
                        unit >= 1,
                        high >= 0,
                ;
                lemma_round_parts(s as int, e as nat, unit as int, high as int, low as int);
            }
            n = high as u64;
            if low >= unit - low {
                n = n + 1;
            }
        } else {
            proof {
                lemma2_to64();
                lemma2_to64_rest();
                if below > 64 {
                    lemma_pow2_strictly_increases(64, below as nat);
                }
                lemma_mul_basics(pow2(below as nat) as int);
                lemma_round_parts(s as int, e as nat, pow2(below as nat) as int, 0, s as int);
            }
        }
        let size = Double::integer(n);
        proof {
            lemma_nearest_range(n * one, 1);
            lemma_mul_nonnegative(n as int, one);
        }
        Double::with_sign(self.bits >= SIGN, size.bits)
    }

    /// The square root.
    pub fn sqrt(&self) -> (d: Double)
        ensures
            d == self.root(),
    {
        let a = self.unsigned();
        proof {
            super::lemma_units_order(a as int, 0);
        }
        if a > INFINITY || (self.bits >= SIGN && a != 0) {
            return Double { bits: NAN };
        }
        if a == INFINITY || a == 0 {
            return *self;
        }
        let ghost one = super::one();
        let (p, e) = parts(a);
        let mut s: u64 = p;
        let mut n: u32 = 0;
        proof {
            lemma2_to64();
            lemma_mul_basics(s as int);
        }
        while s < EXPONENT_STEP
            invariant
                0 < p <= s < 2 * EXPONENT_STEP,
                0 <= n <= 52,
                s == p * pow2(n as nat),
                s >= pow2(n as nat),
            decreases 52 - n,
        {
            proof {
                if n == 52 {
                    lemma2_to64_rest();
                }
                lemma_pow2_unfold((n + 1) as nat);
                lemma_mul_is_associative(p as int, 2, pow2(n as nat) as int);
                lemma_mul_is_associative(2, p as int, pow2(n as nat) as int);
            }
            s = s * 2;
            n = n + 1;
        }
        let even = (e + 1074 - n) % 2 == 0;
        let c: u32 = if even {
            56
        } else {
            57
        };
        let square: u128 = if even {
            s as u128 * 0x100_0000_0000_0000
        } else {
            s as u128 * 0x200_0000_0000_0000
        };
        let h: u32 = (e + 1074 - n - c) / 2;
        let m = integer_root(square);
        let ghost total = self.amount() * one;
        let ghost q = floor_root(total);
        proof {
            lemma2_to64_rest();
            lemma_scale(p as int, n as nat, c as nat);
            lemma_scale(p as int, (n + c) as nat, (2 * h) as nat);
            lemma_scale(p as int, e as nat, 1074);
            assert(e + 1074 == n + c + 2 * h);
            assert(total == square * pow2((2 * h) as nat));
            assert(m >= 0x40_0000_0000_0000) by (nonlinear_arith)
                requires
                    square >= 0x10_0000_0000_0000 * 0x100_0000_0000_0000,
                    square < (m + 1) * (m + 1),
                    m >= 0,
            ;
            lemma_root_scaled(square as int, m as int, h as nat, total);
            lemma_root_holds(m as int, h as nat, q);
        }
        let exact = m * m == square;
        let magnitude = if exact {
            rounding::round(m, h as i32, false, Ghost(q), Ghost(1))
        } else {
            let ghost num = if q * q == total { q } else { 2 * q + 1 };
            let ghost den = if q * q == total { 1int } else { 2int };
            rounding::round(m, h as i32, true, Ghost(num), Ghost(den))
        };
        Double::with_sign(false, magnitude)
    }
}

/// What lies in the unit above `m * 2^h` is `m` with a rest.
proof fn lemma_root_holds(m: int, h: nat, q: int)
    requires
        h > 0,
        m * pow2(h) <= q < (m + 1) * pow2(h),
    ensures
        rounding::holds(q, 1, m, h as int, q > m * pow2(h)),
        rounding::holds(2 * q + 1, 2, m, h as int, true),
{
    let u = pow2(h) as int;
    lemma2_to64();
    lemma_mul_basics(q);
    lemma_mul_basics(2 * q + 1);
    lemma_mul_basics(u);
    lemma_mul_is_commutative(m, u);
    lemma_mul_is_distributive_add_other_way(u, m, 1);
    lemma_mul_is_associative(2, u, m);
}

/// The root of `square * 2^(2h)` lies where that of `square`, scaled by `2^h`, does.
proof fn lemma_root_scaled(square: int, m: int, h: nat, total: int)
    requires
        is_floor_root(square, m),
        total == square * pow2((2 * h) as nat),
    ensures
        is_floor_root(total, floor_root(total)),
        m * pow2(h) <= floor_root(total) < (m + 1) * pow2(h),
        m * m == square ==> floor_root(total) == m * pow2(h) && floor_root(total) * floor_root(
            total,
        ) == total,
        m * m < square && floor_root(total) * floor_root(total) == total ==> floor_root(total) > m
            * pow2(h),
{
    let u = pow2(h) as int;
    lemma_pow2_pos(h);
    lemma_pow2_adds(h, h);
    assert(total == square * (u * u));
    lemma_mul_nonnegative(m, m);
    lemma_mul_nonnegative(u, u);
    lemma_mul_nonnegative(square, u * u);
    let q = lemma_root_exists(total);
    lemma_floor_root(total, q);
    let (low, high) = (m * u, (m + 1) * u);
    assert(low * low == (m * m) * (u * u) && high * high == ((m + 1) * (m + 1)) * (u * u))
        by (nonlinear_arith)
        requires
            low == m * u,
            high == (m + 1) * u,
    ;
    lemma_mul_strictly_positive(u, u);
    lemma_mul_inequality(m * m, square, u * u);
    lemma_mul_strict_inequality(square, (m + 1) * (m + 1), u * u);
    lemma_mul_nonnegative(m, u);
    assert(low <= q) by (nonlinear_arith)
        requires
            low * low < (q + 1) * (q + 1),
            0 <= low,
            0 <= q,
    ;
    assert(q < high) by (nonlinear_arith)
        requires
            q * q < high * high,
            0 <= high,
            0 <= q,
    ;
    if m * m == square {
        lemma_mul_nonnegative(low, low);
        assert(total < (low + 1) * (low + 1)) by (nonlinear_arith)
            requires
                total == low * low,
                low >= 0,
        ;
        lemma_floor_root(total, low);
    } else if q * q == total {
        lemma_mul_strict_inequality(m * m, square, u * u);
        assert(q != low);
    }
}

/// Every natural number has one.
proof fn lemma_root_exists(n: int) -> (q: int)
    requires
        0 <= n,
    ensures
        is_floor_root(n, q),
    decreases n,
{
    if n == 0 {
        assert(0int * 0 == 0 && (0int + 1) * (0int + 1) == 1) by (nonlinear_arith);
        0
    } else {
        let p = lemma_root_exists(n - 1);
        if (p + 1) * (p + 1) == n {
            assert(n < (p + 2) * (p + 2)) by (nonlinear_arith)
                requires
                    n == (p + 1) * (p + 1),
                    p >= 0,
            ;
            p + 1
        } else {
            p
        }
    }
}

/// A whole number of 32 bits is far from infinite.
pub proof fn lemma_whole_finite(d: Double, n: int)
    requires
        !d.nan(),
        !d.negative(),
        d.amount() == n * super::one(),
        0 <= n < 0x1_0000_0000,
    ensures
        !d.infinite(),
{
    lemma2_to64();
    lemma_pow2_adds(52, 2046);
    lemma_pow2_adds(32, 1074);
    lemma_pow2_strictly_increases(1106, 2098);
    lemma_pow2_pos(1074);
    lemma_mul_strict_inequality(n, 0x1_0000_0000, super::one());
    assert(INFINITY as int / EXPONENT_STEP as int == 2047);
    assert(INFINITY as int % EXPONENT_STEP as int == 0);
    assert(super::units(INFINITY as int) == EXPONENT_STEP * pow2(2046));
    lemma2_to64_rest();
}

/// Zero is a double.
pub proof fn lemma_zero()
    ensures
        Double::whole_number(0) == (Double { bits: 0 }),
        Double::whole_number(0).amount() == 0,
        !Double::whole_number(0).nan(),
{
    lemma_nearest_zero(1);
    lemma_mul_basics(super::one());
    assert(super::units(0) == 0);
}

/// A whole number of 53 bits is a double.
pub proof fn lemma_whole_exact(n: int)
    requires
        0 < n < 0x20_0000_0000_0000,
    ensures
        !Double::whole_number(n).nan(),
        !Double::whole_number(n).infinite(),
        !Double::whole_number(n).negative(),
        Double::whole_number(n).amount() == n * super::one(),
{
    lemma2_to64();
    lemma2_to64_rest();
    let m = lemma_normal(n);
    super::lemma_units_order(m, 0);
    lemma_units_exact(m);
}

/// A whole number of 53 bits has a magnitude that stands for it.
proof fn lemma_normal(n: int) -> (m: int)
    requires
        0 < n < 0x20_0000_0000_0000,
    ensures
        0 < m < INFINITY,
        super::units(m) == n * super::one(),
{
    lemma2_to64();
    lemma2_to64_rest();
    lemma_pow2_pos(1074);
    let j = lemma_shift(n, 0);
    let s = n * pow2(j);
    let step = EXPONENT_STEP as int;
    let field = 1075 - j;
    let m = field * step + (s - step);
    assert(m / step == field && m % step == s - step) by (nonlinear_arith)
        requires
            m == field * step + (s - step),
            step <= s < 2 * step,
            step == 0x10_0000_0000_0000,
    ;
    lemma_scale(n, j, (1074 - j) as nat);
    assert(super::units(m) == s * pow2((1074 - j) as nat));
    m
}

/// How far a number is to be shifted to have 53 bits.
proof fn lemma_shift(n: int, j: nat) -> (k: nat)
    requires
        0 < n,
        j <= 52,
        n * pow2(j) < 0x20_0000_0000_0000,
    ensures
        k <= 52,
        0x10_0000_0000_0000 <= n * pow2(k) < 0x20_0000_0000_0000,
    decreases 53 - j,
{
    lemma2_to64_rest();
    if n * pow2(j) >= 0x10_0000_0000_0000 {
        j
    } else {
        lemma_pow2_unfold(j + 1);
        lemma_mul_is_associative(n, 2, pow2(j) as int);
        lemma_mul_is_associative(2, n, pow2(j) as int);
        if j == 52 {
            lemma_mul_inequality(1, n, pow2(52) as int);
        }
        lemma_shift(n, j + 1)
    }
}

/// What is left of the number `s * 2^e` above and below the point, where
/// `unit` is one.
proof fn lemma_floor_parts(s: int, e: nat, unit: int, high: int, low: int)
    requires
        0 <= s,
        e < 1074,
        unit == pow2((1074 - e) as nat),
        s == unit * high + low,
        0 <= low < unit,
        0 <= high,
    ensures
        (s * pow2(e)) / super::one() == high,
        (-(s * pow2(e))) / super::one() == if low > 0 { -(high + 1) } else { -high },
{
    let one = super::one();
    let p = pow2(e) as int;
    lemma_pow2_pos(e);
    lemma_pow2_adds(e, (1074 - e) as nat);
    assert(one == p * unit);
    lemma_pow2_pos(1074);
    let x = s * p;
    assert(x == high * one + low * p) by (nonlinear_arith)
        requires
            x == s * p,
            s == unit * high + low,
            one == p * unit,
    ;
    lemma_mul_nonnegative(low, p);
    lemma_mul_strict_inequality(low, unit, p);
    lemma_mul_is_commutative(p, unit);
    lemma_fundamental_div_mod_converse(x, one, high, low * p);
    if low > 0 {
        lemma_mul_strictly_positive(low, p);
        assert(-x == (-(high + 1)) * one + (one - low * p)) by (nonlinear_arith)
            requires
                x == high * one + low * p,
        ;
        lemma_fundamental_div_mod_converse(-x, one, -(high + 1), one - low * p);
    } else {
        lemma_mul_basics(p);
        assert(-x == (-high) * one + 0) by (nonlinear_arith)
            requires
                x == high * one,
        ;
        lemma_fundamental_div_mod_converse(-x, one, -high, 0);
    }
}

/// Rounding looks at whether what is below the point is at least one half.
proof fn lemma_round_parts(s: int, e: nat, unit: int, high: int, low: int)
    requires
        0 <= s,
        e < 1074,
        unit == pow2((1074 - e) as nat),
        s == unit * high + low,
        0 <= low < unit,
        0 <= high,
    ensures
        (2 * (s * pow2(e)) + super::one()) / (2 * super::one()) == if 2 * low >= unit {
            high + 1
        } else {
            high
        },
{
    let one = super::one();
    let p = pow2(e) as int;
    lemma_pow2_pos(e);
    lemma_pow2_pos(1074);
    lemma_pow2_adds(e, (1074 - e) as nat);
    assert(one == p * unit);
    let x = s * p;
    assert(x == high * one + low * p) by (nonlinear_arith)
        requires
            x == s * p,
            s == unit * high + low,
            one == p * unit,
    ;
    lemma_mul_nonnegative(low, p);
    lemma_mul_strict_inequality(low, unit, p);
    lemma_mul_is_commutative(p, unit);
    lemma_mul_is_associative(2, low, p);
    let total = 2 * x + one;
    if 2 * low >= unit {
        lemma_mul_inequality(unit, 2 * low, p);
        assert(total == (high + 1) * (2 * one) + (2 * (low * p) - one)) by (nonlinear_arith)
            requires
                total == 2 * x + one,
                x == high * one + low * p,
        ;
        lemma_fundamental_div_mod_converse(total, 2 * one, high + 1, 2 * (low * p) - one);
    } else {
        lemma_mul_strict_inequality(2 * low, unit, p);
        assert(total == high * (2 * one) + (2 * (low * p) + one)) by (nonlinear_arith)
            requires
                total == 2 * x + one,
                x == high * one + low * p,
        ;
        lemma_fundamental_div_mod_converse(total, 2 * one, high, 2 * (low * p) + one);
    }
}

/// A number of 2^52 or more rounds to itself.
proof fn lemma_round_whole(m: int, s: int, e: nat)
    requires
        0 <= m < INFINITY,
        super::units(m) == s * pow2(e),
        e >= 1074,
    ensures
        rounding::nearest_magnitude(
            ((2 * super::units(m) + super::one()) / (2 * super::one())) * super::one(),
            1,
        ) == m,
{
    let one = super::one();
    let u = super::units(m);
    let t = pow2((e - 1074) as nat) as int;
    lemma_pow2_pos(1074);
    lemma_pow2_adds((e - 1074) as nat, 1074);
    lemma_mul_is_associative(s, t, one);
    let whole = s * t;
    assert(u == whole * one);
    assert(2 * u + one == whole * (2 * one) + one) by (nonlinear_arith)
        requires
            u == whole * one,
    ;
    lemma_fundamental_div_mod_converse(2 * u + one, 2 * one, whole, one);
    lemma_units_exact(m);
}

/// A number of 2^52 or more is whole, and rounds to itself.
proof fn lemma_whole_above(d: Double, s: int, e: nat)
    requires
        d.magnitude() < INFINITY,
        super::units(d.magnitude()) == s * pow2(e),
        EXPONENT_STEP <= s,
        e >= 1074,
    ensures
        d.floored() == d,
{
    let one = super::one();
    let m = d.magnitude();
    let u = super::units(m);
    let t = pow2((e - 1074) as nat) as int;
    lemma_pow2_pos(1074);
    lemma_pow2_pos((e - 1074) as nat);
    lemma_pow2_adds((e - 1074) as nat, 1074);
    lemma_mul_is_associative(s, t, one);
    let whole = s * t;
    lemma_mul_strictly_positive(s, t);
    assert(u == whole * one);
    lemma_fundamental_div_mod_converse(u, one, whole, 0);
    lemma_mul_unary_negation(whole, one);
    lemma_fundamental_div_mod_converse(-u, one, -whole, 0);
    lemma_mul_strictly_positive(whole, one);
    lemma_units_exact(m);
}

/// A double is the nearest one to itself.
pub proof fn lemma_units_exact(m: int)
    requires
        0 <= m < INFINITY,
    ensures
        rounding::nearest_magnitude(super::units(m), 1) == m,
{
    let step = EXPONENT_STEP as int;
    let (exponent, fraction) = (m / step, m % step);
    lemma_fundamental_div_mod(m, step);
    lemma2_to64();
    lemma2_to64_rest();
    let k: nat = if exponent > 0 { (exponent - 1) as nat } else { 0 };
    let s = if exponent > 0 { step + fraction } else { fraction };
    let u = super::units(m);
    lemma_mul_basics(fraction);
    assert(u == s * pow2(k));
    lemma_pow2_pos(k);
    let p = pow2(k) as int;
    lemma_pow2_adds(53, k);
    lemma_mul_strict_inequality(s, 0x20_0000_0000_0000, p);
    if k > 0 {
        lemma_pow2_adds(52, k);
        lemma_mul_inequality(0x10_0000_0000_0000, s, p);
    }
    lemma_mul_basics(pow2(53 + k) as int);
    lemma_mul_basics(pow2(52 + k) as int);
    rounding::lemma_excess_is(u, 1, k);
    lemma_mul_basics(p);
    lemma_fundamental_div_mod_converse(u, p, s, 0);
}

/// The number nearest to one that is at most the whole number `limit` is at most
/// `limit` too. Both are counted in units of 2^-1074 over `den`.
pub proof fn lemma_nearest_up_to(num: int, den: int, limit: int)
    requires
        0 <= num,
        0 < den,
        0 <= limit < 0x20_0000_0000_0000,
        num <= (limit * super::one()) * den,
    ensures
        !Double::nearest(num, den).nan(),
        !Double::nearest(num, den).negative(),
        0 <= Double::nearest(num, den).amount() <= limit * super::one(),
{
    let one = super::one();
    lemma_pow2_pos(1074);
    lemma_mul_nonnegative(limit, one);
    lemma_nearest_range(num, den);
    rounding::lemma_nearest_monotone(num, (limit * one) * den, den);
    lemma_mul_basics(den);
    lemma_nearest_scaled(limit * one, 1, den);
    let m = rounding::nearest_magnitude(num, den);
    super::lemma_units_order(m, 0);
    if limit == 0 {
        lemma_mul_basics(one);
        lemma_nearest_zero(1);
    } else {
        lemma_whole_exact(limit);
        lemma_mul_strictly_positive(limit, one);
        let top = Double::whole_number(limit);
        lemma_nearest_range(limit * one, 1);
        super::lemma_units_order(m, top.magnitude());
        super::lemma_units_order(top.magnitude(), m);
    }
}

/// Adding what is not negative to a number that is not negative makes it no smaller.
pub proof fn lemma_sum_no_smaller(a: Double, b: Double)
    requires
        a.non_negative(),
        b.non_negative(),
    ensures
        a.at_most(a.sum(b)),
{
    super::lemma_units_order(a.magnitude(), 0);
    super::lemma_units_order(b.magnitude(), 0);
    if !a.infinite() && !b.infinite() {
        let total = a.amount() + b.amount();
        if total > 0 {
            lemma_units_exact(a.magnitude());
            rounding::lemma_nearest_monotone(a.amount(), total, 1);
            lemma_nearest_range(total, 1);
            let m = rounding::nearest_magnitude(total, 1);
            super::lemma_units_order(m, a.magnitude());
            super::lemma_units_order(a.magnitude(), m);
            super::lemma_units_order(m, 0);
        } else {
            assert(super::units(0) == 0);
        }
    } else if b.infinite() && !a.infinite() {
        super::lemma_units_order(a.magnitude(), b.magnitude());
    }
}

/// The number nearest to 1/20 lies between 0 and one half.
pub proof fn lemma_twentieth()
    ensures
        Double::fraction(1, 20).positive(),
        2 * Double::fraction(1, 20).amount() < super::one(),
{
    let one = super::one();
    lemma_pow2_pos(1070);
    lemma2_to64();
    lemma_pow2_adds(4, 1070);
    lemma_pow2_adds(2, 1072);
    lemma_pow2_adds(2, 1070);
    // 1/4 is a double.
    let quarter = pow2(1072) as int;
    let m = 1021 * EXPONENT_STEP as int;
    assert(m / EXPONENT_STEP as int == 1021 && m % EXPONENT_STEP as int == 0);
    lemma2_to64_rest();
    lemma_pow2_adds(52, 1020);
    assert(super::units(m) == quarter);
    lemma_units_exact(m);
    lemma_nearest_scaled(quarter, 1, 20);
    lemma_mul_basics(20);
    rounding::lemma_nearest_monotone(one, quarter * 20, 20);
    // The smallest double is one, too.
    lemma_nearest_scaled(1, 1, 20);
    lemma_nearest_positive(1);
    rounding::lemma_nearest_monotone(20, one, 20);
    lemma_mul_basics(one);
    let n = rounding::nearest_magnitude(one, 20);
    lemma_nearest_range(one, 20);
    super::lemma_units_order(n, m);
    super::lemma_units_order(m, n);
    super::lemma_units_order(n, 0);
}

impl Double {
    /// What is lost in rounding `num / den`, counted in units of 2^-1074 over `den`.
    pub open spec fn lost(num: int, den: int) -> int {
        let off = den * Double::nearest(num, den).amount() - num;
        if off < 0 {
            -off
        } else {
            off
        }
    }

    /// Neither a NaN nor infinite.
    pub open spec fn finite(self) -> bool {
        self.magnitude() < INFINITY
    }
}

/// Rounding keeps the significand: the nearest double is the significand, scaled.
pub(super) proof fn lemma_nearest_units(num: int, den: int)
    requires
        0 <= num,
        0 < den,
        rounding::nearest_magnitude(num, den) < INFINITY,
    ensures
        ({
            let k = rounding::excess(num, den);
            super::units(rounding::nearest_magnitude(num, den)) == rounding::nearest_even(
                num,
                den * pow2(k),
            ) * pow2(k)
        }),
{
    let step = EXPONENT_STEP as int;
    let k = rounding::excess(num, den);
    let d = den * pow2(k);
    let q = rounding::nearest_even(num, d);
    let m = k * step + q;
    lemma_pow2_pos(k);
    lemma_mul_strictly_positive(den, pow2(k) as int);
    lemma2_to64();
    lemma2_to64_rest();
    lemma_fundamental_div_mod(num, d);
    lemma_div_pos_is_pos(num, d);
    rounding::lemma_fits(num, den);
    assert(num / d < 2 * step) by (nonlinear_arith)
        requires
            num < d * (2 * step),
            0 <= num,
            0 < d,
    ;
    assert(0 <= q <= 2 * step);
    if k > 0 {
        rounding::lemma_full(num, den, k);
        assert(num / d >= step) by (nonlinear_arith)
            requires
                num >= d * step,
                0 < d,
        ;
    }
    if q < step {
        assert(k == 0);
        lemma_mul_basics(q);
    } else if q < 2 * step {
        assert(m / step == k + 1 && m % step == q - step) by (nonlinear_arith)
            requires
                m == k * step + q,
                step <= q < 2 * step,
                step == 0x10_0000_0000_0000,
        ;
    } else {
        assert(m / step == k + 2 && m % step == 0) by (nonlinear_arith)
            requires
                m == k * step + 2 * step,
                step == 0x10_0000_0000_0000,
        ;
        lemma_pow2_unfold(k + 1);
        lemma_mul_is_associative(step, 2, pow2(k) as int);
    }
}

/// What rounding loses is at most 2^-53 of the number, or, next to zero, half of the
/// smallest double. A whole number of units loses at most 2^-53 of itself.
pub proof fn law_rounding_loses_little(num: int, den: int)
    requires
        0 < den,
        Double::nearest(num, den).finite(),
    ensures
        Double::lost(num, den) * pow2(53) <= (if num < 0 { -num } else { num }) || 2 * Double::lost(
            num,
            den,
        ) <= den,
        den == 1 ==> Double::lost(num, 1) * pow2(53) <= (if num < 0 { -num } else { num }),
{
    let size = if num < 0 { -num } else { num };
    let k = rounding::excess(size, den);
    let d = den * pow2(k);
    let q = rounding::nearest_even(size, d);
    lemma_nearest_range(size, den);
    lemma_nearest_units(size, den);
    lemma_pow2_pos(k);
    lemma_mul_strictly_positive(den, pow2(k) as int);
    lemma_fundamental_div_mod(size, d);
    let u = super::units(rounding::nearest_magnitude(size, den));
    assert(den * u == q * d) by (nonlinear_arith)
        requires
            u == q * pow2(k),
            d == den * pow2(k),
    ;
    lemma_mul_unary_negation(den, u);
    assert(den * (-u) == -(den * u)) by (nonlinear_arith);
    let lost = Double::lost(num, den);
    let off = q * d - size;
    assert(lost == if off < 0 { -off } else { off });
    let (w, r) = (size / d, size % d);
    assert(size == d * w + r);
    assert(w * d == d * w && (w + 1) * d == d * w + d) by (nonlinear_arith);
    assert(2 * lost <= d);
    lemma2_to64();
    lemma2_to64_rest();
    lemma_pow2_unfold(53);
    if k > 0 {
        rounding::lemma_full(size, den, k);
        assert(lost * pow2(53) <= d * pow2(52)) by (nonlinear_arith)
            requires
                2 * lost <= d,
                pow2(53) == 2 * pow2(52),
                pow2(52) > 0,
        ;
    } else {
        lemma_mul_basics(den);
        if den == 1 {
            assert(lost == 0);
            lemma_mul_basics(pow2(53) as int);
        }
    }
}

/// Rounding keeps the order of numbers, of either sign.
pub proof fn lemma_nearest_order(a: int, b: int, den: int)
    requires
        a <= b,
        0 < den,
    ensures
        Double::nearest(a, den).at_most(Double::nearest(b, den)),
{
    let (x, y) = (if a < 0 { -a } else { a }, if b < 0 { -b } else { b });
    lemma_nearest_range(x, den);
    lemma_nearest_range(y, den);
    let (m, n) = (rounding::nearest_magnitude(x, den), rounding::nearest_magnitude(y, den));
    super::lemma_units_order(m, n);
    super::lemma_units_order(n, m);
    if a >= 0 {
        rounding::lemma_nearest_monotone(a, b, den);
    } else if b < 0 {
        rounding::lemma_nearest_monotone(-b, -a, den);
    }
}

/// A difference does not decrease in what is subtracted from.
pub proof fn lemma_difference_order(a: Double, b: Double, c: Double)
    requires
        a.finite(),
        b.finite(),
        c.finite(),
        a.amount() <= b.amount(),
    ensures
        a.difference(c).at_most(b.difference(c)),
        a.difference(c).amount() == Double::nearest(a.amount() - c.amount(), 1).amount(),
        !a.difference(c).nan(),
{
    let o = c.opposite();
    assert(o.amount() == -c.amount() && o.finite());
    let (s, t) = (a.amount() - c.amount(), b.amount() - c.amount());
    lemma_nearest_order(s, t, 1);
    lemma_nearest_zero(1);
    assert(super::units(0) == 0);
    lemma_nearest_order(s, s, 1);
    assert(Double::signed(true, 0).amount() == 0 && Double::signed(false, 0).amount() == 0);
}

/// A quotient by a positive number does not decrease in what is divided.
pub proof fn lemma_quotient_order(a: Double, b: Double, c: Double)
    requires
        a.at_most(b),
        c.positive(),
        c.infinite() ==> !a.infinite() && !b.infinite(),
    ensures
        a.quotient(c).at_most(b.quotient(c)),
{
    let one = super::one();
    lemma_pow2_pos(1074);
    super::lemma_units_order(c.magnitude(), 0);
    super::lemma_units_order(a.magnitude(), 0);
    super::lemma_units_order(b.magnitude(), 0);
    super::lemma_units_order(a.magnitude(), b.magnitude());
    super::lemma_units_order(b.magnitude(), a.magnitude());
    assert(super::units(0) == 0);
    let (x, y) = (super::units(a.magnitude()), super::units(b.magnitude()));
    let d = super::units(c.magnitude());
    super::lemma_units_order(INFINITY as int, 0);
    if !c.infinite() {
        lemma_mul_nonnegative(x, one);
        lemma_mul_nonnegative(y, one);
        lemma_nearest_range(x * one, d);
        lemma_nearest_range(y * one, d);
        lemma_nearest_zero(d);
        lemma_mul_basics(one);
        let (m, n) = (
            rounding::nearest_magnitude(x * one, d),
            rounding::nearest_magnitude(y * one, d),
        );
        super::lemma_units_order(m, n);
        super::lemma_units_order(n, m);
        super::lemma_units_order(m, 0);
        super::lemma_units_order(n, 0);
        super::lemma_units_order(m, INFINITY as int);
        super::lemma_units_order(n, INFINITY as int);
        if x <= y {
            lemma_mul_inequality(x, y, one);
            rounding::lemma_nearest_monotone(x * one, y * one, d);
        } else {
            lemma_mul_inequality(y, x, one);
            rounding::lemma_nearest_monotone(y * one, x * one, d);
        }
    }
}

/// The root of a number that is not negative is a number that is not negative.
pub proof fn lemma_root_range(d: Double)
    requires
        d.non_negative(),
    ensures
        d.root().non_negative(),
        d.amount() == 0 ==> d.root().amount() == 0,
{
    let square = d.amount() * super::one();
    lemma_pow2_pos(1074);
    lemma_mul_nonnegative(d.amount(), super::one());
    let q = lemma_root_exists(square);
    lemma_floor_root(square, q);
    lemma_nearest_range(q, 1);
    lemma_nearest_range(2 * q + 1, 2);
    super::lemma_units_order(rounding::nearest_magnitude(q, 1), 0);
    super::lemma_units_order(rounding::nearest_magnitude(2 * q + 1, 2), 0);
}

/// The number nearest to 1/100 is positive.
pub proof fn lemma_hundredth()
    ensures
        Double::fraction(1, 100).positive(),
{
    let one = super::one();
    lemma2_to64();
    lemma_pow2_strictly_increases(7, 1074);
    lemma_nearest_scaled(1, 1, 100);
    lemma_nearest_positive(1);
    rounding::lemma_nearest_monotone(100, one, 100);
    lemma_nearest_range(one, 100);
    lemma_mul_basics(one);
    super::lemma_units_order(rounding::nearest_magnitude(one, 100), 0);
}

/// A finite number other than the negative zero, divided by a whole number, is rounded
/// once.
pub proof fn lemma_quotient_by_whole(d: Double, n: int)
    requires
        d.finite(),
        d.bits != SIGN,
        0 < n < 0x20_0000_0000_0000,
    ensures
        d.quotient(Double::whole_number(n)) == Double::nearest(d.amount(), n),
{
    let one = super::one();
    lemma_pow2_pos(1074);
    lemma_whole_exact(n);
    lemma_mul_strictly_positive(n, one);
    let u = super::units(d.magnitude());
    super::lemma_units_order(d.magnitude(), 0);
    lemma_nearest_scaled(u, n, one);
}

/// A power of two is its own nearest double, infinite from 2^2098 units on.
proof fn lemma_nearest_power(k: nat)
    requires
        k >= 53,
    ensures
        rounding::nearest_magnitude(pow2(k) as int, 1) == if k < 2098 {
            (k - 51) * EXPONENT_STEP
        } else {
            INFINITY as int
        },
{
    let j = (k - 52) as nat;
    let p = pow2(j) as int;
    lemma_pow2_pos(j);
    lemma_pow2_strictly_increases(k, 53 + j);
    lemma_mul_basics(pow2(53 + j) as int);
    lemma_mul_basics(pow2(52 + j) as int);
    rounding::lemma_excess_is(pow2(k) as int, 1, j);
    lemma_mul_basics(p);
    lemma_pow2_adds(52, j);
    lemma2_to64_rest();
    lemma_fundamental_div_mod_converse(pow2(k) as int, p, EXPONENT_STEP as int, 0);
    let step = EXPONENT_STEP as int;
    assert(j * step + step == (k - 51) * step) by (nonlinear_arith)
        requires
            j == k - 52,
    ;
    if k < 2098 {
        assert((k - 51) * step < 2047 * step) by (nonlinear_arith)
            requires
                k - 51 < 2047,
                step > 0,
        ;
    } else {
        assert((k - 51) * step >= 2047 * step) by (nonlinear_arith)
            requires
                k - 51 >= 2047,
                step > 0,
        ;
    }
}

/// A finite number is below 2^2098 units.
proof fn lemma_finite_units(m: int)
    requires
        0 <= m < INFINITY,
    ensures
        0 <= super::units(m) < pow2(2098),
{
    super::lemma_units_order(m, INFINITY as int);
    assert(INFINITY as int / EXPONENT_STEP as int == 2047);
    assert(INFINITY as int % EXPONENT_STEP as int == 0);
    lemma2_to64_rest();
    lemma_pow2_adds(52, 2046);
}

/// The root of a finite number is finite.
pub proof fn lemma_root_finite(d: Double)
    requires
        d.finite(),
        d.non_negative(),
    ensures
        d.root().finite(),
{
    let square = d.amount() * super::one();
    lemma_pow2_pos(1074);
    lemma_mul_nonnegative(d.amount(), super::one());
    let q = lemma_root_exists(square);
    lemma_floor_root(square, q);
    lemma_finite_units(d.magnitude());
    super::lemma_units_order(d.magnitude(), 0);
    assert(d.amount() == super::units(d.magnitude()));
    let top = pow2(1586) as int;
    lemma_pow2_adds(1586, 1586);
    lemma_pow2_adds(2098, 1074);
    lemma_mul_strict_inequality(d.amount(), pow2(2098) as int, super::one());
    lemma_pow2_pos(1586);
    assert(q < top) by (nonlinear_arith)
        requires
            q * q < top * top,
            0 <= q,
            0 < top,
    ;
    lemma_pow2_unfold(1587);
    let limit = pow2(1587) as int;
    lemma_nearest_power(1587);
    lemma_nearest_scaled(limit, 1, 2);
    rounding::lemma_nearest_monotone(q, limit, 1);
    rounding::lemma_nearest_monotone(2 * q + 1, limit * 2, 2);
    lemma_nearest_range(q, 1);
    lemma_nearest_range(2 * q + 1, 2);
}

/// A number whose square is finite is far from the largest finite number.
pub proof fn lemma_square_finite(d: Double)
    requires
        d.product(d).finite(),
    ensures
        d.finite(),
        super::units(d.magnitude()) < pow2(2044),
{
    let a = super::units(d.magnitude());
    super::lemma_units_order(d.magnitude(), 0);
    let top = pow2(2044) as int;
    if d.finite() && a >= top {
        lemma_pow2_pos(2044);
        lemma_pow2_pos(1074);
        lemma_pow2_adds(2044, 2044);
        lemma_pow2_adds(3014, 1074);
        assert(top * top <= a * a) by (nonlinear_arith)
            requires
                0 < top <= a,
        ;
        let one = super::one();
        rounding::lemma_nearest_monotone(top * top, a * a, one);
        lemma_nearest_range(a * a, one);
        lemma_mul_basics(one);
        lemma_nearest_scaled(pow2(3014) as int, 1, one);
        lemma_nearest_power(3014);
    }
}

/// Next to a number that is far from the largest finite one, differences are finite.
pub proof fn lemma_difference_finite(a: Double, c: Double)
    requires
        a.finite(),
        c.finite(),
        super::units(c.magnitude()) < pow2(2044),
    ensures
        a.difference(c).finite(),
{
    let t = a.amount() - c.amount();
    let size = if t < 0 { -t } else { t };
    let p = pow2(2045) as int;
    let half = pow2(2044) as int;
    let full: int = 0x1F_FFFF_FFFF_FFFF;
    // The largest finite number.
    let m = INFINITY - 1;
    assert(m / EXPONENT_STEP as int == 2046 && m % EXPONENT_STEP as int == EXPONENT_STEP - 1);
    assert(super::units(m) == full * p);
    super::lemma_units_order(m, a.magnitude());
    super::lemma_units_order(a.magnitude(), m);
    super::lemma_units_order(a.magnitude(), 0);
    super::lemma_units_order(c.magnitude(), 0);
    lemma_pow2_pos(2044);
    lemma_pow2_unfold(2045);
    // Less than half a step above it.
    let top = full * p + (half - 1);
    assert(size <= top);
    lemma2_to64_rest();
    lemma_pow2_adds(53, 2045);
    lemma_pow2_adds(52, 2045);
    lemma_mul_basics(pow2(53 + 2045) as int);
    lemma_mul_basics(pow2(52 + 2045) as int);
    rounding::lemma_excess_is(top, 1, 2045);
    lemma_mul_basics(p);
    lemma_fundamental_div_mod_converse(top, p, full, half - 1);
    rounding::lemma_nearest_monotone(size, top, 1);
    lemma_nearest_range(size, 1);
    let o = c.opposite();
    assert(o.amount() == -c.amount() && o.finite());
}

/// What a magnitude from infinity on stands for is rounded to infinity.
pub(super) proof fn lemma_infinite_from(n: int, m: int)
    requires
        m >= INFINITY,
        n == super::units(m),
    ensures
        rounding::nearest_magnitude(n, 1) == INFINITY,
{
    super::lemma_units_order(INFINITY as int, m);
    super::lemma_units_order(m, INFINITY as int);
    assert(INFINITY as int / EXPONENT_STEP as int == 2047);
    assert(INFINITY as int % EXPONENT_STEP as int == 0);
    lemma2_to64_rest();
    lemma_pow2_adds(52, 2046);
    lemma_pow2_pos(2098);
    lemma_nearest_power(2098);
    rounding::lemma_nearest_monotone(pow2(2098) as int, n, 1);
    lemma_nearest_range(n, 1);
}

} // verus!
