//! What the operations that round come to, in terms of the exact numbers.
use super::arithmetic;
use super::rounding;
use super::{Double, EXPONENT_STEP, INFINITY};
use vstd::arithmetic::div_mod::{lemma_fundamental_div_mod, lemma_fundamental_div_mod_converse};
use vstd::arithmetic::mul::*;
use vstd::arithmetic::power2::*;
use vstd::prelude::*;

verus! {

/// How far two numbers lie apart.
pub open spec fn distance(a: int, b: int) -> int {
    if a < b {
        b - a
    } else {
        a - b
    }
}

/// Rounding keeps the sign of a whole number of units, and zero.
pub proof fn law_rounding_keeps_the_sign(n: int)
    ensures
        Double::nearest(n, 1).amount() > 0 <==> n > 0,
        Double::nearest(n, 1).amount() < 0 <==> n < 0,
        !Double::nearest(n, 1).nan(),
{
    let size = distance(n, 0);
    arithmetic::lemma_nearest_range(size, 1);
    super::lemma_units_order(rounding::nearest_magnitude(size, 1), 0);
    if n != 0 {
        arithmetic::lemma_nearest_positive(size);
    } else {
        arithmetic::lemma_nearest_zero(1);
    }
}

/// A sum of finite numbers has the sign of the exact sum, and where it is finite it is
/// off by at most 2^-53 of it.
pub proof fn law_sum_is_near(a: Double, b: Double)
    requires
        a.finite(),
        b.finite(),
    ensures
        ({
            let exact = a.amount() + b.amount();
            let r = a.sum(b);
            &&& !r.nan()
            &&& r.amount() > 0 <==> exact > 0
            &&& r.amount() < 0 <==> exact < 0
            &&& r.finite() ==> distance(r.amount(), exact) * pow2(53) <= distance(exact, 0)
        }),
{
    let exact = a.amount() + b.amount();
    law_rounding_keeps_the_sign(exact);
    arithmetic::lemma_nearest_zero(1);
    assert(super::units(0) == 0);
    if a.sum(b).finite() {
        if exact == 0 {
            lemma_mul_basics(pow2(53) as int);
        } else {
            arithmetic::law_rounding_loses_little(exact, 1);
        }
    }
}

/// A difference of finite numbers has the sign of the exact difference, and where it is
/// finite it is off by at most 2^-53 of it.
pub proof fn law_difference_is_near(a: Double, b: Double)
    requires
        a.finite(),
        b.finite(),
    ensures
        ({
            let exact = a.amount() - b.amount();
            let r = a.difference(b);
            &&& !r.nan()
            &&& r.amount() > 0 <==> exact > 0
            &&& r.amount() < 0 <==> exact < 0
            &&& r.finite() ==> distance(r.amount(), exact) * pow2(53) <= distance(exact, 0)
        }),
{
    let o = b.opposite();
    assert(o.finite() && o.amount() == -b.amount());
    law_sum_is_near(a, o);
}

/// A product of finite numbers is the exact product, rounded once.
pub proof fn law_product_is_rounded_once(a: Double, b: Double)
    requires
        a.finite(),
        b.finite(),
    ensures
        !a.product(b).nan(),
        a.product(b).finite() == Double::nearest(a.amount() * b.amount(), super::one()).finite(),
        a.product(b).amount() == Double::nearest(
            a.amount() * b.amount(),
            super::one(),
        ).amount(),
{
    let (x, y) = (super::units(a.magnitude()), super::units(b.magnitude()));
    super::lemma_units_order(a.magnitude(), 0);
    super::lemma_units_order(b.magnitude(), 0);
    lemma_pow2_pos(1074);
    lemma_mul_nonnegative(x, y);
    arithmetic::lemma_nearest_range(x * y, super::one());
    arithmetic::lemma_nearest_zero(super::one());
    assert(super::units(0) == 0);
    assert((-x) * y == -(x * y) && x * (-y) == -(x * y) && (-x) * (-y) == x * y)
        by (nonlinear_arith);
    if x * y != 0 {
        assert(x > 0 && y > 0) by (nonlinear_arith)
            requires
                x * y != 0,
                x >= 0,
                y >= 0,
        ;
    }
}

/// A product of finite numbers is off by at most 2^-53 of the exact one, or, next to
/// zero, by half of the smallest double. Its sign is never the other one.
pub proof fn law_product_is_near(a: Double, b: Double)
    requires
        a.finite(),
        b.finite(),
    ensures
        ({
            let exact = a.amount() * b.amount();
            let r = a.product(b);
            let off = distance(r.amount() * super::one(), exact);
            &&& !r.nan()
            &&& exact >= 0 ==> r.amount() >= 0
            &&& exact <= 0 ==> r.amount() <= 0
            &&& r.finite() ==> off * pow2(53) <= distance(exact, 0) || 2 * off <= super::one()
        }),
{
    let exact = a.amount() * b.amount();
    let one = super::one();
    lemma_pow2_pos(1074);
    law_product_is_rounded_once(a, b);
    lemma_nearest_side(exact, one);
    if a.product(b).finite() {
        arithmetic::law_rounding_loses_little(exact, one);
        lemma_mul_is_commutative(one, a.product(b).amount());
    }
}

/// Rounding does not pass zero.
proof fn lemma_nearest_side(num: int, den: int)
    requires
        0 < den,
    ensures
        num >= 0 ==> Double::nearest(num, den).amount() >= 0,
        num <= 0 ==> Double::nearest(num, den).amount() <= 0,
        !Double::nearest(num, den).nan(),
{
    let size = distance(num, 0);
    arithmetic::lemma_nearest_range(size, den);
    arithmetic::lemma_nearest_zero(den);
    super::lemma_units_order(rounding::nearest_magnitude(size, den), 0);
    assert(super::units(0) == 0);
}

/// A quotient by a positive number is the exact quotient, rounded once.
pub proof fn law_quotient_is_rounded_once(a: Double, b: Double)
    requires
        a.finite(),
        b.finite(),
        b.positive(),
    ensures
        !a.quotient(b).nan(),
        a.quotient(b).finite() == Double::nearest(
            a.amount() * super::one(),
            b.amount(),
        ).finite(),
        a.quotient(b).amount() == Double::nearest(
            a.amount() * super::one(),
            b.amount(),
        ).amount(),
{
    let (x, one) = (super::units(a.magnitude()), super::one());
    let y = super::units(b.magnitude());
    super::lemma_units_order(a.magnitude(), 0);
    super::lemma_units_order(b.magnitude(), 0);
    lemma_pow2_pos(1074);
    lemma_mul_nonnegative(x, one);
    arithmetic::lemma_nearest_range(x * one, y);
    arithmetic::lemma_nearest_zero(y);
    assert(super::units(0) == 0);
    assert((-x) * one == -(x * one)) by (nonlinear_arith);
    if x > 0 {
        lemma_mul_strictly_positive(x, one);
    } else {
        lemma_mul_basics(one);
    }
}

/// A quotient by a positive number is off by at most 2^-53 of the exact one, or, next to
/// zero, by half of the smallest double. Its sign is never the other one.
pub proof fn law_quotient_is_near(a: Double, b: Double)
    requires
        a.finite(),
        b.finite(),
        b.positive(),
    ensures
        ({
            let exact = a.amount() * super::one();
            let r = a.quotient(b);
            let off = distance(r.amount() * b.amount(), exact);
            &&& !r.nan()
            &&& a.amount() >= 0 ==> r.amount() >= 0
            &&& a.amount() <= 0 ==> r.amount() <= 0
            &&& r.finite() ==> off * pow2(53) <= distance(exact, 0) || 2 * off <= b.amount()
        }),
{
    let one = super::one();
    let exact = a.amount() * one;
    lemma_pow2_pos(1074);
    law_quotient_is_rounded_once(a, b);
    lemma_nearest_side(exact, b.amount());
    assert(a.amount() >= 0 ==> exact >= 0) by (nonlinear_arith)
        requires
            exact == a.amount() * one,
            one > 0,
    ;
    assert(a.amount() <= 0 ==> exact <= 0) by (nonlinear_arith)
        requires
            exact == a.amount() * one,
            one > 0,
    ;
    if a.quotient(b).finite() {
        arithmetic::law_rounding_loses_little(exact, b.amount());
        lemma_mul_is_commutative(b.amount(), a.quotient(b).amount());
    }
}

/// A part in ten thousands of a positive number: off by at most 3 * 2^-53 of the exact
/// one and 20000 of the smallest doubles, with a sign that is never the other one.
pub proof fn law_basis_points_are_near(part: Double, whole: Double)
    requires
        part.finite(),
        whole.finite(),
        whole.positive(),
    ensures
        ({
            let r = part.quotient(whole).product(Double::whole_number(10000));
            let exact = 10000 * (part.amount() * super::one());
            &&& !r.nan()
            &&& part.amount() >= 0 ==> r.amount() >= 0
            &&& part.amount() <= 0 ==> r.amount() <= 0
            &&& r.finite() ==> distance(r.amount() * whole.amount(), exact) * pow2(53) <= 30000
                * distance(part.amount() * super::one(), 0) + 20000 * (pow2(53) * whole.amount())
        }),
{
    let q = part.quotient(whole);
    let k = Double::whole_number(10000);
    let r = q.product(k);
    let one = super::one();
    lemma_pow2_pos(1074);
    lemma_pow2_pos(53);
    arithmetic::lemma_whole_exact(10000);
    law_quotient_is_near(part, whole);
    super::lemma_units_order(k.magnitude(), 0);
    super::lemma_units_order(q.magnitude(), 0);
    super::lemma_units_order(INFINITY as int, 0);
    if q.finite() {
        law_product_is_near(q, k);
        let (n, y) = (part.amount() * one, whole.amount());
        let p = pow2(53) as int;
        let (qa, ra) = (q.amount(), r.amount());
        assert(qa * (10000 * one) >= 0 <==> qa >= 0) by (nonlinear_arith)
            requires
                one > 0,
        ;
        assert(qa * (10000 * one) <= 0 <==> qa <= 0) by (nonlinear_arith)
            requires
                one > 0,
        ;
        if r.finite() {
            let e = distance(ra, 10000 * qa);
            let lq = distance(qa * y, n);
            assert(distance(ra * one, qa * (10000 * one)) == e * one) by (nonlinear_arith)
                requires
                    one > 0,
                    e == distance(ra, 10000 * qa),
            ;
            assert(distance(qa * (10000 * one), 0) == 10000 * distance(qa, 0) * one)
                by (nonlinear_arith)
                requires
                    one > 0,
            ;
            assert(e * p <= 10000 * distance(qa, 0)) by (nonlinear_arith)
                requires
                    (e * one) * p <= 10000 * distance(qa, 0) * one || 2 * (e * one) <= one,
                    one > 0,
                    p > 0,
                    e >= 0,
            ;
            assert(lq * p <= distance(n, 0) + p * y) by (nonlinear_arith)
                requires
                    lq * p <= distance(n, 0) || 2 * lq <= y,
                    y > 0,
                    p > 0,
                    lq >= 0,
            ;
            lemma_part_error(ra, qa, n, y, p, e, lq);
        }
    }
}

proof fn lemma_part_error(ra: int, qa: int, n: int, y: int, p: int, e: int, lq: int)
    requires
        y > 0,
        p > 0,
        e == distance(ra, 10000 * qa),
        lq == distance(qa * y, n),
        e * p <= 10000 * distance(qa, 0),
        lq * p <= distance(n, 0) + p * y,
    ensures
        distance(ra * y, 10000 * n) * p <= 30000 * distance(n, 0) + 20000 * (p * y),
{
    let off = distance(ra * y, 10000 * n);
    assert(off <= e * y + 10000 * lq) by {
        assert(ra * y - 10000 * n == (ra - 10000 * qa) * y + 10000 * (qa * y - n))
            by (nonlinear_arith);
        assert((ra - 10000 * qa) * y <= e * y && -((ra - 10000 * qa) * y) <= e * y)
            by (nonlinear_arith)
            requires
                y > 0,
                e == distance(ra, 10000 * qa),
        ;
    }
    assert((e * y) * p <= 10000 * (distance(qa, 0) * y)) by (nonlinear_arith)
        requires
            e * p <= 10000 * distance(qa, 0),
            y > 0,
    ;
    assert(distance(qa, 0) * y == distance(qa * y, 0)) by (nonlinear_arith)
        requires
            y > 0,
    ;
    assert(distance(qa * y, 0) <= distance(n, 0) + lq);
    assert(lq <= lq * p) by (nonlinear_arith)
        requires
            p >= 1,
            lq >= 0,
    ;
    assert(off * p <= (e * y) * p + 10000 * (lq * p)) by (nonlinear_arith)
        requires
            off <= e * y + 10000 * lq,
            p > 0,
    ;
}

/// A product with a number that is not negative keeps the order.
pub proof fn law_product_keeps_the_order(a: Double, b: Double, c: Double)
    requires
        a.finite(),
        b.finite(),
        c.finite(),
        a.amount() <= b.amount(),
        c.amount() >= 0,
    ensures
        a.product(c).at_most(b.product(c)),
{
    lemma_pow2_pos(1074);
    law_product_is_rounded_once(a, c);
    law_product_is_rounded_once(b, c);
    lemma_mul_inequality(a.amount(), b.amount(), c.amount());
    arithmetic::lemma_nearest_order(
        a.amount() * c.amount(),
        b.amount() * c.amount(),
        super::one(),
    );
}

/// A sum keeps the order of what is added to.
pub proof fn law_sum_keeps_the_order(a: Double, b: Double, c: Double)
    requires
        a.finite(),
        b.finite(),
        c.finite(),
        a.amount() <= b.amount(),
    ensures
        a.sum(c).at_most(b.sum(c)),
{
    let o = c.opposite();
    assert(o.finite() && o.amount() == -c.amount());
    assert(o.opposite() == c);
    arithmetic::lemma_difference_order(a, b, o);
}

/// No double lies nearer to a number than the one it is rounded to.
pub proof fn law_no_double_is_nearer(num: int, den: int, other: Double)
    requires
        0 < den,
        other.finite(),
        Double::nearest(num, den).finite(),
    ensures
        distance(den * Double::nearest(num, den).amount(), num) <= distance(
            den * other.amount(),
            num,
        ),
{
    let r = Double::nearest(num, den);
    let size = distance(num, 0);
    let (m, n) = (r.magnitude(), other.magnitude());
    arithmetic::lemma_nearest_range(size, den);
    super::lemma_units_order(m, 0);
    super::lemma_units_order(n, 0);
    let k = rounding::excess(size, den);
    let d = den * pow2(k);
    lemma_pow2_pos(k);
    lemma_mul_strictly_positive(den, pow2(k) as int);
    arithmetic::lemma_nearest_units(size, den);
    let (u, v) = (super::units(m), super::units(n));
    assert(r.amount() == u || r.amount() == -u);
    assert(other.amount() == v || other.amount() == -v);
    assert(den * (-u) == -(den * u) && den * (-v) == -(den * v)) by (nonlinear_arith);
    lemma_nearest_side(num, den);
    assert(distance(den * u, size) <= distance(den * v, size)) by {
        lemma_nearest_step(size, den, v, n);
    }
    assert(den * v >= 0) by (nonlinear_arith)
        requires
            den > 0,
            v >= 0,
    ;
}

/// The same for numbers that are not negative.
proof fn lemma_nearest_step(num: int, den: int, v: int, n: int)
    requires
        0 <= num,
        0 < den,
        0 <= n < INFINITY,
        v == super::units(n),
        rounding::nearest_magnitude(num, den) < INFINITY,
    ensures
        distance(den * super::units(rounding::nearest_magnitude(num, den)), num) <= distance(
            den * v,
            num,
        ),
{
    let k = rounding::excess(num, den);
    let p = pow2(k) as int;
    let d = den * p;
    let q = rounding::nearest_even(num, d);
    lemma_pow2_pos(k);
    lemma_mul_strictly_positive(den, p);
    arithmetic::lemma_nearest_units(num, den);
    let u = super::units(rounding::nearest_magnitude(num, den));
    let (w, r) = (num / d, num % d);
    lemma_fundamental_div_mod(num, d);
    assert(den * u == d * q) by (nonlinear_arith)
        requires
            u == q * p,
            d == den * p,
    ;
    assert(d * (w + 1) == d * w + d) by (nonlinear_arith);
    assert(2 * distance(d * q, num) <= d);
    if k == 0 {
        lemma2_to64();
        lemma_mul_basics(den);
        // Every double is a whole number of units.
        if v <= w {
            lemma_mul_inequality(v, w, d);
            lemma_mul_is_commutative(v, d);
            lemma_mul_is_commutative(w, d);
        } else {
            lemma_mul_inequality(w + 1, v, d);
            lemma_mul_is_commutative(v, d);
            lemma_mul_is_commutative(w + 1, d);
        }
    } else {
        rounding::lemma_full(num, den, k);
        lemma2_to64_rest();
        let step = EXPONENT_STEP as int;
        assert(w >= step) by (nonlinear_arith)
            requires
                num >= d * step,
                w == num / d,
                d > 0,
        ;
        if v <= w * p {
            assert(den * v <= d * w) by (nonlinear_arith)
                requires
                    v <= w * p,
                    d == den * p,
                    den > 0,
            ;
        } else {
            // Above 2^52 * 2^k doubles are 2^k apart.
            assert(v >= step * p) by (nonlinear_arith)
                requires
                    v > w * p,
                    w >= step,
                    p > 0,
            ;
            lemma_multiple(n, k);
            let c = v / p;
            assert(v == p * c);
            assert(c >= w + 1) by (nonlinear_arith)
                requires
                    p * c > w * p,
                    p > 0,
            ;
            assert(den * v >= d * (w + 1)) by (nonlinear_arith)
                requires
                    v == p * c,
                    c >= w + 1,
                    d == den * p,
                    den > 0,
                    p > 0,
            ;
        }
    }
}

/// From 2^52 * 2^k units on, doubles are multiples of 2^k.
proof fn lemma_multiple(m: int, k: nat)
    requires
        0 <= m,
        super::units(m) >= EXPONENT_STEP * pow2(k),
    ensures
        super::units(m) == pow2(k) * (super::units(m) / pow2(k) as int),
{
    let step = EXPONENT_STEP as int;
    let (e, f) = (m / step, m % step);
    lemma_fundamental_div_mod(m, step);
    let p = pow2(k) as int;
    lemma_pow2_pos(k);
    assert(step * p >= step) by (nonlinear_arith)
        requires
            step > 0,
            p >= 1,
    ;
    assert(e > 0);
    let j = (e - 1) as nat;
    let u = super::units(m);
    lemma_pow2_pos(j);
    if j < k {
        lemma_pow2_adds(1, j);
        lemma2_to64();
        if j + 1 < k {
            lemma_pow2_strictly_increases(j + 1, k);
        }
        assert((step + f) * pow2(j) < step * p) by (nonlinear_arith)
            requires
                step + f < 2 * step,
                2 * pow2(j) <= p,
                pow2(j) > 0,
                step > 0,
        ;
    }
    let i = (j - k) as nat;
    lemma_pow2_adds(k, i);
    let c = (step + f) * pow2(i);
    assert(u == p * c) by (nonlinear_arith)
        requires
            u == (step + f) * (p * pow2(i)),
            c == (step + f) * pow2(i),
    ;
    lemma_fundamental_div_mod_converse(u, p, c, 0);
}

/// The next magnitude is at most 2^-53 of the number away, and no less.
proof fn lemma_next(m: int)
    requires
        0 <= m,
    ensures
        (super::units(m + 1) - super::units(m)) * pow2(53) > super::units(m),
{
    let step = EXPONENT_STEP as int;
    let (e, f) = (m / step, m % step);
    lemma_fundamental_div_mod(m, step);
    lemma2_to64();
    lemma2_to64_rest();
    let k: nat = if e > 0 { (e - 1) as nat } else { 0 };
    let p = pow2(k) as int;
    lemma_pow2_pos(k);
    let s = if e > 0 { step + f } else { f };
    lemma_mul_basics(f);
    assert(super::units(m) == s * p);
    if f + 1 < step {
        lemma_fundamental_div_mod_converse(m + 1, step, e, f + 1);
        lemma_mul_basics(f + 1);
        assert(super::units(m + 1) == (s + 1) * p);
    } else {
        assert(step * (e + 1) == step * e + step) by (nonlinear_arith);
        lemma_fundamental_div_mod_converse(m + 1, step, e + 1, 0);
        if e > 0 {
            lemma_pow2_unfold(e as nat);
            assert(step * pow2(e as nat) == (s + 1) * p) by (nonlinear_arith)
                requires
                    pow2(e as nat) == 2 * p,
                    s + 1 == 2 * step,
            ;
        } else {
            lemma_mul_basics(step);
        }
        assert(super::units(m + 1) == (s + 1) * p);
    }
    assert((s + 1) * p - s * p == p) by (nonlinear_arith);
    assert(p * pow2(53) > s * p) by (nonlinear_arith)
        requires
            s < pow2(53),
            p > 0,
    ;
}

/// Two doubles that differ do so by at least 2^-54 of either.
pub proof fn law_doubles_lie_apart(a: Double, b: Double)
    requires
        a.finite(),
        b.finite(),
        a.amount() != b.amount(),
    ensures
        distance(a.amount(), b.amount()) * pow2(54) >= distance(b.amount(), 0),
{
    let (m, n) = (a.magnitude(), b.magnitude());
    let (u, v) = (super::units(m), super::units(n));
    super::lemma_units_order(m, n);
    super::lemma_units_order(n, m);
    super::lemma_units_order(n, 0);
    super::lemma_units_order(m, 0);
    lemma_pow2_unfold(54);
    lemma_pow2_pos(53);
    let p = pow2(53) as int;
    if a.negative() == b.negative() {
        if m > n {
            lemma_next(n);
            super::lemma_units_order(n + 1, m);
            super::lemma_units_order(m, n + 1);
            let g = super::units(n + 1) - v;
            assert((u - v) * (2 * p) >= v) by (nonlinear_arith)
                requires
                    u - v >= g,
                    g * p > v,
                    v >= 0,
                    p > 0,
            ;
        } else {
            lemma_next(n - 1);
            super::lemma_units_order(n - 1, m);
            super::lemma_units_order(m, n - 1);
            super::lemma_units_order(n - 1, n);
            let w = super::units(n - 1);
            let g = v - w;
            assert((v - u) * (2 * p) >= v) by (nonlinear_arith)
                requires
                    v - u >= g,
                    g * p > w,
                    v == w + g,
                    w >= 0,
                    g >= 1,
                    p >= 1,
            ;
        }
    } else {
        assert((u + v) * (2 * p) >= v) by (nonlinear_arith)
            requires
                u >= 0,
                v >= 0,
                p >= 1,
        ;
    }
}

/// By how much one number exceeds a positive one, in ten thousands of the latter: above
/// zero exactly where it is larger, below zero exactly where it is smaller, and where it
/// is finite off by at most 7 * 2^-53 of the exact value and 20000 of the smallest doubles.
pub proof fn law_relative_difference(x: Double, y: Double)
    requires
        x.finite(),
        y.finite(),
        y.positive(),
    ensures
        ({
            let r = x.difference(y).quotient(y).product(Double::whole_number(10000));
            let gap = (x.amount() - y.amount()) * super::one();
            &&& !r.nan()
            &&& r.amount() > 0 <==> x.amount() > y.amount()
            &&& r.amount() < 0 <==> x.amount() < y.amount()
            &&& r.finite() && x.difference(y).finite() ==> distance(
                r.amount() * y.amount(),
                10000 * gap,
            ) * pow2(53) <= 70000 * distance(gap, 0) + 20000 * (pow2(53) * y.amount())
        }),
{
    let n = x.difference(y);
    let q = n.quotient(y);
    let k = Double::whole_number(10000);
    let r = q.product(k);
    let one = super::one();
    let d = x.amount() - y.amount();
    law_difference_is_near(x, y);
    arithmetic::lemma_whole_exact(10000);
    lemma_pow2_pos(1074);
    lemma_pow2_pos(53);
    super::lemma_units_order(k.magnitude(), 0);
    super::lemma_units_order(y.magnitude(), 0);
    super::lemma_units_order(n.magnitude(), 0);
    super::lemma_units_order(q.magnitude(), 0);
    super::lemma_units_order(INFINITY as int, 0);
    assert(super::units(0) == 0);
    if n.finite() {
        law_basis_points_are_near(n, y);
        law_quotient_is_near(n, y);
        if d != 0 {
            law_doubles_lie_apart(x, y);
            lemma_ratio_is_not_zero(n, y, d);
            if q.finite() {
                law_product_is_rounded_once(q, k);
                let e = q.amount() * 10000;
                assert(q.amount() * k.amount() == e * one) by (nonlinear_arith)
                    requires
                        k.amount() == 10000 * one,
                        e == q.amount() * 10000,
                ;
                lemma_scaled_sign(e, one);
            }
        } else {
            lemma_mul_basics(one);
        }
        if r.finite() {
            lemma2_to64_rest();
            lemma_gap_error(r.amount(), n.amount(), d, y.amount(), one, pow2(53) as int);
        }
    }
}

/// Rounding a multiple of the denominator keeps its sign.
proof fn lemma_scaled_sign(e: int, c: int)
    requires
        0 < c,
    ensures
        Double::nearest(e * c, c).amount() > 0 <==> e > 0,
        Double::nearest(e * c, c).amount() < 0 <==> e < 0,
{
    let size = distance(e, 0);
    law_rounding_keeps_the_sign(e);
    lemma_mul_basics(c);
    arithmetic::lemma_nearest_scaled(size, 1, c);
    assert(distance(e * c, 0) == size * c) by (nonlinear_arith)
        requires
            c > 0,
            size == distance(e, 0),
    ;
    assert(e * c < 0 <==> e < 0) by (nonlinear_arith)
        requires
            c > 0,
    ;
}

/// What is not far smaller than the divisor does not vanish in the quotient.
proof fn lemma_ratio_is_not_zero(n: Double, y: Double, d: int)
    requires
        n.finite(),
        y.finite(),
        y.positive(),
        distance(n.amount(), d) * pow2(53) <= distance(d, 0),
        distance(d, 0) * pow2(54) >= y.amount(),
        d != 0,
    ensures
        n.quotient(y).amount() != 0,
{
    let one = super::one();
    let (x, v) = (super::units(n.magnitude()), y.amount());
    super::lemma_units_order(n.magnitude(), 0);
    super::lemma_units_order(y.magnitude(), 0);
    lemma2_to64();
    lemma2_to64_rest();
    lemma_pow2_pos(54);
    lemma_pow2_pos(1019);
    lemma_pow2_unfold(55);
    lemma_pow2_unfold(54);
    let p = pow2(53) as int;
    assert(x == distance(n.amount(), 0));
    assert(2 * x >= distance(d, 0)) by {
        let l = distance(n.amount(), d);
        assert(2 * l <= distance(d, 0)) by (nonlinear_arith)
            requires
                l * p <= distance(d, 0),
                p >= 2,
                l >= 0,
        ;
    }
    assert(x * pow2(55) >= v) by (nonlinear_arith)
        requires
            2 * x >= distance(d, 0),
            distance(d, 0) * pow2(54) >= v,
            pow2(55) == 2 * pow2(54),
            pow2(54) > 0,
    ;
    lemma_pow2_adds(55, 1019);
    let t = pow2(1019) as int;
    assert(t * v <= x * one) by (nonlinear_arith)
        requires
            x * pow2(55) >= v,
            one == pow2(55) * t,
            t > 0,
    ;
    lemma_mul_strictly_positive(t, v);
    rounding::lemma_nearest_monotone(t * v, x * one, v);
    lemma_mul_basics(v);
    arithmetic::lemma_nearest_scaled(t, 1, v);
    arithmetic::lemma_nearest_positive(t);
    arithmetic::lemma_nearest_range(x * one, v);
    super::lemma_units_order(rounding::nearest_magnitude(x * one, v), 0);
}

/// The error of a part that is itself a difference.
pub proof fn lemma_gap_error(r: int, n: int, d: int, y: int, one: int, p: int)
    requires
        y > 0,
        one > 0,
        p >= 2,
        distance(n, d) * p <= distance(d, 0),
        distance(r * y, 10000 * (n * one)) * p <= 30000 * distance(n * one, 0) + 20000 * (p * y),
    ensures
        distance(r * y, 10000 * (d * one)) * p <= 70000 * distance(d * one, 0) + 20000 * (p * y),
{
    let l = distance(n, d);
    let a = distance(d * one, 0);
    let off = distance(r * y, 10000 * (n * one));
    assert(a == distance(d, 0) * one) by (nonlinear_arith)
        requires
            one > 0,
            a == distance(d * one, 0),
    ;
    assert(distance(n * one, d * one) == l * one) by (nonlinear_arith)
        requires
            one > 0,
            l == distance(n, d),
    ;
    assert((l * one) * p <= a) by (nonlinear_arith)
        requires
            l * p <= distance(d, 0),
            a == distance(d, 0) * one,
            one > 0,
    ;
    assert(l * one <= (l * one) * p) by (nonlinear_arith)
        requires
            l >= 0,
            one > 0,
            p >= 1,
    ;
    assert(distance(n * one, 0) <= 2 * a);
    let all = distance(r * y, 10000 * (d * one));
    assert(all <= off + 10000 * (l * one));
    assert(all * p <= off * p + 10000 * ((l * one) * p)) by (nonlinear_arith)
        requires
            all <= off + 10000 * (l * one),
            p > 0,
    ;
}

/// Twice what a magnitude stands for is what another one stands for.
proof fn lemma_doubled(m: int) -> (d: int)
    requires
        0 <= m < INFINITY,
    ensures
        0 <= d,
        super::units(d) == 2 * super::units(m),
{
    let step = EXPONENT_STEP as int;
    let (e, f) = (m / step, m % step);
    lemma_fundamental_div_mod(m, step);
    lemma2_to64();
    if e > 0 {
        let d = m + step;
        assert(step * (e + 1) == step * e + step) by (nonlinear_arith);
        lemma_fundamental_div_mod_converse(d, step, e + 1, f);
        lemma_pow2_unfold(e as nat);
        let p = pow2((e - 1) as nat) as int;
        assert((step + f) * (2 * p) == 2 * ((step + f) * p)) by (nonlinear_arith);
        d
    } else {
        let d = 2 * m;
        if d < step {
            lemma_fundamental_div_mod_converse(d, step, 0, d);
        } else {
            lemma_fundamental_div_mod_converse(d, step, 1, d - step);
            lemma_mul_basics(d);
        }
        d
    }
}

/// Half of the sum of two numbers that are not negative, where the sum is finite: it lies
/// between them, and is off by at most 3 * 2^-53 of the exact sum and one of the smallest
/// doubles, counted twice.
pub proof fn law_half_sum_lies_between(low: Double, high: Double)
    requires
        low.finite(),
        high.finite(),
        low.non_negative(),
        low.at_most(high),
        low.sum(high).finite(),
    ensures
        ({
            let half = low.sum(high).quotient(Double::whole_number(2));
            let exact = low.amount() + high.amount();
            &&& half.finite()
            &&& low.at_most(half)
            &&& half.at_most(high)
            &&& distance(2 * half.amount(), exact) * pow2(53) <= 3 * exact + pow2(53)
        }),
{
    let one = super::one();
    let two = Double::whole_number(2);
    let s = low.sum(high);
    let half = s.quotient(two);
    let (l, h, t) = (low.amount(), high.amount(), s.amount());
    arithmetic::lemma_whole_exact(2);
    lemma_pow2_pos(1074);
    super::lemma_units_order(low.magnitude(), 0);
    super::lemma_units_order(high.magnitude(), 0);
    super::lemma_units_order(s.magnitude(), 0);
    super::lemma_units_order(half.magnitude(), 0);
    super::lemma_units_order(two.magnitude(), 0);
    assert(super::units(0) == 0);
    law_sum_is_near(low, high);
    law_quotient_is_rounded_once(s, two);
    law_quotient_is_near(s, two);
    lemma_mul_basics(2);
    assert(2 * one == one * 2);
    arithmetic::lemma_nearest_scaled(t, 2, one);
    assert(half.amount() == Double::nearest(t, 2).amount());
    // The sum lies between twice the one and twice the other.
    let dl = lemma_doubled(low.magnitude());
    let dh = lemma_doubled(high.magnitude());
    arithmetic::lemma_nearest_zero(1);
    assert(t == Double::nearest(l + h, 1).amount());
    assert(Double::nearest(l + h, 1).finite());
    if dl < INFINITY {
        arithmetic::lemma_units_exact(dl);
        arithmetic::lemma_nearest_order(2 * l, l + h, 1);
    } else {
        arithmetic::lemma_infinite_from(2 * l, dl);
        rounding::lemma_nearest_monotone(2 * l, l + h, 1);
        arithmetic::lemma_nearest_range(l + h, 1);
    }
    assert(2 * l <= t);
    if dh < INFINITY {
        arithmetic::lemma_units_exact(dh);
        arithmetic::lemma_nearest_order(l + h, 2 * h, 1);
    } else {
        super::lemma_units_order(s.magnitude(), dh);
    }
    assert(t <= 2 * h);
    arithmetic::lemma_nearest_order(2 * l, t, 2);
    arithmetic::lemma_nearest_order(t, 2 * h, 2);
    lemma_mul_basics(l);
    lemma_mul_basics(h);
    arithmetic::lemma_nearest_scaled(l, 1, 2);
    arithmetic::lemma_nearest_scaled(h, 1, 2);
    arithmetic::lemma_units_exact(low.magnitude());
    arithmetic::lemma_units_exact(high.magnitude());
    assert(l * 2 == 2 * l && h * 2 == 2 * h);
    assert(half.finite()) by {
        super::lemma_units_order(half.magnitude(), high.magnitude());
        super::lemma_units_order(high.magnitude(), half.magnitude());
    }
    let p = pow2(53) as int;
    lemma_pow2_pos(53);
    let e = distance(2 * half.amount(), t);
    assert(distance(half.amount() * (2 * one), t * one) == e * one) by (nonlinear_arith)
        requires
            one > 0,
            e == distance(2 * half.amount(), t),
    ;
    assert(distance(t * one, 0) == t * one) by (nonlinear_arith)
        requires
            t >= 0,
            one > 0,
    ;
    assert(e * p <= t + p) by (nonlinear_arith)
        requires
            (e * one) * p <= t * one || 2 * (e * one) <= 2 * one,
            one > 0,
            p > 0,
            t >= 0,
            e >= 0,
    ;
    let f = distance(t, l + h);
    assert(f <= f * p) by (nonlinear_arith)
        requires
            f >= 0,
            p >= 1,
    ;
    assert(distance(2 * half.amount(), l + h) * p <= e * p + f * p) by (nonlinear_arith)
        requires
            distance(2 * half.amount(), l + h) <= e + f,
            p > 0,
    ;
}

/// A finite number is rounded to itself.
pub proof fn lemma_rounds_to_itself(d: Double)
    requires
        d.finite(),
    ensures
        Double::nearest(d.amount(), 1).amount() == d.amount(),
{
    super::lemma_units_order(d.magnitude(), 0);
    arithmetic::lemma_units_exact(d.magnitude());
    arithmetic::lemma_nearest_zero(1);
    assert(super::units(0) == 0);
}

/// A sum of finite numbers is the exact sum, rounded once.
pub proof fn lemma_sum_rounds_once(a: Double, b: Double)
    requires
        a.finite(),
        b.finite(),
    ensures
        a.sum(b).amount() == Double::nearest(a.amount() + b.amount(), 1).amount(),
        a.sum(b).finite() == Double::nearest(a.amount() + b.amount(), 1).finite(),
{
    arithmetic::lemma_nearest_zero(1);
    assert(super::units(0) == 0);
}

/// Taking away from a number what is not negative and not larger leaves a finite number.
pub proof fn lemma_smaller_is_finite(a: Double, b: Double)
    requires
        a.finite(),
        b.finite(),
        b.non_negative(),
        b.at_most(a),
    ensures
        a.difference(b).finite(),
{
    let part = a.amount() - b.amount();
    let o = b.opposite();
    assert(o.finite() && o.amount() == -b.amount());
    super::lemma_units_order(a.magnitude(), 0);
    arithmetic::lemma_units_exact(a.magnitude());
    rounding::lemma_nearest_monotone(part, a.amount(), 1);
    arithmetic::lemma_nearest_range(part, 1);
    lemma_sum_rounds_once(a, o);
}

/// The difference taken the other way round has the same size and the other sign.
pub proof fn lemma_two_sided(a: Double, b: Double)
    requires
        a.finite(),
        b.finite(),
    ensures
        b.difference(a).amount() == -a.difference(b).amount(),
        b.difference(a).magnitude() == a.difference(b).magnitude(),
        !a.difference(b).nan(),
        !b.difference(a).nan(),
{
    let t = a.amount() - b.amount();
    let (p, q) = (a.opposite(), b.opposite());
    assert(p.finite() && p.amount() == -a.amount());
    assert(q.finite() && q.amount() == -b.amount());
    arithmetic::lemma_nearest_range(distance(t, 0), 1);
    assert(super::units(0) == 0);
}

/// The number nearest to `1 / n` is positive and finite.
pub proof fn lemma_small_fraction(n: int)
    requires
        1 < n <= 0x1_0000_0000,
    ensures
        Double::fraction(1, n).positive(),
        Double::fraction(1, n).finite(),
        !Double::fraction(1, n).negative(),
        Double::fraction(1, n).amount() <= super::one(),
{
    let one = super::one();
    lemma_pow2_pos(1074);
    lemma_mul_basics(one);
    lemma2_to64();
    lemma_pow2_strictly_increases(32, 1074);
    arithmetic::lemma_nearest_range(one, n);
    // Not below the smallest double, and not above one.
    arithmetic::lemma_nearest_scaled(1, 1, n);
    arithmetic::lemma_nearest_positive(1);
    lemma_mul_basics(n);
    rounding::lemma_nearest_monotone(n, one, n);
    super::lemma_units_order(rounding::nearest_magnitude(one, n), 0);
    arithmetic::lemma_whole_exact(1);
    arithmetic::lemma_nearest_scaled(one, 1, n);
    lemma_mul_inequality(1, n, one);
    lemma_mul_is_commutative(n, one);
    arithmetic::lemma_nearest_order(one, one * n, n);
    let m = rounding::nearest_magnitude(one, n);
    let w = Double::whole_number(1).magnitude();
    arithmetic::lemma_nearest_range(one, 1);
    super::lemma_units_order(m, w);
    super::lemma_units_order(w, m);
    super::lemma_units_order(w, 0);
}

/// Taking away what is not negative leaves no more than there was.
pub proof fn lemma_taking_away(a: Double, b: Double)
    requires
        a.finite(),
        b.finite(),
        b.non_negative(),
    ensures
        a.difference(b).at_most(a),
{
    let o = b.opposite();
    assert(o.finite() && o.amount() == -b.amount());
    law_difference_is_near(a, b);
    lemma_sum_rounds_once(a, o);
    lemma_rounds_to_itself(a);
    arithmetic::lemma_nearest_order(a.amount() - b.amount(), a.amount(), 1);
}

/// A whole multiple of a number is off by at most 2^-53 of the exact one, and keeps its sign.
pub proof fn law_whole_multiple_is_near(d: Double, k: int)
    requires
        d.finite(),
        0 < k < 0x20_0000_0000_0000,
    ensures
        ({
            let r = d.product(Double::whole_number(k));
            &&& !r.nan()
            &&& r.amount() > 0 <==> d.amount() > 0
            &&& r.amount() < 0 <==> d.amount() < 0
            &&& r.finite() ==> distance(r.amount(), k * d.amount()) * pow2(53) <= k * distance(
                d.amount(),
                0,
            )
        }),
{
    let w = Double::whole_number(k);
    let r = d.product(w);
    let one = super::one();
    lemma_pow2_pos(1074);
    lemma_pow2_pos(53);
    arithmetic::lemma_whole_exact(k);
    law_product_is_rounded_once(d, w);
    law_product_is_near(d, w);
    let e = d.amount() * k;
    assert(d.amount() * (k * one) == e * one) by (nonlinear_arith)
        requires
            e == d.amount() * k,
    ;
    lemma_scaled_sign(e, one);
    assert(e > 0 <==> d.amount() > 0) by (nonlinear_arith)
        requires
            e == d.amount() * k,
            k > 0,
    ;
    assert(e < 0 <==> d.amount() < 0) by (nonlinear_arith)
        requires
            e == d.amount() * k,
            k > 0,
    ;
    if r.finite() {
        let p = pow2(53) as int;
        let x = distance(r.amount(), e);
        assert(distance(r.amount() * one, e * one) == x * one) by (nonlinear_arith)
            requires
                one > 0,
                x == distance(r.amount(), e),
        ;
        assert(distance(e * one, 0) == k * distance(d.amount(), 0) * one) by (nonlinear_arith)
            requires
                one > 0,
                k > 0,
                e == d.amount() * k,
        ;
        let bound = k * distance(d.amount(), 0);
        assert(bound >= 0) by (nonlinear_arith)
            requires
                k > 0,
                bound == k * distance(d.amount(), 0),
        ;
        assert(x * p <= bound) by (nonlinear_arith)
            requires
                (x * one) * p <= bound * one || 2 * (x * one) <= one,
                one > 0,
                p > 0,
                x >= 0,
                bound >= 0,
        ;
        lemma_mul_is_commutative(k, d.amount());
    }
}

/// A product with a number of at least one is no smaller, and with one of at most one no
/// larger, than the number that is not negative.
pub proof fn law_factors_around_one(a: Double, factor: Double)
    requires
        a.finite(),
        a.non_negative(),
        factor.finite(),
    ensures
        factor.amount() >= super::one() ==> a.at_most(a.product(factor)),
        factor.amount() <= super::one() ==> a.product(factor).at_most(a),
{
    let one = super::one();
    lemma_pow2_pos(1074);
    law_product_is_rounded_once(a, factor);
    let (x, f) = (a.amount(), factor.amount());
    super::lemma_units_order(a.magnitude(), 0);
    lemma_mul_basics(one);
    arithmetic::lemma_nearest_scaled(x, 1, one);
    lemma_mul_nonnegative(x, one);
    arithmetic::lemma_units_exact(a.magnitude());
    assert(Double::nearest(x * one, one).amount() == x);
    if f >= one {
        lemma_mul_inequality(one, f, x);
        lemma_mul_is_commutative(one, x);
        lemma_mul_is_commutative(f, x);
        arithmetic::lemma_nearest_order(x * one, x * f, one);
    }
    if f <= one {
        lemma_mul_inequality(f, one, x);
        lemma_mul_is_commutative(one, x);
        lemma_mul_is_commutative(f, x);
        arithmetic::lemma_nearest_order(x * f, x * one, one);
    }
}

/// One and what is at most one have a finite sum.
pub proof fn lemma_sum_of_ones_is_finite(d: Double)
    requires
        d.finite(),
        d.non_negative(),
        d.at_most(Double::whole_number(1)),
    ensures
        Double::whole_number(1).sum(d).finite(),
{
    let (unit, two) = (Double::whole_number(1), Double::whole_number(2));
    arithmetic::lemma_whole_exact(1);
    arithmetic::lemma_whole_exact(2);
    super::lemma_units_order(d.magnitude(), 0);
    super::lemma_units_order(unit.magnitude(), 0);
    super::lemma_units_order(two.magnitude(), 0);
    let t = unit.amount() + d.amount();
    lemma_sum_rounds_once(unit, d);
    arithmetic::lemma_units_exact(two.magnitude());
    rounding::lemma_nearest_monotone(t, two.amount(), 1);
    arithmetic::lemma_nearest_range(t, 1);
}

/// A whole number of units that a double stands for, or that is small, is a double.
proof fn lemma_whole_part(m: int, n: int)
    requires
        0 <= m < INFINITY,
        0 <= n <= EXPONENT_STEP || n * super::one() == super::units(m),
        super::units(m) < EXPONENT_STEP * super::one() ==> n <= EXPONENT_STEP,
        0 <= n,
    ensures
        Double::whole_number(n).finite(),
        Double::whole_number(n).amount() == n * super::one(),
        rounding::nearest_magnitude(n * super::one(), 1) < INFINITY,
        super::units(rounding::nearest_magnitude(n * super::one(), 1)) == n * super::one(),
{
    lemma_pow2_pos(1074);
    lemma_mul_nonnegative(n, super::one());
    arithmetic::lemma_nearest_range(n * super::one(), 1);
    if n == 0 {
        arithmetic::lemma_zero();
        arithmetic::lemma_nearest_zero(1);
        lemma_mul_basics(super::one());
        assert(super::units(0) == 0);
    } else if n <= EXPONENT_STEP {
        arithmetic::lemma_whole_exact(n);
    } else {
        arithmetic::lemma_units_exact(m);
    }
}

/// A number of 2^52 or more is whole.
proof fn lemma_large_is_whole(m: int)
    requires
        0 <= m < INFINITY,
    ensures
        super::units(m) >= EXPONENT_STEP * super::one() ==> super::units(m) == super::one() * (
        super::units(m) / super::one()),
{
    if super::units(m) >= EXPONENT_STEP * super::one() {
        lemma_multiple(m, 1074);
    }
}

/// The floor of a number that is not negative is whole, is not above the number, and is
/// less than one below it.
pub proof fn law_floor(d: Double)
    requires
        d.finite(),
        d.non_negative(),
    ensures
        ({
            let r = d.floored();
            &&& r.finite()
            &&& 0 <= r.amount() <= d.amount() < r.amount() + super::one()
            &&& r.amount() == (r.amount() / super::one()) * super::one()
        }),
{
    let one = super::one();
    let m = d.magnitude();
    let u = super::units(m);
    lemma_pow2_pos(1074);
    super::lemma_units_order(m, 0);
    assert(super::units(0) == 0);
    lemma_large_is_whole(m);
    let n = d.amount() / one;
    lemma_fundamental_div_mod(d.amount(), one);
    assert(d.amount() == u || (d.amount() == 0 && u == 0));
    assert(0 <= n) by (nonlinear_arith)
        requires
            one * n + d.amount() % one == d.amount(),
            d.amount() >= 0,
            d.amount() % one < one,
            one > 0,
    ;
    assert(u < EXPONENT_STEP * one ==> n <= EXPONENT_STEP) by (nonlinear_arith)
        requires
            one * n + d.amount() % one == d.amount(),
            d.amount() == u,
            0 <= d.amount() % one,
            one > 0,
    ;
    lemma_mul_is_commutative(n, one);
    lemma_whole_part(m, n);
    lemma_fundamental_div_mod_converse(n * one, one, n, 0);
    lemma_mul_basics(one);
    lemma_mul_nonnegative(n, one);
    let r = d.floored();
    assert(r.finite());
    assert(r.amount() == n * one);
}

/// A rounded number is whole, lies at most a half from the number, and on its side of
/// zero.
pub proof fn law_round(d: Double)
    requires
        d.finite(),
    ensures
        ({
            let r = d.rounded();
            &&& r.finite()
            &&& 2 * distance(r.amount(), d.amount()) <= super::one()
            &&& d.amount() >= 0 ==> r.amount() >= 0
            &&& d.amount() <= 0 ==> r.amount() <= 0
            &&& r.amount() == (r.amount() / super::one()) * super::one()
        }),
{
    let one = super::one();
    let m = d.magnitude();
    let u = super::units(m);
    lemma_pow2_pos(1074);
    super::lemma_units_order(m, 0);
    assert(super::units(0) == 0);
    lemma_large_is_whole(m);
    let n = (2 * u + one) / (2 * one);
    lemma_fundamental_div_mod(2 * u + one, 2 * one);
    let left = (2 * u + one) % (2 * one);
    assert(2 * (n * one) + left == 2 * u + one) by (nonlinear_arith)
        requires
            (2 * one) * n + left == 2 * u + one,
    ;
    assert(0 <= n) by (nonlinear_arith)
        requires
            (2 * one) * n + left == 2 * u + one,
            u >= 0,
            left < 2 * one,
            one > 0,
    ;
    if u < EXPONENT_STEP * one {
        assert(n <= EXPONENT_STEP) by (nonlinear_arith)
            requires
                2 * (n * one) + left == 2 * u + one,
                u < EXPONENT_STEP * one,
                0 <= left,
                one > 0,
        ;
    } else {
        let w = u / one;
        assert((2 * one) * w + one == 2 * u + one) by (nonlinear_arith)
            requires
                u == one * w,
        ;
        lemma_fundamental_div_mod_converse(2 * u + one, 2 * one, w, one);
        lemma_mul_is_commutative(n, one);
    }
    lemma_whole_part(m, n);
    lemma_fundamental_div_mod_converse(n * one, one, n, 0);
    lemma_mul_unary_negation(n, one);
    lemma_fundamental_div_mod_converse(-(n * one), one, -n, 0);
    lemma_mul_nonnegative(n, one);
    let r = d.rounded();
    let nm = rounding::nearest_magnitude(n * one, 1);
    arithmetic::lemma_nearest_range(n * one, 1);
    assert(r.magnitude() == nm);
    assert(r.negative() == d.negative());
    assert(r.amount() == if d.negative() { -(n * one) } else { n * one });
    assert(0 <= left < 2 * one) by {
        vstd::arithmetic::div_mod::lemma_mod_bound(2 * u + one, 2 * one);
    }
    if u == 0 {
        assert(n * one == 0) by (nonlinear_arith)
            requires
                2 * (n * one) + left == one,
                left >= 0,
                one > 0,
                n >= 0,
        ;
    }
    assert((-n) * one == -(n * one)) by (nonlinear_arith);
    assert(2 * distance(r.amount(), d.amount()) <= one);
}

/// A whole multiple of a number is the exact multiple, up to rounding.
pub proof fn law_multiple_is_near(n: Double, step: Double) -> (k: int)
    requires
        n.finite(),
        n.non_negative(),
        n.amount() == (n.amount() / super::one()) * super::one(),
        step.finite(),
        step.positive(),
        n.product(step).finite(),
    ensures
        0 <= k,
        n.amount() == k * super::one(),
        n.product(step).amount() >= 0,
        distance(n.product(step).amount(), k * step.amount()) * pow2(53) <= k * step.amount(),
{
    let one = super::one();
    let k = n.amount() / one;
    let (s, r) = (step.amount(), n.product(step).amount());
    lemma_pow2_pos(1074);
    lemma_pow2_pos(53);
    let p = pow2(53) as int;
    assert(k >= 0) by (nonlinear_arith)
        requires
            n.amount() == k * one,
            n.amount() >= 0,
            one > 0,
    ;
    law_product_is_near(n, step);
    let off = distance(r * one, (k * one) * s);
    let gap = distance(r, k * s);
    lemma_mul_nonnegative(k, s);
    lemma_mul_nonnegative(n.amount(), s);
    assert(off == gap * one) by (nonlinear_arith)
        requires
            off == distance(r * one, (k * one) * s),
            gap == distance(r, k * s),
            one > 0,
    ;
    if off * p <= distance((k * one) * s, 0) {
        assert(gap * p <= k * s) by (nonlinear_arith)
            requires
                (gap * one) * p <= (k * one) * s,
                one > 0,
        ;
    } else {
        assert(gap == 0) by (nonlinear_arith)
            requires
                2 * (gap * one) <= one,
                gap >= 0,
                one > 0,
        ;
        lemma_mul_basics(p);
    }
    k
}

/// Counting in steps and rounding down gives a multiple of the step that is not above
/// the number, and less than a step below it, up to rounding.
pub proof fn law_steps_down(value: Double, step: Double) -> (k: int)
    requires
        value.finite(),
        value.non_negative(),
        step.finite(),
        step.positive(),
        value.quotient(step).finite(),
        value.quotient(step).floored().product(step).finite(),
    ensures
        0 <= k,
        ({
            let r = value.quotient(step).floored().product(step);
            let (v, s) = (value.amount() * super::one(), step.amount() * super::one());
            &&& r.amount() >= 0
            &&& distance(r.amount(), k * step.amount()) * pow2(53) <= k * step.amount()
            &&& (k * s) * pow2(53) <= v * pow2(53) + v + step.amount() * pow2(53)
            &&& v * pow2(53) <= ((k + 1) * s) * pow2(53) + v + step.amount() * pow2(53)
        }),
{
    let one = super::one();
    let q = value.quotient(step);
    lemma_pow2_pos(1074);
    lemma_pow2_pos(53);
    law_quotient_is_near(value, step);
    law_floor(q);
    let k = law_multiple_is_near(q.floored(), step);
    let p = pow2(53) as int;
    let (a, s) = (value.amount(), step.amount());
    lemma_steps(q.amount(), a * one, s, p, one);
    lemma_mul_nonnegative(a, one);
    lemma_count(q.amount(), k, s, p, one);
    k
}

/// How far a quotient can lie from the exact one.
proof fn lemma_steps(q: int, v: int, s: int, p: int, one: int)
    requires
        p > 0,
        s > 0,
        v >= 0,
        distance(q * s, v) * p <= distance(v, 0) || 2 * distance(q * s, v) <= s,
    ensures
        (q * s) * p <= v * p + v + s * p,
        v * p <= (q * s) * p + v + s * p,
{
    let off = distance(q * s, v);
    assert(off * p <= v + s * p) by (nonlinear_arith)
        requires
            off * p <= v || 2 * off <= s,
            off >= 0,
            p > 0,
            s > 0,
            v >= 0,
    ;
    assert((q * s) * p <= v * p + off * p && v * p <= (q * s) * p + off * p) by (nonlinear_arith)
        requires
            q * s <= v + off,
            v <= q * s + off,
            p > 0,
    ;
}

/// Between two whole numbers, times a step.
proof fn lemma_count(q: int, k: int, s: int, p: int, one: int)
    requires
        k * one <= q < k * one + one,
        s > 0,
        p > 0,
    ensures
        (k * (s * one)) * p <= (q * s) * p,
        (q * s) * p <= ((k + 1) * (s * one)) * p,
{
    assert(k * (s * one) <= q * s && q * s <= (k + 1) * (s * one)) by (nonlinear_arith)
        requires
            k * one <= q < k * one + one,
            s > 0,
    ;
    lemma_mul_inequality(k * (s * one), q * s, p);
    lemma_mul_inequality(q * s, (k + 1) * (s * one), p);
}

/// Counting in steps and rounding gives a multiple of the step that is at most half a
/// step away, up to rounding.
pub proof fn law_nearest_steps(value: Double, step: Double) -> (k: int)
    requires
        value.finite(),
        value.non_negative(),
        step.finite(),
        step.positive(),
        value.quotient(step).finite(),
        value.quotient(step).rounded().product(step).finite(),
    ensures
        0 <= k,
        ({
            let r = value.quotient(step).rounded().product(step);
            let (v, s) = (value.amount() * super::one(), step.amount() * super::one());
            &&& r.amount() >= 0
            &&& distance(r.amount(), k * step.amount()) * pow2(53) <= k * step.amount()
            &&& 2 * (distance(k * s, v) * pow2(53)) <= s * pow2(53) + 2 * (v + step.amount()
                * pow2(53))
        }),
{
    let one = super::one();
    let q = value.quotient(step);
    lemma_pow2_pos(1074);
    lemma_pow2_pos(53);
    law_quotient_is_near(value, step);
    law_round(q);
    let k = law_multiple_is_near(q.rounded(), step);
    let p = pow2(53) as int;
    let (a, s) = (value.amount(), step.amount());
    lemma_mul_nonnegative(a, one);
    lemma_steps(q.amount(), a * one, s, p, one);
    lemma_half_step(q.amount(), k, s, a * one, p, one);
    k
}

/// At most a half away from a whole number, times a step.
proof fn lemma_half_step(q: int, k: int, s: int, v: int, p: int, one: int)
    requires
        2 * distance(k * one, q) <= one,
        s > 0,
        p > 0,
        (q * s) * p <= v * p + v + s * p,
        v * p <= (q * s) * p + v + s * p,
    ensures
        2 * (distance(k * (s * one), v) * p) <= (s * one) * p + 2 * (v + s * p),
{
    let off = distance(k * (s * one), v);
    assert(2 * ((k * (s * one)) * p) <= 2 * ((q * s) * p) + (s * one) * p && 2 * ((q * s) * p)
        <= 2 * ((k * (s * one)) * p) + (s * one) * p) by {
        assert(2 * (k * (s * one)) <= 2 * (q * s) + s * one && 2 * (q * s) <= 2 * (k * (s * one))
            + s * one) by (nonlinear_arith)
            requires
                2 * (k * one) <= 2 * q + one,
                2 * q <= 2 * (k * one) + one,
                s > 0,
        ;
        assert(2 * ((k * (s * one)) * p) <= 2 * ((q * s) * p) + (s * one) * p && 2 * ((q * s) * p)
            <= 2 * ((k * (s * one)) * p) + (s * one) * p) by (nonlinear_arith)
            requires
                2 * (k * (s * one)) <= 2 * (q * s) + s * one,
                2 * (q * s) <= 2 * (k * (s * one)) + s * one,
                p > 0,
        ;
    }
    assert(off * p == distance((k * (s * one)) * p, v * p)) by (nonlinear_arith)
        requires
            off == distance(k * (s * one), v),
            p > 0,
    ;
}

} // verus!
