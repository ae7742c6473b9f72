//! Rounding to the nearest double, ties to even.
use super::{EXPONENT_STEP, INFINITY};
use vstd::arithmetic::div_mod::*;
use vstd::arithmetic::mul::*;
use vstd::arithmetic::power2::*;
use vstd::prelude::*;

verus! {

/// The number of low bits that a 53-bit significand cannot keep of `num / den`.
pub open spec fn excess(num: int, den: int) -> nat
    decreases num - den,
{
    if den <= 0 || num < den * pow2(53) {
        0
    } else {
        proof {
            lemma_pow2_unfold(53);
            lemma_pow2_pos(52);
            lemma_mul_inequality(2, pow2(53) as int, den);
            lemma_mul_is_commutative(den, pow2(53) as int);
        }
        1 + excess(num, 2 * den)
    }
}

/// `num / den` rounded to the nearest integer, ties to even.
pub open spec fn nearest_even(num: int, den: int) -> int {
    let (q, r) = (num / den, num % den);
    if 2 * r > den || (2 * r == den && q % 2 == 1) {
        q + 1
    } else {
        q
    }
}

/// The magnitude (a bit pattern without sign) of the double nearest to
/// `num / den`, counted in units of 2^-1074, for `0 <= num` and `0 < den`.
///
/// The significand is `num / den` without the bits that do not fit, rounded;
/// each bit dropped raises the exponent by one. What rounds past the largest
/// finite number is infinite.
pub open spec fn nearest_magnitude(num: int, den: int) -> int {
    let k = excess(num, den);
    let m = k * EXPONENT_STEP + nearest_even(num, den * pow2(k));
    if m < INFINITY {
        m
    } else {
        INFINITY as int
    }
}

/// The excess is the `j` that brings `num / den` below 2^53 and no lower.
pub proof fn lemma_excess_is(num: int, den: int, j: nat)
    requires
        0 < den,
        num < den * pow2(53 + j),
        j > 0 ==> den * pow2((52 + j) as nat) <= num,
    ensures
        excess(num, den) == j,
    decreases j,
{
    if j > 0 {
        assert(den * pow2(53) <= num) by {
            if j > 1 {
                lemma_pow2_strictly_increases(53, (52 + j) as nat);
                lemma_mul_inequality(pow2(53) as int, pow2((52 + j) as nat) as int, den);
                lemma_mul_is_commutative(pow2(53) as int, den);
                lemma_mul_is_commutative(pow2((52 + j) as nat) as int, den);
            }
        }
        let i = (j - 1) as nat;
        lemma_pow2_unfold((53 + j) as nat);
        lemma_pow2_unfold((52 + j) as nat);
        lemma_mul_is_associative(den, 2, pow2((52 + j) as nat) as int);
        lemma_mul_is_associative(den, 2, pow2((51 + j) as nat) as int);
        lemma_mul_is_commutative(den, 2);
        lemma_excess_is(num, 2 * den, i);
    }
}

/// Two to the power `n`.
pub(super) fn power(n: u32) -> (p: u128)
    requires
        n < 128,
    ensures
        p == pow2(n as nat),
{
    let mut p: u128 = 1;
    let mut i: u32 = 0;
    proof {
        lemma2_to64();
    }
    while i < n
        invariant
            i <= n < 128,
            p == pow2(i as nat),
        decreases n - i,
    {
        proof {
            lemma_pow2_unfold((i + 1) as nat);
            lemma_pow2_bound((i + 1) as nat);
        }
        p = p * 2;
        i = i + 1;
    }
    p
}

/// 2^n fits in 128 bits below 128.
proof fn lemma_pow2_bound(n: nat)
    requires
        n < 128,
    ensures
        pow2(n) <= 0x8000_0000_0000_0000_0000_0000_0000_0000,
{
    lemma2_to64();
    lemma_pow2_adds(64, 63);
    assert(pow2(63) == 0x8000_0000_0000_0000) by {
        lemma2_to64_rest();
    }
    assert(pow2(64) == 0x1_0000_0000_0000_0000) by {
        lemma2_to64_rest();
    }
    if n < 127 {
        lemma_pow2_strictly_increases(n, 127);
    }
}

/// The number of bits of `m`.
fn bit_length(m: u128) -> (n: u32)
    requires
        0 < m < 0x8000_0000_0000_0000_0000_0000_0000_0000,
    ensures
        1 <= n <= 127,
        pow2((n - 1) as nat) <= m < pow2(n as nat),
{
    let mut n: u32 = 1;
    let mut p: u128 = 2;
    proof {
        lemma2_to64();
    }
    while p <= m
        invariant
            1 <= n <= 127,
            p == pow2(n as nat),
            pow2((n - 1) as nat) <= m,
            m < 0x8000_0000_0000_0000_0000_0000_0000_0000,
        decreases 127 - n,
    {
        proof {
            if n == 127 {
                lemma_pow2_adds(64, 63);
                lemma2_to64();
                lemma2_to64_rest();
            }
            lemma_pow2_unfold((n + 1) as nat);
        }
        p = p * 2;
        n = n + 1;
    }
    n
}

/// `num / den` is `m * 2^k`, plus less than one unit of `m` when `sticky`.
pub open spec fn holds(num: int, den: int, m: int, k: int, sticky: bool) -> bool {
    let a = if k < 0 { (-k) as nat } else { 0 };
    let b = if k > 0 { k as nat } else { 0 };
    let rest = num * pow2(a) - den * pow2(b) * m;
    &&& 0 <= rest < den * pow2(b)
    &&& sticky == (rest > 0)
}

/// The two exponents of `holds`, without their sign.
spec fn split(k: int) -> (nat, nat) {
    (if k < 0 { (-k) as nat } else { 0 }, if k > 0 { k as nat } else { 0 })
}

/// Dropping `s` bits of `m` divides `num` by `den * 2^j`, and what was dropped
/// compares with one half as the remainder of that division does.
proof fn lemma_cut(num: int, den: int, m: int, k: int, sticky: bool, j: nat, s: nat, q: int, r: int)
    requires
        0 < den,
        holds(num, den, m, k, sticky),
        0 < s == j - k,
        0 <= q,
        m == q * pow2(s) + r,
        0 <= r < pow2(s),
    ensures
        ({
            let d = den * pow2(j);
            &&& num / d == q
            &&& (2 * (num % d) > d) == (2 * r > pow2(s) || (2 * r == pow2(s) && sticky))
            &&& (2 * (num % d) == d) == (2 * r == pow2(s) && !sticky)
        }),
{
    let (a, b) = split(k);
    let (pa, pb, ps, pj) = (pow2(a) as int, pow2(b) as int, pow2(s) as int, pow2(j) as int);
    lemma_pow2_pos(a);
    lemma_pow2_pos(b);
    lemma_pow2_pos(j);
    lemma_pow2_pos(s);
    lemma_pow2_adds(b, s);
    lemma_pow2_adds(j, a);
    assert(pb * ps == pj * pa);
    lemma_pow2_unfold(s);
    let half = pow2((s - 1) as nat) as int;
    let d = den * pj;
    let e = den * pb;
    let rest = num * pa - e * m;
    assert(e > 0 && d > 0) by (nonlinear_arith)
        requires
            den > 0,
            pb > 0,
            pj > 0,
            e == den * pb,
            d == den * pj,
    ;
    assert(e * ps == d * pa) by (nonlinear_arith)
        requires
            pb * ps == pj * pa,
            e == den * pb,
            d == den * pj,
    ;
    let rem = num - q * d;
    assert(rem * pa == e * r + rest) by (nonlinear_arith)
        requires
            rem == num - q * d,
            rest == num * pa - e * m,
            m == q * ps + r,
            e * ps == d * pa,
    ;
    assert(0 <= e * r && e * r + e <= e * ps) by (nonlinear_arith)
        requires
            0 < e,
            0 <= r < ps,
    ;
    assert(0 <= rem) by (nonlinear_arith)
        requires
            rem * pa >= 0,
            pa > 0,
    ;
    assert(rem < d) by (nonlinear_arith)
        requires
            rem * pa < d * pa,
            pa > 0,
    ;
    lemma_fundamental_div_mod_converse(num, d, q, rem);
    assert(2 * (e * r) == e * (2 * r) && e * ps == 2 * (e * half)) by (nonlinear_arith)
        requires
            ps == 2 * half,
    ;
    if r > half {
        assert(e * r >= e * half + e) by (nonlinear_arith)
            requires
                r >= half + 1,
                e > 0,
        ;
    } else if r < half {
        assert(e * r + e <= e * half) by (nonlinear_arith)
            requires
                r + 1 <= half,
                e > 0,
        ;
    }
    assert((2 * rem > d) == (2 * (rem * pa) > d * pa) && (2 * rem == d) == (2 * (rem * pa) == d
        * pa)) by {
        lemma_mul_is_associative(2, rem, pa);
        if 2 * rem > d {
            lemma_mul_strict_inequality(d, 2 * rem, pa);
        } else if 2 * rem < d {
            lemma_mul_strict_inequality(2 * rem, d, pa);
        }
    }
}

/// A number of `n` significant bits, scaled by 2^k, has the excess `n + k - 53`.
proof fn lemma_excess_of_bits(num: int, den: int, m: int, k: int, sticky: bool, n: nat, j: nat)
    requires
        0 < den,
        holds(num, den, m, k, sticky),
        1 <= n,
        pow2((n - 1) as nat) <= m < pow2(n),
        j == if n + k > 53 { n + k - 53 } else { 0 },
    ensures
        excess(num, den) == j,
{
    let (a, b) = split(k);
    let (pa, pb) = (pow2(a) as int, pow2(b) as int);
    lemma_pow2_pos(a);
    lemma_pow2_pos(b);
    let e = den * pb;
    let (high, low) = (pow2(n) as int, pow2((n - 1) as nat) as int);
    assert(e > 0) by (nonlinear_arith)
        requires
            den > 0,
            pb > 0,
            e == den * pb,
    ;
    assert(e * low <= e * m && e * m + e <= e * high) by (nonlinear_arith)
        requires
            low <= m,
            m + 1 <= high,
            e > 0,
    ;
    // Below 2^(53 + j).
    lemma_pow2_adds(b, n);
    lemma_pow2_adds((53 + j) as nat, a);
    let top = pow2((53 + j) as nat) as int;
    assert(b + n <= 53 + j + a);
    if b + n < 53 + j + a {
        lemma_pow2_strictly_increases((b + n) as nat, (53 + j + a) as nat);
    }
    assert(e * high <= (den * top) * pa) by (nonlinear_arith)
        requires
            pb * high <= top * pa,
            e == den * pb,
            den > 0,
    ;
    assert(num < den * top) by (nonlinear_arith)
        requires
            num * pa < (den * top) * pa,
            pa > 0,
    ;
    if j > 0 {
        lemma_pow2_adds(b, (n - 1) as nat);
        lemma_pow2_adds((52 + j) as nat, a);
        assert(b + n - 1 == 52 + j + a);
        let bottom = pow2((52 + j) as nat) as int;
        assert(e * low == (den * bottom) * pa) by (nonlinear_arith)
            requires
                pb * low == bottom * pa,
                e == den * pb,
        ;
        assert(den * bottom <= num) by (nonlinear_arith)
            requires
                (den * bottom) * pa <= num * pa,
                pa > 0,
        ;
    }
    lemma_excess_is(num, den, j);
}

/// The magnitude of the double nearest to `num / den`, which is `m * 2^k`, plus
/// less than one unit of `m` when `sticky`.
pub(super) fn round(m: u128, k: i32, sticky: bool, Ghost(num): Ghost<int>, Ghost(den): Ghost<int>) -> (r:
    u64)
    requires
        0 < den,
        0 < m < 0x8000_0000_0000_0000_0000_0000_0000_0000,
        -10000 <= k <= 10000,
        holds(num, den, m as int, k as int, sticky),
        sticky ==> m >= 0x40_0000_0000_0000,
    ensures
        r == nearest_magnitude(num, den),
{
    let n: i32 = bit_length(m) as i32;
    let j: i32 = if n + k > 53 {
        n + k - 53
    } else {
        0
    };
    let s: i32 = j - k;
    proof {
        lemma_excess_of_bits(num, den, m as int, k as int, sticky, n as nat, j as nat);
        lemma2_to64_rest();
        lemma_pow2_pos(j as nat);
        lemma_mul_strictly_positive(den, pow2(j as nat) as int);
    }
    let ghost d = den * pow2(j as nat);
    let q: u64;
    if s <= 0 {
        proof {
            // Nothing is dropped.
            assert(n <= 53);
            if n < 53 {
                lemma_pow2_strictly_increases(n as nat, 53);
            }
            assert(m < 0x20_0000_0000_0000);
            assert(!sticky);
            let t = (-s) as nat;
            lemma2_to64();
            lemma_pow2_adds(j as nat, t);
            lemma_pow2_adds(n as nat, t);
            lemma_pow2_pos(t);
            if n + t < 53 {
                lemma_pow2_strictly_increases((n + t) as nat, 53);
            }
            assert(m * pow2(t) < pow2(n as nat) * pow2(t)) by {
                lemma_mul_strict_inequality(m as int, pow2(n as nat) as int, pow2(t) as int);
            }
            assert(j as nat + t == k as nat);
            lemma_mul_basics(num);
            assert(num == d * (m * pow2(t))) by (nonlinear_arith)
                requires
                    num == den * (pow2(j as nat) * pow2(t)) * m,
                    d == den * pow2(j as nat),
            ;
            lemma_fundamental_div_mod_converse(num, d, m * pow2(t), 0);
        }
        q = (m * power((-s) as u32)) as u64;
    } else if s >= 128 {
        proof {
            lemma_pow2_pos(s as nat);
            lemma_pow2_adds(64, 64);
            lemma2_to64();
            if s > 128 {
                lemma_pow2_strictly_increases(128, s as nat);
            }
            lemma_cut(num, den, m as int, k as int, sticky, j as nat, s as nat, 0, m as int);
        }
        q = 0;
    } else {
        let unit = power(s as u32);
        proof {
            lemma_pow2_pos(s as nat);
        }
        let whole = m / unit;
        let rest = m % unit;
        proof {
            lemma_fundamental_div_mod(m as int, unit as int);
            lemma_mul_is_commutative(unit as int, whole as int);
            lemma_cut(
                num,
                den,
                m as int,
                k as int,
                sticky,
                j as nat,
                s as nat,
                whole as int,
                rest as int,
            );
            assert(whole < 0x20_0000_0000_0000) by {
                lemma_pow2_adds(s as nat, 53);
                if n < s + 53 {
                    lemma_pow2_strictly_increases(n as nat, (s + 53) as nat);
                }
                assert(whole < pow2(53)) by (nonlinear_arith)
                    requires
                        unit * whole <= m,
                        m < unit * pow2(53),
                        unit > 0,
                ;
            }
            lemma_pow2_unfold(s as nat);
        }
        let half = unit / 2;
        let up = rest > half || (rest == half && (sticky || whole % 2 == 1));
        q = if up {
            whole as u64 + 1
        } else {
            whole as u64
        };
    }
    assert(q == nearest_even(num, d));
    if j >= 2046 {
        proof {
            // The significand has all its bits.
            assert(num >= d * pow2(52)) by {
                lemma_full(num, den, j as nat);
            }
            assert(q >= 0x10_0000_0000_0000) by (nonlinear_arith)
                requires
                    q >= num / d,
                    num >= d * 0x10_0000_0000_0000,
                    d > 0,
            ;
        }
        return INFINITY;
    }
    let magnitude: u64 = j as u64 * EXPONENT_STEP + q;
    if magnitude < INFINITY {
        magnitude
    } else {
        INFINITY
    }
}

/// With excess bits dropped, the significand is full.
pub(super) proof fn lemma_full(num: int, den: int, j: nat)
    requires
        0 < den,
        0 < j == excess(num, den),
    ensures
        num >= (den * pow2(j)) * pow2(52),
    decreases j,
{
    if j == 1 {
        lemma2_to64();
        lemma_pow2_unfold(53);
        lemma_mul_is_associative(den, 2, pow2(52) as int);
    } else {
        lemma_full(num, 2 * den, (j - 1) as nat);
        lemma_pow2_unfold(j);
        lemma_mul_is_associative(den, 2, pow2((j - 1) as nat) as int);
        lemma_mul_is_commutative(den, 2);
    }
}

/// Without the excess bits, the number is below 2^53.
pub(super) proof fn lemma_fits(num: int, den: int)
    requires
        0 <= num,
        0 < den,
    ensures
        num < (den * pow2(excess(num, den))) * pow2(53),
    decreases num - den,
{
    lemma2_to64();
    if num < den * pow2(53) {
        lemma_mul_basics(den);
    } else {
        lemma_pow2_unfold(53);
        lemma_pow2_pos(52);
        lemma_mul_inequality(2, pow2(53) as int, den);
        lemma_mul_is_commutative(den, pow2(53) as int);
        lemma_fits(num, 2 * den);
        let k = excess(num, den);
        lemma_pow2_unfold(k);
        lemma_mul_is_associative(den, 2, pow2((k - 1) as nat) as int);
        lemma_mul_is_commutative(den, 2);
    }
}

/// A larger number has no fewer excess bits.
proof fn lemma_excess_monotone(a: int, b: int, den: int)
    requires
        0 <= a <= b,
        0 < den,
    ensures
        excess(a, den) <= excess(b, den),
    decreases b - den,
{
    if a >= den * pow2(53) {
        lemma_pow2_unfold(53);
        lemma_pow2_pos(52);
        lemma_mul_inequality(2, pow2(53) as int, den);
        lemma_mul_is_commutative(den, pow2(53) as int);
        lemma_excess_monotone(a, b, 2 * den);
    }
}

/// Rounding keeps the order of numbers.
pub proof fn lemma_nearest_monotone(a: int, b: int, den: int)
    requires
        0 <= a <= b,
        0 < den,
    ensures
        nearest_magnitude(a, den) <= nearest_magnitude(b, den),
{
    lemma_excess_monotone(a, b, den);
    let (i, j) = (excess(a, den), excess(b, den));
    lemma_pow2_pos(i);
    lemma_pow2_pos(j);
    let (d, e) = (den * pow2(i), den * pow2(j));
    lemma_mul_strictly_positive(den, pow2(i) as int);
    lemma_mul_strictly_positive(den, pow2(j) as int);
    if i == j {
        lemma_div_is_ordered(a, b, d);
        lemma_fundamental_div_mod(a, d);
        lemma_fundamental_div_mod(b, d);
    } else {
        lemma_fits(a, den);
        lemma_full(b, den, j);
        lemma2_to64_rest();
        let step = EXPONENT_STEP as int;
        assert(a / d < 2 * step) by (nonlinear_arith)
            requires
                a < d * (2 * step),
                0 <= a,
                0 < d,
        ;
        assert(b / e >= step) by (nonlinear_arith)
            requires
                b >= e * step,
                0 < e,
        ;
        assert((i + 1) * step <= j * step) by (nonlinear_arith)
            requires
                i + 1 <= j,
                step > 0,
        ;
        assert((i + 1) * step == i * step + step) by (nonlinear_arith);
    }
}

} // verus!
