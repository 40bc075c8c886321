//! Fixed-point numbers in millionths, and the two operations that round:
//! division and square root.

use vstd::arithmetic::div_mod::{lemma_fundamental_div_mod, lemma_fundamental_div_mod_converse};
use vstd::prelude::*;

verus! {

/// The raw value of 1.0: a number `v` stands for `v / ONE`.
pub const ONE: i64 = 1_000_000;

/// The square of `ONE`: the scale of a product of two raw values.
pub const ONE_SQUARED: i128 = 1_000_000_000_000;

/// The largest magnitude that the curve's parameters may have: a thousand units.
pub const LIMIT: i64 = 1_000_000_000;

/// Whether a raw value is within `LIMIT` of zero.
pub open spec fn in_range(v: int) -> bool {
    -LIMIT <= v <= LIMIT
}

/// A product is bounded by the product of its factors' bounds.
pub proof fn lemma_product_bound(a: int, b: int, bound_a: int, bound_b: int)
    by (nonlinear_arith)
    requires
        -bound_a <= a <= bound_a,
        -bound_b <= b <= bound_b,
    ensures
        -(bound_a * bound_b) <= a * b <= bound_a * bound_b,
{
}

/// The exact product of two raw values, which always fits the wide type.
pub fn wide_product(a: i64, b: i64) -> (p: i128)
    ensures
        p == a * b,
        -0x4000_0000_0000_0000_0000_0000_0000_0000 <= p <= 0x4000_0000_0000_0000_0000_0000_0000_0000,
{
    proof {
        lemma_product_bound(a as int, b as int, 0x8000_0000_0000_0000, 0x8000_0000_0000_0000);
    }
    a as i128 * b as i128
}

/// The floor of the exact quotient `n / d`, for a divisor of either sign.
pub open spec fn floor_div(n: int, d: int) -> int
    recommends
        d != 0,
{
    if d > 0 {
        n / d
    } else {
        (-n) / (-d)
    }
}

/// The floor of the exact quotient lies within one divisor's step of it.
pub proof fn lemma_floor_div_bounds(n: int, d: int)
    requires
        d != 0,
    ensures
        d > 0 ==> floor_div(n, d) * d <= n < (floor_div(n, d) + 1) * d,
        d < 0 ==> floor_div(n, d) * d >= n > (floor_div(n, d) + 1) * d,
{
    if d > 0 {
        lemma_fundamental_div_mod(n, d);
        assert(d * (n / d) == (n / d) * d) by (nonlinear_arith);
        assert((n / d + 1) * d == (n / d) * d + d) by (nonlinear_arith);
    } else {
        let m = -n;
        let e = -d;
        lemma_fundamental_div_mod(m, e);
        assert(e * (m / e) == -((m / e) * d)) by (nonlinear_arith)
            requires
                e == -d,
        ;
        assert((m / e + 1) * d == (m / e) * d + d) by (nonlinear_arith);
    }
}

/// Quotient of a negative dividend by a positive divisor, from the quotient and
/// remainder of its magnitude.
proof fn lemma_floor_of_negative(m: int, d: int)
    requires
        m >= 0,
        d > 0,
    ensures
        (-m) / d == if m % d == 0 {
            -(m / d)
        } else {
            -(m / d) - 1
        },
{
    let q = m / d;
    let r = m % d;
    lemma_fundamental_div_mod(m, d);
    if r == 0 {
        assert(-m == (-q) * d + 0) by (nonlinear_arith)
            requires
                m == d * q + r,
                r == 0,
        ;
        lemma_fundamental_div_mod_converse(-m, d, -q, 0);
    } else {
        assert(-m == (-q - 1) * d + (d - r)) by (nonlinear_arith)
            requires
                m == d * q + r,
        ;
        lemma_fundamental_div_mod_converse(-m, d, -q - 1, d - r);
    }
}

/// Divides, rounding toward negative infinity.
pub fn div_floor(n: i128, d: i128) -> (q: i128)
    requires
        d != 0,
        n > i128::MIN,
        d > i128::MIN,
    ensures
        q == floor_div(n as int, d as int),
{
    let (num, den): (i128, i128) = if d > 0 {
        (n, d)
    } else {
        (-n, -d)
    };
    if num >= 0 {
        num / den
    } else {
        let m: i128 = -num;
        let q: i128 = m / den;
        let r: i128 = m % den;
        proof {
            lemma_floor_of_negative(m as int, den as int);
            lemma_fundamental_div_mod(m as int, den as int);
            assert(0 <= q <= m) by (nonlinear_arith)
                requires
                    m == den * q + r,
                    0 <= r < den,
                    m >= 0,
            ;
        }
        if r == 0 {
            -q
        } else {
            -q - 1
        }
    }
}

/// The magnitude of a floored quotient does not exceed the dividend's.
pub proof fn lemma_floor_div_magnitude(n: int, d: int, bound: int)
    requires
        d != 0,
        -bound <= n <= bound,
    ensures
        -bound <= floor_div(n, d) <= bound,
{
    let q = floor_div(n, d);
    lemma_floor_div_bounds(n, d);
    if d > 0 {
        assert(-bound <= q <= bound) by (nonlinear_arith)
            requires
                q * d <= n < (q + 1) * d,
                d >= 1,
                -bound <= n <= bound,
        ;
    } else {
        assert(-bound <= q <= bound) by (nonlinear_arith)
            requires
                q * d >= n > (q + 1) * d,
                d <= -1,
                -bound <= n <= bound,
        ;
    }
}

/// The ceiling of the exact quotient `n / d`, for a divisor of either sign.
pub open spec fn ceil_div(n: int, d: int) -> int
    recommends
        d != 0,
{
    -floor_div(-n, d)
}

/// The ceiling of the exact quotient by a positive divisor is the least
/// integer whose product with the divisor reaches the dividend.
pub proof fn lemma_ceil_div_bounds(n: int, d: int)
    requires
        d > 0,
    ensures
        (ceil_div(n, d) - 1) * d < n <= ceil_div(n, d) * d,
{
    let f = floor_div(-n, d);
    lemma_floor_div_bounds(-n, d);
    assert((-f - 1) * d < n <= (-f) * d) by (nonlinear_arith)
        requires
            f * d <= -n < (f + 1) * d,
    ;
}

/// Divides, rounding toward positive infinity.
pub fn div_ceil(n: i128, d: i128) -> (q: i128)
    requires
        d != 0,
        n > i128::MIN,
        d > i128::MIN,
    ensures
        q == ceil_div(n as int, d as int),
{
    proof {
        lemma_floor_div_magnitude(-n as int, d as int, i128::MAX as int);
    }
    -div_floor(-n, d)
}

/// The integer square root: the largest `r` whose square does not exceed `n`.
pub open spec fn int_sqrt(n: nat) -> nat
    decreases n,
{
    if n == 0 {
        0
    } else {
        let r = int_sqrt((n - 1) as nat);
        if (r + 1) * (r + 1) <= n {
            r + 1
        } else {
            r
        }
    }
}

/// `int_sqrt(n)` squared does not exceed `n`, and the next integer's square does.
pub proof fn lemma_int_sqrt_bounds(n: nat)
    ensures
        int_sqrt(n) * int_sqrt(n) <= n < (int_sqrt(n) + 1) * (int_sqrt(n) + 1),
    decreases n,
{
    let s = int_sqrt(n);
    if n == 0 {
        assert(s == 0);
        assert(s * s == 0 && (s + 1) * (s + 1) == 1) by (nonlinear_arith)
            requires
                s == 0,
        ;
    } else {
        lemma_int_sqrt_bounds((n - 1) as nat);
        let r = int_sqrt((n - 1) as nat);
        if (r + 1) * (r + 1) <= n {
            assert(s == r + 1);
            assert((s + 1) * (s + 1) > s * s) by (nonlinear_arith);
        } else {
            assert(s == r);
        }
    }
}

/// Only one natural number lies between the two bounds of the square root.
pub proof fn lemma_int_sqrt_unique(n: nat, r: nat)
    requires
        r * r <= n < (r + 1) * (r + 1),
    ensures
        r == int_sqrt(n),
{
    lemma_int_sqrt_bounds(n);
    let s = int_sqrt(n);
    if r < s {
        assert((r + 1) * (r + 1) <= s * s) by (nonlinear_arith)
            requires
                r + 1 <= s,
        ;
    } else if s < r {
        assert((s + 1) * (s + 1) <= r * r) by (nonlinear_arith)
            requires
                s + 1 <= r,
        ;
    }
}

/// The square root grows with its argument.
pub proof fn lemma_int_sqrt_monotonic(a: nat, b: nat)
    requires
        a <= b,
    ensures
        int_sqrt(a) <= int_sqrt(b),
{
    lemma_int_sqrt_bounds(a);
    lemma_int_sqrt_bounds(b);
    let s = int_sqrt(a);
    let t = int_sqrt(b);
    if t < s {
        assert((t + 1) * (t + 1) <= s * s) by (nonlinear_arith)
            requires
                t + 1 <= s,
        ;
    }
}

/// The square root of a perfect square.
pub proof fn lemma_int_sqrt_of_square(r: nat)
    ensures
        int_sqrt(r * r) == r,
{
    assert(r * r < (r + 1) * (r + 1)) by (nonlinear_arith);
    lemma_int_sqrt_unique(r * r, r);
}

/// Computes the integer square root by bisection.
pub fn isqrt(n: u128) -> (r: u128)
    ensures
        r == int_sqrt(n as nat),
        r < 0x1_0000_0000_0000_0000,
{
    let mut lo: u128 = 0;
    let mut hi: u128 = 0x1_0000_0000_0000_0000;
    assert(n < hi * hi) by (nonlinear_arith)
        requires
            hi == 0x1_0000_0000_0000_0000,
            n <= u128::MAX,
    ;
    while hi - lo > 1
        invariant
            lo < hi <= 0x1_0000_0000_0000_0000,
            lo * lo <= n < hi * hi,
        decreases hi - lo,
    {
        let mid: u128 = lo + (hi - lo) / 2;
        assert(mid * mid <= 0xffff_ffff_ffff_ffff * 0xffff_ffff_ffff_ffff) by (nonlinear_arith)
            requires
                mid <= 0xffff_ffff_ffff_ffff,
        ;
        if mid * mid <= n {
            lo = mid;
        } else {
            hi = mid;
        }
    }
    proof {
        lemma_int_sqrt_unique(n as nat, lo as nat);
    }
    lo
}

} // verus!
