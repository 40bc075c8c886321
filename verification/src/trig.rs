//! Sine, cosine and arctangent on fixed-point angles, each defined by a
//! truncated series that is evaluated in integers.

use crate::fixed::ONE;
use vstd::arithmetic::div_mod::{lemma_div_is_ordered_by_denominator, lemma_fundamental_div_mod};
use vstd::prelude::*;

verus! {

/// A quarter turn, pi / 2, in millionths of a radian.
pub const QUARTER_TURN: i64 = 1_570_796;

/// Half a turn, pi.
pub const HALF_TURN: i64 = 3_141_593;

/// A full turn, 2 pi.
pub const FULL_TURN: i64 = 6_283_185;

/// The raw value of 1.0 inside a series, which carries twelve decimals.
pub const SERIES_ONE: i128 = 1_000_000_000_000;

/// One level of a nested alternating series: `1 - y * acc / k`, not below zero.
/// `y` and `acc` carry twelve decimals; `k` is a plain integer.
pub open spec fn series_step(y: int, acc: int, k: int) -> int {
    let t = y * acc / (k * SERIES_ONE);
    if t >= SERIES_ONE {
        0
    } else {
        SERIES_ONE - t
    }
}

/// The sine of `x` for `x` in the first quadrant:
/// `x - x^3/3! + x^5/5! - ... - x^11/11!`, rounded to the nearest millionth.
pub open spec fn sin_kernel(x: int) -> int {
    let y = x * x;
    let a5 = series_step(y, SERIES_ONE as int, 110);
    let a4 = series_step(y, a5, 72);
    let a3 = series_step(y, a4, 42);
    let a2 = series_step(y, a3, 20);
    let a1 = series_step(y, a2, 6);
    let s = (x * a1 + 500_000_000_000) / (SERIES_ONE as int);
    if s > ONE {
        ONE as int
    } else {
        s
    }
}

/// The cosine of `x` for `x` in the first quadrant:
/// `1 - x^2/2! + x^4/4! - ... + x^12/12!`, rounded to the nearest millionth.
pub open spec fn cos_kernel(x: int) -> int {
    let y = x * x;
    let a6 = series_step(y, SERIES_ONE as int, 132);
    let a5 = series_step(y, a6, 90);
    let a4 = series_step(y, a5, 56);
    let a3 = series_step(y, a4, 30);
    let a2 = series_step(y, a3, 12);
    let a1 = series_step(y, a2, 2);
    (a1 + 500_000) / 1_000_000
}

/// The sine of any angle: the angle is reduced to one turn, and the quadrant
/// gives the sign and the direction in which the kernel is read.
pub open spec fn spec_sin(theta: int) -> int {
    let r = theta % (FULL_TURN as int);
    if r <= QUARTER_TURN {
        sin_kernel(r)
    } else if r <= HALF_TURN {
        sin_kernel(HALF_TURN - r)
    } else if r <= HALF_TURN + QUARTER_TURN {
        -sin_kernel(r - HALF_TURN)
    } else {
        -sin_kernel(FULL_TURN - r)
    }
}

/// The cosine of any angle, by the same reduction.
pub open spec fn spec_cos(theta: int) -> int {
    let r = theta % (FULL_TURN as int);
    if r <= QUARTER_TURN {
        cos_kernel(r)
    } else if r <= HALF_TURN {
        -cos_kernel(HALF_TURN - r)
    } else if r <= HALF_TURN + QUARTER_TURN {
        -cos_kernel(r - HALF_TURN)
    } else {
        cos_kernel(FULL_TURN - r)
    }
}

/// A series level stays between zero and one.
pub proof fn lemma_series_step_range(y: int, acc: int, k: int)
    requires
        0 <= y,
        0 <= acc,
        0 < k,
    ensures
        0 <= series_step(y, acc, k) <= SERIES_ONE,
{
    let d = k * SERIES_ONE;
    assert(y * acc / d >= 0) by (nonlinear_arith)
        requires
            0 <= y,
            0 <= acc,
            0 < d,
    ;
}

/// Evaluates one level of a series.
fn eval_series_step(y: i128, acc: i128, k: i128) -> (r: i128)
    requires
        0 <= y <= 4_000_000_000_000,
        0 <= acc <= SERIES_ONE,
        0 < k <= 1000,
    ensures
        r == series_step(y as int, acc as int, k as int),
        0 <= r <= SERIES_ONE,
{
    proof {
        lemma_series_step_range(y as int, acc as int, k as int);
        assert(0 <= y * acc <= 4_000_000_000_000 * 1_000_000_000_000) by (nonlinear_arith)
            requires
                0 <= y <= 4_000_000_000_000,
                0 <= acc <= 1_000_000_000_000,
        ;
    }
    let t: i128 = y * acc / (k * SERIES_ONE);
    if t >= SERIES_ONE {
        0
    } else {
        SERIES_ONE - t
    }
}

/// Evaluates the sine series on a first-quadrant angle.
fn eval_sin_kernel(x: i64) -> (s: i64)
    requires
        0 <= x <= 2_000_000,
    ensures
        s == sin_kernel(x as int),
        0 <= s <= ONE,
{
    let x: i128 = x as i128;
    assert(0 <= x * x <= 4_000_000_000_000) by (nonlinear_arith)
        requires
            0 <= x <= 2_000_000,
    ;
    let y: i128 = x * x;
    let a5: i128 = eval_series_step(y, SERIES_ONE, 110);
    let a4: i128 = eval_series_step(y, a5, 72);
    let a3: i128 = eval_series_step(y, a4, 42);
    let a2: i128 = eval_series_step(y, a3, 20);
    let a1: i128 = eval_series_step(y, a2, 6);
    assert(0 <= x * a1 <= 2_000_000 * 1_000_000_000_000) by (nonlinear_arith)
        requires
            0 <= x <= 2_000_000,
            0 <= a1 <= 1_000_000_000_000,
    ;
    let s: i128 = (x * a1 + 500_000_000_000) / SERIES_ONE;
    if s > ONE as i128 {
        ONE
    } else {
        s as i64
    }
}

/// Evaluates the cosine series on a first-quadrant angle.
fn eval_cos_kernel(x: i64) -> (c: i64)
    requires
        0 <= x <= 2_000_000,
    ensures
        c == cos_kernel(x as int),
        0 <= c <= ONE,
{
    let x: i128 = x as i128;
    assert(0 <= x * x <= 4_000_000_000_000) by (nonlinear_arith)
        requires
            0 <= x <= 2_000_000,
    ;
    let y: i128 = x * x;
    let a6: i128 = eval_series_step(y, SERIES_ONE, 132);
    let a5: i128 = eval_series_step(y, a6, 90);
    let a4: i128 = eval_series_step(y, a5, 56);
    let a3: i128 = eval_series_step(y, a4, 30);
    let a2: i128 = eval_series_step(y, a3, 12);
    let a1: i128 = eval_series_step(y, a2, 2);
    ((a1 + 500_000) / 1_000_000) as i64
}

/// Reduces an angle to one turn: the result is in `[0, FULL_TURN)`.
pub fn reduce_angle(theta: i64) -> (r: i64)
    ensures
        r == (theta as int) % (FULL_TURN as int),
        0 <= r < FULL_TURN,
{
    if theta >= 0 {
        theta % FULL_TURN
    } else {
        let m: i128 = (-(theta as i128)) % (FULL_TURN as i128);
        if m == 0 {
            0
        } else {
            (FULL_TURN as i128 - m) as i64
        }
    }
}

/// The sine of an angle given in millionths of a radian, in millionths.
pub fn sin(theta: i64) -> (s: i64)
    ensures
        s == spec_sin(theta as int),
        -ONE <= s <= ONE,
{
    let r: i64 = reduce_angle(theta);
    if r <= QUARTER_TURN {
        eval_sin_kernel(r)
    } else if r <= HALF_TURN {
        eval_sin_kernel(HALF_TURN - r)
    } else if r <= HALF_TURN + QUARTER_TURN {
        -eval_sin_kernel(r - HALF_TURN)
    } else {
        -eval_sin_kernel(FULL_TURN - r)
    }
}

/// The cosine of an angle given in millionths of a radian, in millionths.
pub fn cos(theta: i64) -> (c: i64)
    ensures
        c == spec_cos(theta as int),
        -ONE <= c <= ONE,
{
    let r: i64 = reduce_angle(theta);
    if r <= QUARTER_TURN {
        eval_cos_kernel(r)
    } else if r <= HALF_TURN {
        -eval_cos_kernel(HALF_TURN - r)
    } else if r <= HALF_TURN + QUARTER_TURN {
        -eval_cos_kernel(r - HALF_TURN)
    } else {
        eval_cos_kernel(FULL_TURN - r)
    }
}

/// An eighth of a turn, pi / 4: the arctangent of one.
pub const EIGHTH_TURN: i64 = 785_398;

/// The tangent of a sixteenth of a turn, `sqrt(2) - 1`: up to it the
/// arctangent is read from its polynomial, beyond it from the complement.
pub const ATAN_SPLIT: i64 = 414_214;

/// One level of the arctangent polynomial: `b - y * acc`, with twelve decimals.
pub open spec fn atan_step(y: int, acc: int, b: int) -> int {
    b - y * acc / (SERIES_ONE as int)
}

/// The polynomial of degree eight in `y = x^2` whose product with `x` is the
/// arctangent of `x`; its coefficients alternate in sign.
pub open spec fn atan_poly(y: int) -> int {
    let p7 = atan_step(y, 2_866_225_700, 16_165_736_700);
    let p6 = atan_step(y, p7, 42_909_613_800);
    let p5 = atan_step(y, p6, 75_289_640_000);
    let p4 = atan_step(y, p5, 106_562_639_300);
    let p3 = atan_step(y, p4, 142_088_994_400);
    let p2 = atan_step(y, p3, 199_935_508_500);
    let p1 = atan_step(y, p2, 333_331_452_800);
    atan_step(y, p1, SERIES_ONE as int)
}

/// The arctangent of `x` by its polynomial, rounded to the nearest millionth.
pub open spec fn atan_core(x: int) -> int {
    (x * atan_poly(x * x) + 500_000_000_000) / (SERIES_ONE as int)
}

/// The arctangent of `x` for `x` between zero and one: beyond `ATAN_SPLIT`
/// it is an eighth of a turn less the arctangent of `(1 - x) / (1 + x)`.
pub open spec fn atan_unit(x: int) -> int {
    if x <= ATAN_SPLIT {
        atan_core(x)
    } else {
        EIGHTH_TURN - atan_core((ONE - x) * ONE / (ONE + x))
    }
}

/// The arctangent of a non-negative number: beyond one it is a quarter turn
/// less the arctangent of the reciprocal.
pub open spec fn atan_nonneg(t: int) -> int {
    if t <= ONE {
        atan_unit(t)
    } else {
        QUARTER_TURN - atan_unit((ONE * ONE) / t)
    }
}

/// The arctangent of any number; it is odd by definition.
pub open spec fn spec_atan(t: int) -> int {
    if t < 0 {
        -atan_nonneg(-t)
    } else {
        atan_nonneg(t)
    }
}

/// A polynomial level lies between `b - acc` and `b`.
pub proof fn lemma_atan_step_range(y: int, acc: int, b: int)
    requires
        0 <= y <= SERIES_ONE,
        0 <= acc,
    ensures
        b - acc <= atan_step(y, acc, b) <= b,
{
    let e = SERIES_ONE as int;
    assert(0 <= y * acc <= e * acc) by (nonlinear_arith)
        requires
            0 <= y <= e,
            0 <= acc,
    ;
    assert(e * acc / e == acc) by (nonlinear_arith)
        requires
            e > 0,
    ;
    assert(0 <= y * acc / e <= e * acc / e) by (nonlinear_arith)
        requires
            0 <= y * acc <= e * acc,
            e > 0,
    ;
}

/// Two levels whose arguments are close are close: where `y` grows by at
/// most `growth` and `acc` moves by at most `drift`, the level moves by at
/// most `(growth * most + ceiling * drift) / 10^12 + 1`.
pub proof fn lemma_atan_step_close(
    y: int,
    y2: int,
    acc: int,
    acc2: int,
    b: int,
    growth: int,
    most: int,
    ceiling: int,
    drift: int,
)
    requires
        0 <= y <= y2 <= ceiling,
        y2 - y <= growth,
        0 <= acc <= most,
        0 <= acc2 <= most,
        -drift <= acc2 - acc <= drift,
    ensures
        -((growth * most + ceiling * drift) / (SERIES_ONE as int) + 1) <= atan_step(y2, acc2, b)
            - atan_step(y, acc, b) <= (growth * most + ceiling * drift) / (SERIES_ONE as int) + 1,
{
    let w = growth * most + ceiling * drift;
    assert(-w <= y2 * acc2 - y * acc <= w) by (nonlinear_arith)
        requires
            0 <= y <= y2 <= ceiling,
            y2 - y <= growth,
            0 <= acc <= most,
            0 <= acc2 <= most,
            -drift <= acc2 - acc <= drift,
            w == growth * most + ceiling * drift,
    ;
}

/// The polynomial lies between two thirds and one.
pub proof fn lemma_atan_poly_range(y: int)
    requires
        0 <= y <= SERIES_ONE,
    ensures
        SERIES_ONE - 333_331_452_800 <= atan_poly(y) <= SERIES_ONE,
{
    lemma_atan_step_range(y, 2_866_225_700, 16_165_736_700);
    let p7 = atan_step(y, 2_866_225_700, 16_165_736_700);
    lemma_atan_step_range(y, p7, 42_909_613_800);
    let p6 = atan_step(y, p7, 42_909_613_800);
    lemma_atan_step_range(y, p6, 75_289_640_000);
    let p5 = atan_step(y, p6, 75_289_640_000);
    lemma_atan_step_range(y, p5, 106_562_639_300);
    let p4 = atan_step(y, p5, 106_562_639_300);
    lemma_atan_step_range(y, p4, 142_088_994_400);
    let p3 = atan_step(y, p4, 142_088_994_400);
    lemma_atan_step_range(y, p3, 199_935_508_500);
    let p2 = atan_step(y, p3, 199_935_508_500);
    lemma_atan_step_range(y, p2, 333_331_452_800);
    let p1 = atan_step(y, p2, 333_331_452_800);
    lemma_atan_step_range(y, p1, SERIES_ONE as int);
}

/// Up to `ATAN_SPLIT`, one more millionth in `x` lowers the polynomial by
/// less than a third of a millionth.
proof fn lemma_atan_poly_close(x: int)
    requires
        0 <= x < ATAN_SPLIT,
    ensures
        atan_poly(x * x) - atan_poly((x + 1) * (x + 1)) <= 308_531,
{
    let y = x * x;
    let y2 = (x + 1) * (x + 1);
    assert(0 <= y <= y2 <= 171_573_300_000 && y2 - y <= 828_429) by (nonlinear_arith)
        requires
            0 <= x < 414_214,
            y == x * x,
            y2 == (x + 1) * (x + 1),
    ;
    let g: int = 828_429;
    let c: int = 171_573_300_000;
    lemma_atan_step_range(y, 2_866_225_700, 16_165_736_700);
    lemma_atan_step_range(y2, 2_866_225_700, 16_165_736_700);
    lemma_atan_step_close(y, y2, 2_866_225_700, 2_866_225_700, 16_165_736_700, g, 2_866_225_700, c, 0);
    let p7 = atan_step(y, 2_866_225_700, 16_165_736_700);
    let q7 = atan_step(y2, 2_866_225_700, 16_165_736_700);
    assert(-2_375 <= q7 - p7 <= 2_375);
    lemma_atan_step_range(y, p7, 42_909_613_800);
    lemma_atan_step_range(y2, q7, 42_909_613_800);
    lemma_atan_step_close(y, y2, p7, q7, 42_909_613_800, g, 16_165_736_700, c, 2_375);
    let p6 = atan_step(y, p7, 42_909_613_800);
    let q6 = atan_step(y2, q7, 42_909_613_800);
    assert(-13_800 <= q6 - p6 <= 13_800);
    lemma_atan_step_range(y, p6, 75_289_640_000);
    lemma_atan_step_range(y2, q6, 75_289_640_000);
    lemma_atan_step_close(y, y2, p6, q6, 75_289_640_000, g, 42_909_613_800, c, 13_800);
    let p5 = atan_step(y, p6, 75_289_640_000);
    let q5 = atan_step(y2, q6, 75_289_640_000);
    assert(-37_916 <= q5 - p5 <= 37_916);
    lemma_atan_step_range(y, p5, 106_562_639_300);
    lemma_atan_step_range(y2, q5, 106_562_639_300);
    lemma_atan_step_close(y, y2, p5, q5, 106_562_639_300, g, 75_289_640_000, c, 37_916);
    let p4 = atan_step(y, p5, 106_562_639_300);
    let q4 = atan_step(y2, q5, 106_562_639_300);
    assert(-68_878 <= q4 - p4 <= 68_878);
    lemma_atan_step_range(y, p4, 142_088_994_400);
    lemma_atan_step_range(y2, q4, 142_088_994_400);
    lemma_atan_step_close(y, y2, p4, q4, 142_088_994_400, g, 106_562_639_300, c, 68_878);
    let p3 = atan_step(y, p4, 142_088_994_400);
    let q3 = atan_step(y2, q4, 142_088_994_400);
    assert(-100_098 <= q3 - p3 <= 100_098);
    lemma_atan_step_range(y, p3, 199_935_508_500);
    lemma_atan_step_range(y2, q3, 199_935_508_500);
    lemma_atan_step_close(y, y2, p3, q3, 199_935_508_500, g, 142_088_994_400, c, 100_098);
    let p2 = atan_step(y, p3, 199_935_508_500);
    let q2 = atan_step(y2, q3, 199_935_508_500);
    assert(-134_885 <= q2 - p2 <= 134_885);
    lemma_atan_step_range(y, p2, 333_331_452_800);
    lemma_atan_step_range(y2, q2, 333_331_452_800);
    lemma_atan_step_close(y, y2, p2, q2, 333_331_452_800, g, 199_935_508_500, c, 134_885);
    let p1 = atan_step(y, p2, 333_331_452_800);
    let q1 = atan_step(y2, q2, 333_331_452_800);
    assert(-188_776 <= q1 - p1 <= 188_776);
    lemma_atan_step_close(y, y2, p1, q1, SERIES_ONE as int, g, 333_331_452_800, c, 188_776);
}

/// Up to `ATAN_SPLIT` the arctangent by its polynomial does not fall when
/// its argument grows by a millionth.
proof fn lemma_atan_core_step(x: int)
    requires
        0 <= x < ATAN_SPLIT,
    ensures
        atan_core(x) <= atan_core(x + 1),
{
    let p = atan_poly(x * x);
    let q = atan_poly((x + 1) * (x + 1));
    lemma_atan_poly_close(x);
    assert(0 <= (x + 1) * (x + 1) <= SERIES_ONE) by (nonlinear_arith)
        requires
            0 <= x < 414_214,
    ;
    lemma_atan_poly_range((x + 1) * (x + 1));
    assert(x * p <= (x + 1) * q) by (nonlinear_arith)
        requires
            0 <= x < 414_214,
            p - q <= 308_531,
            q >= 666_668_547_200,
    ;
}

/// Up to `ATAN_SPLIT` the arctangent by its polynomial does not fall when
/// its argument grows.
pub proof fn lemma_atan_core_monotonic(a: int, b: int)
    requires
        0 <= a <= b <= ATAN_SPLIT,
    ensures
        atan_core(a) <= atan_core(b),
    decreases b - a,
{
    if a < b {
        lemma_atan_core_monotonic(a, b - 1);
        lemma_atan_core_step(b - 1);
    }
}

/// Between zero and one the arctangent by its polynomial is non-negative and
/// at most its argument.
pub proof fn lemma_atan_core_range(x: int)
    requires
        0 <= x <= ONE,
    ensures
        0 <= atan_core(x) <= x,
{
    let y = x * x;
    assert(0 <= y <= SERIES_ONE) by (nonlinear_arith)
        requires
            y == x * x,
            0 <= x <= 1_000_000,
    ;
    lemma_atan_poly_range(y);
    let p0 = atan_poly(y);
    assert(0 <= x * p0 <= x * 1_000_000_000_000) by (nonlinear_arith)
        requires
            0 <= x,
            0 <= p0 <= 1_000_000_000_000,
    ;
}

/// The complement `(1 - x) / (1 + x)` of a number between zero and one lies
/// between zero and one, and falls as the number grows.
pub proof fn lemma_complement_falls(a: int, b: int)
    requires
        0 <= a <= b <= ONE,
    ensures
        0 <= (ONE - b) * ONE / (ONE + b) <= (ONE - a) * ONE / (ONE + a) <= ONE,
{
    let na = (ONE - a) * ONE;
    let nb = (ONE - b) * ONE;
    let da = ONE + a;
    let db = ONE + b;
    let qa = na / da;
    let qb = nb / db;
    lemma_fundamental_div_mod(na, da);
    lemma_fundamental_div_mod(nb, db);
    assert(0 <= qb <= qa <= 1_000_000) by (nonlinear_arith)
        requires
            na == da * qa + na % da,
            nb == db * qb + nb % db,
            0 <= na % da < da,
            0 <= nb % db < db,
            0 <= nb <= na <= 1_000_000_000_000,
            1_000_000 <= da <= db,
    ;
}

/// Between zero and one the arctangent lies between zero and an eighth of a
/// turn.
pub proof fn lemma_atan_unit_range(x: int)
    requires
        0 <= x <= ONE,
    ensures
        0 <= atan_unit(x) <= EIGHTH_TURN,
{
    if x <= ATAN_SPLIT {
        lemma_atan_core_range(x);
    } else {
        lemma_complement_falls(ATAN_SPLIT + 1, x);
        assert((ONE - (ATAN_SPLIT + 1)) * ONE / (ONE + (ATAN_SPLIT + 1)) == 414_212);
        lemma_atan_core_range((ONE - x) * ONE / (ONE + x));
    }
}

/// Between zero and one the arctangent does not fall when its argument grows.
pub proof fn lemma_atan_unit_monotonic(a: int, b: int)
    requires
        0 <= a <= b <= ONE,
    ensures
        atan_unit(a) <= atan_unit(b),
{
    let split = ATAN_SPLIT as int;
    if b <= split {
        lemma_atan_core_monotonic(a, b);
    } else {
        lemma_complement_falls(split + 1, b);
        lemma_complement_falls(b, b);
        let rb = (ONE - b) * ONE / (ONE + b);
        assert((ONE - (split + 1)) * ONE / (ONE + (split + 1)) == 414_212);
        if a <= split {
            lemma_atan_core_monotonic(a, split);
            lemma_atan_core_monotonic(rb, 414_212);
            lemma_atan_core_at_split();
        } else {
            lemma_complement_falls(a, b);
            let ra = (ONE - a) * ONE / (ONE + a);
            lemma_complement_falls(split + 1, a);
            lemma_atan_core_monotonic(rb, ra);
        }
    }
}

/// The two values by which the polynomial and the complement meet at the
/// split.
proof fn lemma_atan_core_at_split()
    ensures
        atan_core(414_214) == 392_699,
        atan_core(414_212) == 392_698,
{
    assert(414_214int * 414_214 == 171_573_237_796);
    assert(414_212int * 414_212 == 171_571_580_944);
}

/// The arctangent of a non-negative number lies between zero and a quarter
/// turn.
proof fn lemma_atan_nonneg_range(t: int)
    requires
        0 <= t,
    ensures
        0 <= atan_nonneg(t) <= QUARTER_TURN,
{
    if t <= ONE {
        lemma_atan_unit_range(t);
    } else {
        let q = (ONE * ONE) / t;
        assert(0 <= q <= ONE) by (nonlinear_arith)
            requires
                q == 1_000_000_000_000int / t,
                t > 1_000_000,
        ;
        lemma_atan_unit_range(q);
    }
}

/// The arctangent of a non-negative number does not fall when the number
/// grows.
proof fn lemma_atan_nonneg_monotonic(a: int, b: int)
    requires
        0 <= a <= b,
    ensures
        atan_nonneg(a) <= atan_nonneg(b),
{
    if b <= ONE {
        lemma_atan_unit_monotonic(a, b);
    } else {
        let qb = (ONE * ONE) / b;
        assert(0 <= qb <= ONE) by (nonlinear_arith)
            requires
                qb == 1_000_000_000_000int / b,
                b > 1_000_000,
        ;
        if a <= ONE {
            lemma_atan_unit_range(a);
            lemma_atan_unit_range(qb);
        } else {
            let qa = (ONE * ONE) / a;
            lemma_div_is_ordered_by_denominator(ONE * ONE, a, b);
            assert(qa <= ONE) by (nonlinear_arith)
                requires
                    qa == 1_000_000_000_000int / a,
                    a > 1_000_000,
            ;
            lemma_atan_unit_monotonic(qb, qa);
        }
    }
}

/// The arctangent does not fall when its argument grows.
pub proof fn lemma_atan_monotonic(a: int, b: int)
    requires
        a <= b,
    ensures
        spec_atan(a) <= spec_atan(b),
{
    if a >= 0 {
        lemma_atan_nonneg_monotonic(a, b);
    } else if b < 0 {
        lemma_atan_nonneg_monotonic(-b, -a);
    } else {
        lemma_atan_nonneg_range(-a);
        lemma_atan_nonneg_range(b);
    }
}

/// The arctangent of every number lies within a quarter turn of zero.
pub proof fn lemma_atan_range(t: int)
    ensures
        -QUARTER_TURN <= spec_atan(t) <= QUARTER_TURN,
{
    if t < 0 {
        lemma_atan_nonneg_range(-t);
    } else {
        lemma_atan_nonneg_range(t);
    }
}

/// Beyond a million the arctangent is a quarter turn, to the last digit.
pub proof fn lemma_atan_saturates(t: int)
    requires
        t > ONE * ONE,
    ensures
        spec_atan(t) == QUARTER_TURN,
        spec_atan(-t) == -QUARTER_TURN,
{
    assert((ONE * ONE) / t == 0) by (nonlinear_arith)
        requires
            t > 1_000_000_000_000,
    ;
    assert(atan_unit(0) == 0);
}

/// Evaluates one level of the arctangent polynomial.
fn eval_atan_step(y: i128, acc: i128, b: i128) -> (r: i128)
    requires
        0 <= y <= SERIES_ONE,
        0 <= acc <= b <= SERIES_ONE,
    ensures
        r == atan_step(y as int, acc as int, b as int),
        0 <= r <= b,
{
    proof {
        lemma_atan_step_range(y as int, acc as int, b as int);
        assert(0 <= y * acc <= 1_000_000_000_000 * 1_000_000_000_000) by (nonlinear_arith)
            requires
                0 <= y <= 1_000_000_000_000,
                0 <= acc <= 1_000_000_000_000,
        ;
    }
    b - y * acc / SERIES_ONE
}

/// Evaluates the arctangent polynomial on a number between zero and one.
fn eval_atan_core(x: i64) -> (a: i64)
    requires
        0 <= x <= ONE,
    ensures
        a == atan_core(x as int),
        0 <= a <= x,
{
    proof {
        lemma_atan_core_range(x as int);
    }
    let x: i128 = x as i128;
    assert(0 <= x * x <= 1_000_000_000_000) by (nonlinear_arith)
        requires
            0 <= x <= 1_000_000,
    ;
    let y: i128 = x * x;
    let p7: i128 = eval_atan_step(y, 2_866_225_700, 16_165_736_700);
    let p6: i128 = eval_atan_step(y, p7, 42_909_613_800);
    let p5: i128 = eval_atan_step(y, p6, 75_289_640_000);
    let p4: i128 = eval_atan_step(y, p5, 106_562_639_300);
    let p3: i128 = eval_atan_step(y, p4, 142_088_994_400);
    let p2: i128 = eval_atan_step(y, p3, 199_935_508_500);
    let p1: i128 = eval_atan_step(y, p2, 333_331_452_800);
    let p0: i128 = eval_atan_step(y, p1, SERIES_ONE);
    assert(0 <= x * p0 <= 1_000_000 * 1_000_000_000_000) by (nonlinear_arith)
        requires
            0 <= x <= 1_000_000,
            0 <= p0 <= 1_000_000_000_000,
    ;
    ((x * p0 + 500_000_000_000) / SERIES_ONE) as i64
}

/// Evaluates the arctangent of a number between zero and one.
fn eval_atan_unit(x: i64) -> (a: i64)
    requires
        0 <= x <= ONE,
    ensures
        a == atan_unit(x as int),
        0 <= a <= EIGHTH_TURN,
{
    proof {
        lemma_atan_unit_range(x as int);
    }
    if x <= ATAN_SPLIT {
        eval_atan_core(x)
    } else {
        proof {
            lemma_complement_falls(x as int, x as int);
        }
        EIGHTH_TURN - eval_atan_core((ONE - x) * ONE / (ONE + x))
    }
}

/// The arctangent of a number given in millionths, in millionths of a radian.
pub fn atan(t: i64) -> (a: i64)
    ensures
        a == spec_atan(t as int),
        -QUARTER_TURN <= a <= QUARTER_TURN,
{
    proof {
        lemma_atan_range(t as int);
    }
    let m: i128 = if t < 0 {
        -(t as i128)
    } else {
        t as i128
    };
    let u: i64 = if m <= ONE as i128 {
        eval_atan_unit(m as i64)
    } else {
        let q: i128 = (ONE as i128 * ONE as i128) / m;
        assert(0 <= q <= ONE) by (nonlinear_arith)
            requires
                q == 1_000_000_000_000int / (m as int),
                m > 1_000_000,
        ;
        QUARTER_TURN - eval_atan_unit(q as i64)
    };
    if t < 0 {
        -u
    } else {
        u
    }
}

} // verus!
