//! The parametric curve of a conical spiral,
//! `(theta * factor * cos(theta + angle_offset), rate * theta,
//! -theta * factor * sin(theta + angle_offset))`,
//! and the angular step that covers a given arc length along it.

use crate::fixed::{ceil_div, div_ceil, div_floor, in_range, int_sqrt, isqrt, wide_product};
use crate::fixed::{lemma_ceil_div_bounds, lemma_int_sqrt_monotonic, lemma_int_sqrt_of_square};
use crate::fixed::{LIMIT, ONE, ONE_SQUARED};
use crate::point::Point3d;
use crate::trig::{cos, reduce_angle, sin, spec_cos, spec_sin, FULL_TURN};
use vstd::arithmetic::div_mod::lemma_div_is_ordered;
use vstd::prelude::*;

verus! {

/// The local length of the curve per radian at `theta`,
/// `sqrt(rate^2 + factor^2 * theta^2)`, with twelve decimals.
pub open spec fn metric(theta: int, rate: int, factor: int) -> int {
    let ft = factor * theta;
    int_sqrt((rate * rate * ONE_SQUARED + ft * ft) as nat) as int
}

/// The angular step that covers an arc of `length` at `theta`:
/// `length / sqrt(rate^2 + factor^2 * theta^2)`, rounded up, so that every
/// arc, however short, takes a step.
pub open spec fn spec_d_theta(theta: int, length: int, rate: int, factor: int) -> int {
    ceil_div(length * ONE_SQUARED, metric(theta, rate, factor))
}

/// With a positive rate the metric is at least the rate.
pub proof fn lemma_metric_lower_bound(theta: int, rate: int, factor: int)
    requires
        rate > 0,
    ensures
        metric(theta, rate, factor) >= rate * ONE,
{
    let ft = factor * theta;
    let base = (rate * ONE) as nat;
    assert(base * base == rate * rate * ONE_SQUARED) by (nonlinear_arith)
        requires
            base == rate * 1_000_000,
            ONE_SQUARED == 1_000_000_000_000,
    ;
    assert(ft * ft >= 0) by (nonlinear_arith);
    lemma_int_sqrt_of_square(base);
    lemma_int_sqrt_monotonic(base * base, (rate * rate * ONE_SQUARED + ft * ft) as nat);
}

/// With a positive rate the metric is positive.
pub proof fn lemma_metric_positive(theta: int, rate: int, factor: int)
    requires
        rate > 0,
    ensures
        metric(theta, rate, factor) >= 1_000_000,
{
    lemma_metric_lower_bound(theta, rate, factor);
}

/// The angular step is positive for every angle, whenever the length and the
/// rate are positive.
pub proof fn lemma_d_theta_positive(theta: int, length: int, rate: int, factor: int)
    requires
        length > 0,
        rate > 0,
    ensures
        spec_d_theta(theta, length, rate, factor) > 0,
{
    lemma_metric_positive(theta, rate, factor);
    let m = metric(theta, rate, factor);
    let n = length * ONE_SQUARED;
    lemma_ceil_div_bounds(n, m);
    let c = ceil_div(n, m);
    assert(c >= 1) by (nonlinear_arith)
        requires
            n <= c * m,
            n > 0,
            m > 0,
    ;
}

/// A longer arc takes a step that is at least as large.
pub proof fn lemma_d_theta_grows_with_length(
    theta: int,
    shorter: int,
    longer: int,
    rate: int,
    factor: int,
)
    requires
        rate > 0,
        shorter <= longer,
    ensures
        spec_d_theta(theta, shorter, rate, factor) <= spec_d_theta(theta, longer, rate, factor),
{
    lemma_metric_positive(theta, rate, factor);
    let m = metric(theta, rate, factor);
    lemma_div_is_ordered(-(longer * ONE_SQUARED), -(shorter * ONE_SQUARED), m);
}

/// Further from the apex the curve is longer per radian, so that the same
/// arc takes a step that is at most as large.
pub proof fn lemma_d_theta_shrinks_along_curve(
    nearer: int,
    further: int,
    length: int,
    rate: int,
    factor: int,
)
    requires
        rate > 0,
        length >= 0,
        0 <= nearer <= further || 0 >= nearer >= further,
    ensures
        spec_d_theta(nearer, length, rate, factor) >= spec_d_theta(further, length, rate, factor),
{
    lemma_metric_positive(nearer, rate, factor);
    let a = factor * nearer;
    let b = factor * further;
    assert(0 <= a * a <= b * b) by (nonlinear_arith)
        requires
            a == factor * nearer,
            b == factor * further,
            0 <= nearer <= further || 0 >= nearer >= further,
    ;
    assert(rate * rate * ONE_SQUARED >= 0) by (nonlinear_arith);
    lemma_int_sqrt_monotonic(
        (rate * rate * ONE_SQUARED + a * a) as nat,
        (rate * rate * ONE_SQUARED + b * b) as nat,
    );
    let n = length * ONE_SQUARED;
    let m1 = metric(nearer, rate, factor);
    let m2 = metric(further, rate, factor);
    let c1 = ceil_div(n, m1);
    let c2 = ceil_div(n, m2);
    lemma_ceil_div_bounds(n, m1);
    lemma_ceil_div_bounds(n, m2);
    assert(c1 >= c2) by (nonlinear_arith)
        requires
            (c1 - 1) * m1 < n <= c1 * m1,
            (c2 - 1) * m2 < n <= c2 * m2,
            1 <= m1 <= m2,
            n >= 0,
    ;
}

/// The angular step `length / sqrt(rate^2 + factor^2 * theta^2)`: the least
/// count of millionths of a radian that covers the arc.
pub fn d_theta(theta: i64, length: i64, rate: i64, factor: i64) -> (step: i64)
    requires
        in_range(theta as int),
        in_range(length as int),
        in_range(factor as int),
        0 < rate <= LIMIT,
    ensures
        step == spec_d_theta(theta as int, length as int, rate as int, factor as int),
        length > 0 ==> step > 0,
{
    let ft: i128 = wide_product(factor, theta);
    assert(-1_000_000_000_000_000_000 <= ft <= 1_000_000_000_000_000_000) by (nonlinear_arith)
        requires
            ft == factor * theta,
            -1_000_000_000 <= factor <= 1_000_000_000,
            -1_000_000_000 <= theta <= 1_000_000_000,
    ;
    assert(0 <= ft * ft <= 1_000_000_000_000_000_000 * 1_000_000_000_000_000_000)
        by (nonlinear_arith)
        requires
            -1_000_000_000_000_000_000 <= ft <= 1_000_000_000_000_000_000,
    ;
    let rr: i128 = wide_product(rate, rate);
    assert(0 < rr <= 1_000_000_000_000_000_000) by (nonlinear_arith)
        requires
            rr == rate * rate,
            0 < rate <= 1_000_000_000,
    ;
    let n: i128 = rr * ONE_SQUARED + ft * ft;
    let m: u128 = isqrt(n as u128);
    proof {
        lemma_metric_lower_bound(theta as int, rate as int, factor as int);
        assert(m == metric(theta as int, rate as int, factor as int));
    }
    let num: i128 = length as i128 * ONE_SQUARED;
    let q: i128 = div_ceil(num, m as i128);
    proof {
        lemma_ceil_div_bounds(num as int, m as int);
        assert(-1_000_000_000_000_000 <= q <= 1_000_000_000_000_000) by (nonlinear_arith)
            requires
                (q - 1) * m < num <= q * m,
                m >= 1_000_000,
                -1_000_000_000_000_000_000_000 <= num <= 1_000_000_000_000_000_000_000,
        ;
        if length > 0 {
            lemma_d_theta_positive(theta as int, length as int, rate as int, factor as int);
        }
    }
    q as i64
}

/// The x coordinate of the curve at `theta`: `theta * factor * cos(theta + angle_offset)`.
pub open spec fn spec_point_x(theta: int, factor: int, angle_offset: int) -> int {
    (theta * factor * spec_cos(theta + angle_offset)) / (ONE_SQUARED as int)
}

/// The y coordinate of the curve at `theta`: `rate * theta`.
pub open spec fn spec_point_y(theta: int, rate: int) -> int {
    (rate * theta) / (ONE as int)
}

/// The z coordinate of the curve at `theta`: `-theta * factor * sin(theta + angle_offset)`.
pub open spec fn spec_point_z(theta: int, factor: int, angle_offset: int) -> int {
    (-(theta * factor * spec_sin(theta + angle_offset))) / (ONE_SQUARED as int)
}

/// The point of the curve at `theta`.
pub open spec fn spec_point(theta: int, factor: int, angle_offset: int, rate: int) -> Point3d {
    Point3d {
        x: spec_point_x(theta, factor, angle_offset) as i64,
        y: spec_point_y(theta, rate) as i64,
        z: spec_point_z(theta, factor, angle_offset) as i64,
    }
}

/// The curve passes through the origin at `theta = 0`, whatever its pitch,
/// angle offset and rate.
pub proof fn lemma_point_at_zero(factor: int, angle_offset: int, rate: int)
    ensures
        spec_point(0, factor, angle_offset, rate) == (Point3d { x: 0, y: 0, z: 0 }),
{
    let c = spec_cos(0 + angle_offset);
    let s = spec_sin(0 + angle_offset);
    assert(0 * factor * c == 0) by (nonlinear_arith);
    assert(0 * factor * s == 0) by (nonlinear_arith);
    assert(rate * 0 == 0) by (nonlinear_arith);
}

/// A curve without pitch is a vertical line: it stays on the axis.
pub proof fn lemma_point_without_pitch(theta: int, angle_offset: int)
    ensures
        spec_point_x(theta, 0, angle_offset) == 0,
        spec_point_z(theta, 0, angle_offset) == 0,
{
    let c = spec_cos(theta + angle_offset);
    let s = spec_sin(theta + angle_offset);
    assert(theta * 0 * c == 0) by (nonlinear_arith);
    assert(theta * 0 * s == 0) by (nonlinear_arith);
}

/// The point of the curve at `theta`:
/// `(theta * factor * cos(theta + angle_offset), rate * theta,
/// -theta * factor * sin(theta + angle_offset))`.
pub fn get_point(theta: i64, factor: i64, angle_offset: i64, rate: i64) -> (p: Point3d)
    requires
        in_range(theta as int),
        in_range(factor as int),
        in_range(rate as int),
    ensures
        p == spec_point(theta as int, factor as int, angle_offset as int, rate as int),
        p.x == spec_point_x(theta as int, factor as int, angle_offset as int),
        p.y == spec_point_y(theta as int, rate as int),
        p.z == spec_point_z(theta as int, factor as int, angle_offset as int),
        theta == 0 ==> p == (Point3d { x: 0, y: 0, z: 0 }),
{
    proof {
        lemma_point_at_zero(factor as int, angle_offset as int, rate as int);
    }
    let angle: i64 = reduce_angle(theta) + reduce_angle(angle_offset);
    assert((angle as int) % (FULL_TURN as int) == (theta + angle_offset) % (FULL_TURN as int));
    let c: i128 = cos(angle) as i128;
    let s: i128 = sin(angle) as i128;
    let ft: i128 = wide_product(theta, factor);
    assert(-1_000_000_000_000_000_000 <= ft <= 1_000_000_000_000_000_000) by (nonlinear_arith)
        requires
            ft == theta * factor,
            -1_000_000_000 <= factor <= 1_000_000_000,
            -1_000_000_000 <= theta <= 1_000_000_000,
    ;
    assert(-1_000_000_000_000_000_000_000_000 <= ft * c <= 1_000_000_000_000_000_000_000_000)
        by (nonlinear_arith)
        requires
            -1_000_000_000_000_000_000 <= ft <= 1_000_000_000_000_000_000,
            -1_000_000 <= c <= 1_000_000,
    ;
    assert(-1_000_000_000_000_000_000_000_000 <= ft * s <= 1_000_000_000_000_000_000_000_000)
        by (nonlinear_arith)
        requires
            -1_000_000_000_000_000_000 <= ft <= 1_000_000_000_000_000_000,
            -1_000_000 <= s <= 1_000_000,
    ;
    let rt: i128 = wide_product(rate, theta);
    assert(-1_000_000_000_000_000_000 <= rt <= 1_000_000_000_000_000_000) by (nonlinear_arith)
        requires
            rt == rate * theta,
            -1_000_000_000 <= rate <= 1_000_000_000,
            -1_000_000_000 <= theta <= 1_000_000_000,
    ;
    let x: i128 = div_floor(ft * c, ONE_SQUARED);
    let y: i128 = div_floor(rt, ONE as i128);
    let z: i128 = div_floor(-(ft * s), ONE_SQUARED);
    Point3d { x: x as i64, y: y as i64, z: z as i64 }
}

} // verus!
