//! The depth cue: the opacity of a point of a curve, by which the tail of a
//! spiral fades into the background.

use crate::fixed::{div_floor, lemma_floor_div_bounds, wide_product, ONE};
use crate::point::Point3d;
use crate::trig::{atan, spec_atan, QUARTER_TURN};
use crate::trig::{lemma_atan_monotonic, lemma_atan_range, lemma_atan_saturates};
use vstd::prelude::*;

verus! {

/// The number whose arctangent shades a point:
/// `(y * factor / rate * 0.1 + 0.02 - z) * 40`.
pub open spec fn shade_argument(p: Point3d, factor: int, rate: int) -> int {
    ((p.y * factor) / rate / 10 + 20_000 - p.z) * 40
}

/// The opacity of a point: `min(1, atan(shade_argument) * 0.35 + 0.65)`.
pub open spec fn spec_alpha(p: Point3d, factor: int, rate: int) -> int {
    let a = spec_atan(shade_argument(p, factor, rate)) * 35 / 100 + 650_000;
    if a > ONE {
        ONE as int
    } else {
        a
    }
}

/// The lowest opacity that any point can have: `0.65 - 0.35 * pi / 2`.
pub const ALPHA_FLOOR: i64 = 100_221;

/// The opacity of a point never exceeds one, and never falls below
/// `ALPHA_FLOOR`, wherever the point lies and whatever the curve.
pub proof fn lemma_alpha_range(p: Point3d, factor: int, rate: int)
    ensures
        ALPHA_FLOOR <= spec_alpha(p, factor, rate) <= ONE,
{
    lemma_atan_range(shade_argument(p, factor, rate));
}

/// Of two points at one height, the one further along the depth axis is not
/// the more opaque.
pub proof fn lemma_alpha_falls_with_depth(near: Point3d, far: Point3d, factor: int, rate: int)
    requires
        near.y == far.y,
        near.z <= far.z,
    ensures
        spec_alpha(far, factor, rate) <= spec_alpha(near, factor, rate),
{
    lemma_atan_monotonic(shade_argument(far, factor, rate), shade_argument(near, factor, rate));
}

/// The least number whose arctangent is one radian: the tangent of one.
pub const FULL_SHADE: i64 = 1_557_407;

/// A point is fully opaque exactly where the number that shades it is at
/// least the tangent of one.
pub proof fn lemma_alpha_is_one(p: Point3d, factor: int, rate: int)
    ensures
        spec_alpha(p, factor, rate) == ONE <==> shade_argument(p, factor, rate) >= FULL_SHADE,
{
    let t = shade_argument(p, factor, rate);
    lemma_atan_at_full_shade();
    if t >= FULL_SHADE {
        lemma_atan_monotonic(FULL_SHADE as int, t);
    } else {
        lemma_atan_monotonic(t, FULL_SHADE - 1);
    }
}

/// The arctangent reaches one radian at `FULL_SHADE` and not before.
proof fn lemma_atan_at_full_shade()
    ensures
        spec_atan(FULL_SHADE as int) == 1_000_000,
        spec_atan(FULL_SHADE - 1) == 999_999,
{
    assert(1_000_000_000_000int / 1_557_407 == 642_092);
    assert(1_000_000_000_000int / 1_557_406 == 642_093);
    assert((1_000_000int - 642_092) * 1_000_000 / (1_000_000int + 642_092) == 217_958);
    assert((1_000_000int - 642_093) * 1_000_000 / (1_000_000int + 642_093) == 217_957);
    assert(217_958int * 217_958 == 47_505_689_764);
    assert(217_957int * 217_957 == 47_505_253_849);
}

/// The depth cue of a point: the opacity never exceeds one, never falls
/// below `ALPHA_FLOOR`, and never rises along the depth axis.
pub fn alpha(p: &Point3d, factor: i64, rate: i64) -> (a: i64)
    requires
        rate > 0,
    ensures
        a == spec_alpha(*p, factor as int, rate as int),
        ALPHA_FLOOR <= a <= ONE,
{
    let yf: i128 = wide_product(p.y, factor);
    let tilt: i128 = div_floor(yf, rate as i128);
    proof {
        lemma_alpha_range(*p, factor as int, rate as int);
        lemma_floor_div_bounds(yf as int, rate as int);
        assert(-0x4000_0000_0000_0000_0000_0000_0000_0000 <= tilt
            <= 0x4000_0000_0000_0000_0000_0000_0000_0000) by (nonlinear_arith)
            requires
                tilt * rate <= yf < (tilt + 1) * rate,
                rate >= 1,
                -0x4000_0000_0000_0000_0000_0000_0000_0000 <= yf
                    <= 0x4000_0000_0000_0000_0000_0000_0000_0000,
        ;
    }
    let depth: i128 = div_floor(tilt, 10) + 20_000 - p.z as i128;
    let angle: i64 = if depth > 25_000_000_000 {
        proof {
            lemma_atan_saturates(depth * 40);
        }
        QUARTER_TURN
    } else if depth < -25_000_000_000 {
        proof {
            lemma_atan_saturates(-(depth * 40));
        }
        -QUARTER_TURN
    } else {
        atan((depth * 40) as i64)
    };
    let shade: i128 = div_floor(angle as i128 * 35, 100) + 650_000;
    if shade > ONE as i128 {
        ONE
    } else {
        shade as i64
    }
}

} // verus!
