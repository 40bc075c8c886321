//! The spiral: the phase of its animation, and the polyline that each tick
//! produces from it.

use crate::camera::ProjectPoint;
use crate::curve::{d_theta, get_point, metric, spec_d_theta, spec_point};
use crate::curve::{lemma_d_theta_positive, lemma_d_theta_shrinks_along_curve};
use crate::curve::lemma_metric_lower_bound;
use crate::fixed::{ceil_div, div_floor, in_range, wide_product, ONE, ONE_SQUARED};
use crate::fixed::{lemma_ceil_div_bounds, lemma_int_sqrt_monotonic, lemma_int_sqrt_of_square};
use crate::fixed::lemma_product_bound;
use crate::line::{Line, ScreenLine};
use crate::shader::{alpha, spec_alpha, ALPHA_FLOOR};
use crate::tools::Color;
use crate::trig::HALF_TURN;
use vstd::prelude::*;

verus! {

/// The angle at which every curve starts.
pub const THETA_MIN: i64 = 0;

/// The angle at which every curve ends: four turns, 8 pi.
pub const THETA_MAX: i64 = 25_132_741;

/// The phase wraps at the period, which is the angle at which the curve ends.
pub const PERIOD: i64 = THETA_MAX;

/// The arc length by which a whole period shifts the start of the curve.
pub const LINE_SPACING: i64 = 125_000;

/// The arc length that one step covers: half the line spacing.
pub const LINE_LENGTH: i64 = 62_500;

/// The rise of every curve per radian: 1 / (2 pi).
pub const G_RATE: i64 = 159_155;

/// The growth per radian of a curve of pitch one: a third of the rate.
pub const G_FACTOR: i64 = 53_052;

/// The phase gained per second.
pub const SPEED: i64 = 12_000_000;

/// The largest growth per radian that a spiral can have: `LIMIT` times `G_FACTOR`.
pub const FACTOR_BOUND: i64 = 53_052_000;

/// The largest step between two segments: `LINE_LENGTH / G_RATE`.
pub const MAX_STEP: i64 = 392_699;

/// The phase after `dt` seconds: it grows by `dt * SPEED` and wraps at `PERIOD`.
pub open spec fn spec_advance(phase: int, dt: int) -> int {
    (phase + dt * SPEED / (ONE as int)) % (PERIOD as int)
}

/// The phase stays within one period, whatever it was and however much time
/// has passed.
pub proof fn lemma_advance_in_period(phase: int, dt: int)
    ensures
        0 <= spec_advance(phase, dt) < PERIOD,
{
}

/// The angle of the first segment: the phase moves it along the curve by up
/// to one line spacing.
pub open spec fn spec_start(phase: int, factor: int) -> int {
    THETA_MIN + spec_d_theta(
        THETA_MIN as int,
        LINE_SPACING * phase / (PERIOD as int),
        G_RATE as int,
        factor,
    )
}

/// The segment between two angles of a curve, shaded at its start.
pub open spec fn spec_line(theta_old: int, theta_end: int, factor: int, angle_offset: int)
    -> Line {
    let start = spec_point(theta_old, factor, angle_offset, G_RATE as int);
    Line {
        start,
        end: spec_point(theta_end, factor, angle_offset, G_RATE as int),
        alpha: spec_alpha(start, factor, G_RATE as int) as i64,
    }
}

/// The segments of a curve from `theta` on. Each step covers an arc of
/// `LINE_LENGTH`, and its segment runs from the angle before the step to the
/// middle of the step; a segment that would end before `THETA_MIN` is left
/// out. The polyline ends with the step that reaches `THETA_MAX`.
pub open spec fn spec_trace(theta: int, factor: int, angle_offset: int) -> Seq<Line>
    decreases THETA_MAX - theta,
{
    let next = theta + spec_d_theta(theta, LINE_LENGTH as int, G_RATE as int, factor);
    let theta_old = if theta >= THETA_MIN {
        theta
    } else {
        THETA_MIN as int
    };
    let theta_new = if next >= THETA_MIN {
        next
    } else {
        THETA_MIN as int
    };
    let theta_end = (theta_old + theta_new) / 2;
    let emitted = if theta_end < THETA_MIN {
        Seq::<Line>::empty()
    } else {
        seq![spec_line(theta_old, theta_end, factor, angle_offset)]
    };
    if next >= THETA_MAX {
        emitted
    } else {
        proof {
            lemma_step_bounds(theta, factor);
        }
        emitted + spec_trace(next, factor, angle_offset)
    }
}

/// The polyline of a spiral at a phase.
pub open spec fn spec_segments(angle_offset: int, factor: int, phase: int) -> Seq<Line> {
    spec_trace(spec_start(phase, factor), factor, angle_offset)
}

/// The least step that a spiral takes: the step at `THETA_MAX`, where the
/// curve is longest per radian.
pub open spec fn spec_least_step(factor: int) -> int {
    spec_d_theta(THETA_MAX as int, LINE_LENGTH as int, G_RATE as int, factor)
}

/// The most segments that the polyline of a spiral can have: one for every
/// least step between the first angle and `THETA_MAX`.
pub open spec fn spec_max_segments(phase: int, factor: int) -> int {
    (THETA_MAX - 1 - spec_start(phase, factor)) / spec_least_step(factor) + 1
}

/// Between `THETA_MIN` and `THETA_MAX` no step is smaller than the least step.
pub proof fn lemma_least_step(theta: int, factor: int)
    requires
        THETA_MIN <= theta <= THETA_MAX,
    ensures
        1 <= spec_least_step(factor) <= spec_d_theta(
            theta,
            LINE_LENGTH as int,
            G_RATE as int,
            factor,
        ),
{
    lemma_step_bounds(THETA_MAX as int, factor);
    lemma_d_theta_shrinks_along_curve(
        theta,
        THETA_MAX as int,
        LINE_LENGTH as int,
        G_RATE as int,
        factor,
    );
}

/// A spiral of pitch one or less has at most 540 segments, at every phase.
pub proof fn lemma_max_segments_at_unit_pitch(phase: int, factor: int)
    requires
        0 <= phase < PERIOD,
        -G_FACTOR <= factor <= G_FACTOR,
    ensures
        spec_least_step(factor) >= 46_545,
        spec_max_segments(phase, factor) <= 540,
{
    let rate = G_RATE as int;
    let theta = THETA_MAX as int;
    let ft = factor * theta;
    let n = rate * rate * ONE_SQUARED + ft * ft;
    let m = metric(theta, rate, factor);
    let top: int = 62_500_000_000_000_000;
    let most: nat = 1_342_807_384_206;
    lemma_metric_lower_bound(theta, rate, factor);
    lemma_product_bound(factor, theta, G_FACTOR as int, THETA_MAX as int);
    lemma_product_bound(ft, ft, G_FACTOR * THETA_MAX, G_FACTOR * THETA_MAX);
    assert(ft * ft >= 0) by (nonlinear_arith);
    assert(n <= most * most) by (nonlinear_arith)
        requires
            n == 159_155 * 159_155 * 1_000_000_000_000 + ft * ft,
            ft * ft <= (53_052 * 25_132_741) * (53_052 * 25_132_741),
            most == 1_342_807_384_206,
    ;
    lemma_int_sqrt_of_square(most);
    lemma_int_sqrt_monotonic(n as nat, most * most);
    let least = spec_least_step(factor);
    lemma_ceil_div_bounds(top, m);
    assert(least >= 46_545) by (nonlinear_arith)
        requires
            top <= least * m,
            0 < m <= 1_342_807_384_206,
            top == 62_500_000_000_000_000,
    ;
    lemma_start_bounds(phase, factor);
    let span = THETA_MAX - 1 - spec_start(phase, factor);
    assert(span / least <= 539) by (nonlinear_arith)
        requires
            0 <= span <= 25_132_740,
            least >= 46_545,
    ;
}

/// Every step of a spiral advances by at least one and at most `MAX_STEP`,
/// whatever the angle and the pitch.
pub proof fn lemma_step_bounds(theta: int, factor: int)
    ensures
        1 <= spec_d_theta(theta, LINE_LENGTH as int, G_RATE as int, factor) <= MAX_STEP,
{
    let rate = G_RATE as int;
    let m = metric(theta, rate, factor);
    let top: int = 62_500_000_000_000_000;
    lemma_metric_lower_bound(theta, rate, factor);
    lemma_d_theta_positive(theta, LINE_LENGTH as int, rate, factor);
    let c = ceil_div(top, m);
    assert(c == spec_d_theta(theta, LINE_LENGTH as int, rate, factor));
    lemma_ceil_div_bounds(top, m);
    assert(c <= 392_699) by (nonlinear_arith)
        requires
            (c - 1) * m < top,
            159_155_000_000 <= m,
            top == 62_500_000_000_000_000,
    ;
}

/// The first segment of a spiral starts at most an eighth of a turn past
/// `THETA_MIN`.
pub proof fn lemma_start_bounds(phase: int, factor: int)
    requires
        0 <= phase < PERIOD,
    ensures
        THETA_MIN <= spec_start(phase, factor) <= 785_398,
{
    let rate = G_RATE as int;
    let length = LINE_SPACING * phase / (PERIOD as int);
    assert(0 <= length < 125_000) by (nonlinear_arith)
        requires
            length == 125_000 * phase / 25_132_741,
            0 <= phase < 25_132_741,
    ;
    let base: nat = 159_155_000_000;
    assert(factor * 0 == 0) by (nonlinear_arith);
    assert(rate * rate * ONE_SQUARED + 0 * 0 == base * base) by (nonlinear_arith)
        requires
            rate == 159_155,
            ONE_SQUARED == 1_000_000_000_000,
            base == 159_155_000_000,
    ;
    lemma_int_sqrt_of_square(base);
    assert(metric(0, rate, factor) == base);
    lemma_ceil_div_bounds(length * ONE_SQUARED, base as int);
}

/// What a spiral is, as plain values.
pub struct SpiralView {
    pub foreground: Color,
    pub angle_offset: int,
    pub factor: int,
    pub phase_offset: int,
    pub segments: Seq<Line>,
}

/// One conical spiral: its colour, its place around the axis, its pitch, the
/// phase of its animation and the polyline of the last tick.
pub struct Spiral {
    foreground: Color,
    angle_offset: i64,
    factor: i64,
    phase_offset: i64,
    segments: Vec<Line>,
}

impl View for Spiral {
    type V = SpiralView;

    closed spec fn view(&self) -> SpiralView {
        SpiralView {
            foreground: self.foreground,
            angle_offset: self.angle_offset as int,
            factor: self.factor as int,
            phase_offset: self.phase_offset as int,
            segments: self.segments@,
        }
    }
}

impl SpiralView {
    /// The phase is within one period, and the growth within `FACTOR_BOUND`.
    pub open spec fn wf(self) -> bool {
        &&& 0 <= self.phase_offset < PERIOD
        &&& -FACTOR_BOUND <= self.factor <= FACTOR_BOUND
    }
}

impl Spiral {
    /// Every spiral is well-formed.
    #[verifier::type_invariant]
    closed spec fn inv(self) -> bool {
        self@.wf()
    }

    /// A spiral of colour `foreground`, turned about the axis by
    /// `angle_offset` half-turns, with `factor` times the common pitch.
    /// Its phase is zero and it has no segments yet.
    pub fn new(foreground: Color, angle_offset: i64, factor: i64) -> (spiral: Spiral)
        requires
            in_range(angle_offset as int),
            in_range(factor as int),
        ensures
            spiral@.foreground == foreground,
            spiral@.angle_offset == angle_offset * HALF_TURN / (ONE as int),
            spiral@.factor == factor * G_FACTOR / (ONE as int),
            spiral@.phase_offset == 0,
            spiral@.segments == Seq::<Line>::empty(),
            spiral@.wf(),
    {
        let turned: i128 = div_floor(wide_product(angle_offset, HALF_TURN), ONE as i128);
        let pitch: i128 = div_floor(wide_product(factor, G_FACTOR), ONE as i128);
        Spiral {
            foreground,
            angle_offset: turned as i64,
            factor: pitch as i64,
            phase_offset: 0,
            segments: Vec::new(),
        }
    }

    /// Advances the animation by `dt` seconds and replaces the polyline by
    /// that of the new phase.
    pub fn compute_segments(&mut self, dt: i64)
        requires
            dt >= 0,
        ensures
            final(self)@.foreground == old(self)@.foreground,
            final(self)@.angle_offset == old(self)@.angle_offset,
            final(self)@.factor == old(self)@.factor,
            final(self)@.phase_offset == spec_advance(old(self)@.phase_offset, dt as int),
            0 <= final(self)@.phase_offset < PERIOD,
            final(self)@.segments == spec_segments(
                final(self)@.angle_offset,
                final(self)@.factor,
                final(self)@.phase_offset,
            ),
            final(self)@.segments.len() <= spec_max_segments(
                final(self)@.phase_offset,
                final(self)@.factor,
            ),
            forall|i: int|
                0 <= i < final(self)@.segments.len() ==> ALPHA_FLOOR <= (
                #[trigger] final(self)@.segments[i]).alpha <= ONE,
            final(self)@.wf(),
    {
        proof {
            use_type_invariant(&*self);
            lemma_advance_in_period(self@.phase_offset, dt as int);
        }
        let gained: i128 = dt as i128 * SPEED as i128 / ONE as i128;
        let phase: i64 = ((self.phase_offset as i128 + gained) % PERIOD as i128) as i64;
        let factor: i64 = self.factor;
        let angle_offset: i64 = self.angle_offset;
        proof {
            lemma_start_bounds(phase as int, factor as int);
        }
        let start: i64 = THETA_MIN + d_theta(
            THETA_MIN,
            LINE_SPACING * phase / PERIOD,
            G_RATE,
            factor,
        );
        let ghost least = spec_least_step(factor as int);
        let mut segments: Vec<Line> = Vec::new();
        let mut theta: i64 = start;
        assert(0 * least == 0) by (nonlinear_arith);
        loop
            invariant_except_break
                THETA_MIN <= theta < THETA_MAX,
                segments@ + spec_trace(theta as int, factor as int, angle_offset as int)
                    == spec_trace(start as int, factor as int, angle_offset as int),
                segments@.len() * least <= theta - start,
            invariant
                -FACTOR_BOUND <= factor <= FACTOR_BOUND,
                THETA_MIN <= start,
                least == spec_least_step(factor as int),
                forall|i: int|
                    0 <= i < segments@.len() ==> ALPHA_FLOOR <= (#[trigger] segments@[i]).alpha
                        <= ONE,
            ensures
                segments@ == spec_trace(start as int, factor as int, angle_offset as int),
                segments@.len() <= (THETA_MAX - 1 - start) / least + 1,
            decreases THETA_MAX - theta,
        {
            proof {
                lemma_step_bounds(theta as int, factor as int);
                lemma_least_step(theta as int, factor as int);
            }
            let ghost before = segments@;
            assert(before.len() <= (THETA_MAX - 1 - start) / least) by (nonlinear_arith)
                requires
                    before.len() * least <= theta - start,
                    theta <= THETA_MAX - 1,
                    least >= 1,
            ;
            assert((before.len() + 1) * least == before.len() * least + least)
                by (nonlinear_arith);
            let theta_old: i64 = if theta >= THETA_MIN {
                theta
            } else {
                THETA_MIN
            };
            let next: i64 = theta + d_theta(theta, LINE_LENGTH, G_RATE, factor);
            let theta_new: i64 = if next >= THETA_MIN {
                next
            } else {
                THETA_MIN
            };
            let theta_end: i64 = (theta_old + theta_new) / 2;
            if theta_end >= THETA_MIN {
                let first = get_point(theta_old, factor, angle_offset, G_RATE);
                let second = get_point(theta_end, factor, angle_offset, G_RATE);
                let shade = alpha(&first, factor, G_RATE);
                segments.push(Line { start: first, end: second, alpha: shade });
                assert(segments@ =~= before + seq![
                    spec_line(
                        theta_old as int,
                        theta_end as int,
                        factor as int,
                        angle_offset as int,
                    ),
                ]);
            }
            if next >= THETA_MAX {
                assert(segments@ =~= before + spec_trace(
                    theta as int,
                    factor as int,
                    angle_offset as int,
                ));
                break ;
            }
            assert(segments@ + spec_trace(next as int, factor as int, angle_offset as int)
                =~= before + spec_trace(theta as int, factor as int, angle_offset as int));
            theta = next;
        }
        self.phase_offset = phase;
        self.segments = segments;
    }

    /// The polyline as `camera` sees it, in order and in the colours to draw
    /// it with. Segments with an end that has no projection are left out.
    pub fn render<U: ProjectPoint>(&self, camera: &U) -> (lines: Vec<ScreenLine>)
        ensures
            lines@ == spec_render(self@.segments, camera, self@.foreground),
    {
        let mut lines: Vec<ScreenLine> = Vec::new();
        let mut i: usize = 0;
        while i < self.segments.len()
            invariant
                i <= self.segments.len(),
                lines@ == spec_render(self.segments@.take(i as int), camera, self.foreground),
            decreases self.segments.len() - i,
        {
            let ghost prefix = self.segments@.take(i + 1);
            assert(prefix.drop_last() =~= self.segments@.take(i as int));
            assert(prefix.last() == self.segments@[i as int]);
            match self.segments[i].draw(camera, self.foreground) {
                Some(line) => {
                    lines.push(line);
                },
                None => {},
            }
            i = i + 1;
        }
        assert(self.segments@.take(i as int) =~= self.segments@);
        lines
    }

    /// The phase of the animation, in `[0, PERIOD)`.
    pub fn phase_offset(&self) -> (phase: i64)
        ensures
            phase == self@.phase_offset,
            0 <= phase < PERIOD,
    {
        proof {
            use_type_invariant(self);
        }
        self.phase_offset
    }

    /// The polyline of the last tick.
    pub fn segments(&self) -> (segments: &Vec<Line>)
        ensures
            segments@ == self@.segments,
    {
        &self.segments
    }

    /// The colour of the curve where it is opaque.
    pub fn foreground(&self) -> (color: Color)
        ensures
            color == self@.foreground,
    {
        self.foreground
    }

    /// The angle by which the curve is turned about its axis.
    pub fn angle_offset(&self) -> (angle: i64)
        ensures
            angle == self@.angle_offset,
    {
        self.angle_offset
    }

    /// The growth of the curve's radius per radian.
    pub fn factor(&self) -> (factor: i64)
        ensures
            factor == self@.factor,
            -FACTOR_BOUND <= factor <= FACTOR_BOUND,
    {
        proof {
            use_type_invariant(self);
        }
        self.factor
    }
}

/// The segments that a camera can show, each as `Line::draw` gives it, in
/// the order of the polyline.
pub open spec fn spec_render<U: ProjectPoint>(segments: Seq<Line>, camera: &U, color: Color)
    -> Seq<ScreenLine>
    decreases segments.len(),
{
    if segments.len() == 0 {
        Seq::<ScreenLine>::empty()
    } else {
        let rest = spec_render(segments.drop_last(), camera, color);
        match segments.last().spec_draw(camera, color) {
            Some(line) => rest.push(line),
            None => rest,
        }
    }
}

} // verus!
