//! Segments of a polyline, in the world and on the screen.

use crate::camera::ProjectPoint;
use crate::point::{Point2d, Point3d};
use crate::tools::{Color, Lerp};
use vstd::prelude::*;

verus! {

/// One segment of a curve in world space, with its opacity in millionths.
#[derive(Clone, Copy, Debug, PartialEq, Eq, Structural)]
pub struct Line {
    pub start: Point3d,
    pub end: Point3d,
    pub alpha: i64,
}

/// One segment on the screen, in the colour it is drawn with.
#[derive(Clone, Copy, Debug, PartialEq, Eq, Structural)]
pub struct ScreenLine {
    pub start: Point2d,
    pub end: Point2d,
    pub color: Color,
}

impl Line {
    /// What `draw` returns: both ends projected, and `color` faded toward
    /// black by the segment's opacity; nothing where an end has no projection.
    pub open spec fn spec_draw<U: ProjectPoint>(self, camera: &U, color: Color) -> Option<
        ScreenLine,
    > {
        match (camera.spec_project(self.start), camera.spec_project(self.end)) {
            (Some(start), Some(end)) => Some(
                ScreenLine {
                    start,
                    end,
                    color: Color::spec_black().spec_lerp(&color, self.alpha as int),
                },
            ),
            _ => None,
        }
    }

    /// The segment as the camera sees it, ready to be drawn, or `None` where
    /// it must be skipped.
    pub fn draw<U: ProjectPoint>(&self, camera: &U, color: Color) -> (drawn: Option<ScreenLine>)
        ensures
            drawn == self.spec_draw(camera, color),
    {
        let start = camera.project(&self.start);
        let end = camera.project(&self.end);
        match (start, end) {
            (Some(start), Some(end)) => Some(
                ScreenLine { start, end, color: Color::black().lerp(&color, self.alpha) },
            ),
            _ => None,
        }
    }
}

} // verus!
