//! Points in world space and on the screen.

use vstd::prelude::*;

verus! {

/// A position in world space, each coordinate in millionths of a unit.
#[derive(Clone, Copy, Debug, PartialEq, Eq, Structural)]
pub struct Point3d {
    pub x: i64,
    pub y: i64,
    pub z: i64,
}

/// A position on the screen, each coordinate in millionths of a pixel.
#[derive(Clone, Copy, Debug, PartialEq, Eq, Structural)]
pub struct Point2d {
    pub x: i64,
    pub y: i64,
}

} // verus!
