//! Animated conical spirals in perspective, computed in fixed-point arithmetic.
//!
//! Every quantity (angles in radians, seconds, world and screen coordinates,
//! opacities) is an integer count of millionths, so that each result can be
//! stated exactly. A host converts its own numbers at the boundary, calls
//! `Spiral::compute_segments` once per frame and draws what `Spiral::render`
//! returns.

pub mod camera;
pub mod curve;
pub mod fixed;
pub mod line;
pub mod point;
pub mod shader;
pub mod spiral;
pub mod tools;
pub mod trig;
