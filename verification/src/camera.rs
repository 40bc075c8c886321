//! The perspective camera: it projects points of the world onto the screen.

use crate::fixed::{div_floor, floor_div, ONE};
use crate::fixed::{lemma_floor_div_bounds, lemma_floor_div_magnitude, lemma_product_bound};
use crate::point::{Point2d, Point3d};
use vstd::prelude::*;

verus! {

/// The largest width or height of a viewport: a million pixels.
pub const MAX_DIMENSION: i64 = 1_000_000_000_000;

/// Anything that maps a point of the world to a point of the screen.
pub trait ProjectPoint {
    /// The screen position of `point`, or `None` where it has none.
    spec fn spec_project(&self, point: Point3d) -> Option<Point2d>;

    /// Projects `point`. The result depends on nothing but the projector's
    /// state and the point.
    fn project(&self, point: &Point3d) -> (screen: Option<Point2d>)
        ensures
            screen == self.spec_project(*point),
    ;
}

/// What a camera is, as plain numbers.
pub struct CameraView {
    pub x_offset: int,
    pub y_offset: int,
    pub scale: int,
    pub zoom: int,
    pub y_camera: int,
    pub z_camera: int,
    pub width: int,
    pub height: int,
}

/// Whether a viewport's dimensions are positive and not beyond `MAX_DIMENSION`.
pub open spec fn valid_viewport(width: int, height: int) -> bool {
    0 < width <= MAX_DIMENSION && 0 < height <= MAX_DIMENSION
}

/// The camera for a viewport: the offsets are half the dimensions, the scale
/// is the larger dimension divided by the zoom.
pub open spec fn spec_camera(width: int, height: int, zoom: int, y_pos: int, z_pos: int)
    -> CameraView {
    CameraView {
        x_offset: width / 2,
        y_offset: height / 2,
        scale: floor_div((if width >= height { width } else { height }) * ONE, zoom),
        zoom,
        y_camera: y_pos,
        z_camera: z_pos,
        width,
        height,
    }
}

/// One screen coordinate: `offset + scale * numerator / depth`.
pub open spec fn screen_coordinate(offset: int, scale: int, numerator: int, depth: int) -> int {
    offset + floor_div(scale * numerator, depth)
}

impl CameraView {
    /// The offsets and the scale are those that the viewport and the zoom give.
    pub open spec fn consistent(self) -> bool {
        &&& valid_viewport(self.width, self.height)
        &&& self.zoom != 0
        &&& self == spec_camera(self.width, self.height, self.zoom, self.y_camera, self.z_camera)
    }

    /// The camera after its viewport has changed: zoom and position stay.
    pub open spec fn resized(self, width: int, height: int) -> CameraView {
        spec_camera(width, height, self.zoom, self.y_camera, self.z_camera)
    }

    /// The perspective projection of `p`:
    /// `x_offset + scale * p.x / (p.z - z_camera)` and
    /// `y_offset + scale * (p.y - y_camera) / (p.z - z_camera)`.
    /// A point at the camera's own depth has no projection, nor has one whose
    /// projection is too large for a screen coordinate.
    pub open spec fn project(self, p: Point3d) -> Option<Point2d> {
        let depth = p.z - self.z_camera;
        let x = screen_coordinate(self.x_offset, self.scale, p.x as int, depth);
        let y = screen_coordinate(self.y_offset, self.scale, p.y - self.y_camera, depth);
        if depth != 0 && i64::MIN <= x <= i64::MAX && i64::MIN <= y <= i64::MAX {
            Some(Point2d { x: x as i64, y: y as i64 })
        } else {
            None
        }
    }
}

/// Resizing twice to the same viewport is resizing once.
pub proof fn lemma_resize_idempotent(camera: CameraView, width: int, height: int)
    ensures
        camera.resized(width, height).resized(width, height) == camera.resized(width, height),
{
}

/// The scale of a camera on a valid viewport is at most a million times the
/// largest dimension.
proof fn lemma_scale_bound(width: int, height: int, zoom: int)
    requires
        valid_viewport(width, height),
        zoom != 0,
    ensures
        -1_000_000_000_000_000_000 <= spec_camera(width, height, zoom, 0, 0).scale
            <= 1_000_000_000_000_000_000,
{
    let larger = if width >= height {
        width
    } else {
        height
    };
    let n = larger * ONE;
    let q = floor_div(n, zoom);
    lemma_floor_div_bounds(n, zoom);
    if zoom > 0 {
        assert(0 <= q <= n) by (nonlinear_arith)
            requires
                q * zoom <= n < (q + 1) * zoom,
                zoom >= 1,
                n >= 0,
        ;
    } else {
        assert(-n <= q <= 0) by (nonlinear_arith)
            requires
                q * zoom >= n > (q + 1) * zoom,
                zoom <= -1,
                n >= 0,
        ;
    }
}

/// A perspective camera on a viewport.
pub struct Camera {
    x_offset: i64,
    y_offset: i64,
    scale: i64,
    zoom: i64,
    y_camera: i64,
    z_camera: i64,
    width: i64,
    height: i64,
}

impl View for Camera {
    type V = CameraView;

    closed spec fn view(&self) -> CameraView {
        CameraView {
            x_offset: self.x_offset as int,
            y_offset: self.y_offset as int,
            scale: self.scale as int,
            zoom: self.zoom as int,
            y_camera: self.y_camera as int,
            z_camera: self.z_camera as int,
            width: self.width as int,
            height: self.height as int,
        }
    }
}

impl Camera {
    /// Every camera is consistent: its offsets are half its viewport, and its
    /// scale is the larger dimension divided by the zoom.
    #[verifier::type_invariant]
    closed spec fn inv(self) -> bool {
        self@.consistent()
    }

    /// A camera on a viewport of `width` by `height`, at height `y_pos` and
    /// depth `z_pos`.
    pub fn new(width: i64, height: i64, zoom: i64, y_pos: i64, z_pos: i64) -> (camera: Camera)
        requires
            valid_viewport(width as int, height as int),
            zoom != 0,
        ensures
            camera@ == spec_camera(
                width as int,
                height as int,
                zoom as int,
                y_pos as int,
                z_pos as int,
            ),
            camera@.consistent(),
    {
        let larger: i64 = if width >= height {
            width
        } else {
            height
        };
        proof {
            lemma_scale_bound(width as int, height as int, zoom as int);
        }
        let scale: i128 = div_floor(larger as i128 * ONE as i128, zoom as i128);
        Camera {
            x_offset: width / 2,
            y_offset: height / 2,
            scale: scale as i64,
            zoom,
            y_camera: y_pos,
            z_camera: z_pos,
            width,
            height,
        }
    }

    /// Fits the camera to a new viewport. Zoom and position are unchanged,
    /// and a second call with the same viewport changes nothing.
    pub fn resize(&mut self, width: i64, height: i64)
        requires
            valid_viewport(width as int, height as int),
        ensures
            final(self)@ == old(self)@.resized(width as int, height as int),
            final(self)@.resized(width as int, height as int) == final(self)@,
            final(self)@.consistent(),
    {
        proof {
            use_type_invariant(&*self);
        }
        if width == self.width && height == self.height {
            return ;
        }
        *self = Camera::new(width, height, self.zoom, self.y_camera, self.z_camera);
    }

    /// The horizontal screen offset: half the viewport's width.
    pub fn x_offset(&self) -> (v: i64)
        ensures
            v == self@.x_offset,
            self@.consistent(),
    {
        proof {
            use_type_invariant(self);
        }
        self.x_offset
    }

    /// The vertical screen offset: half the viewport's height.
    pub fn y_offset(&self) -> (v: i64)
        ensures
            v == self@.y_offset,
            self@.consistent(),
    {
        proof {
            use_type_invariant(self);
        }
        self.y_offset
    }

    /// The scale: the viewport's larger dimension divided by the zoom.
    pub fn scale(&self) -> (v: i64)
        ensures
            v == self@.scale,
            self@.consistent(),
    {
        proof {
            use_type_invariant(self);
        }
        self.scale
    }
}

impl ProjectPoint for Camera {
    open spec fn spec_project(&self, point: Point3d) -> Option<Point2d> {
        self@.project(point)
    }

    fn project(&self, point: &Point3d) -> (screen: Option<Point2d>) {
        proof {
            use_type_invariant(self);
            lemma_scale_bound(self@.width, self@.height, self@.zoom);
        }
        let depth: i128 = point.z as i128 - self.z_camera as i128;
        if depth == 0 {
            return None;
        }
        let rise: i128 = point.y as i128 - self.y_camera as i128;
        proof {
            lemma_product_bound(
                self.scale as int,
                point.x as int,
                1_000_000_000_000_000_000,
                0x1_0000_0000_0000_0000,
            );
            lemma_product_bound(
                self.scale as int,
                rise as int,
                1_000_000_000_000_000_000,
                0x1_0000_0000_0000_0000,
            );
            lemma_floor_div_magnitude(
                self.scale * point.x,
                depth as int,
                1_000_000_000_000_000_000int * 0x1_0000_0000_0000_0000int,
            );
            lemma_floor_div_magnitude(
                self.scale * rise,
                depth as int,
                1_000_000_000_000_000_000int * 0x1_0000_0000_0000_0000int,
            );
        }
        let x: i128 = self.x_offset as i128 + div_floor(
            self.scale as i128 * point.x as i128,
            depth,
        );
        let y: i128 = self.y_offset as i128 + div_floor(self.scale as i128 * rise, depth);
        if x < i64::MIN as i128 || x > i64::MAX as i128 || y < i64::MIN as i128 || y
            > i64::MAX as i128 {
            return None;
        }
        Some(Point2d { x: x as i64, y: y as i64 })
    }
}

} // verus!
