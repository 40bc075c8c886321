use spirals::camera::{Camera, ProjectPoint, MAX_DIMENSION};
use spirals::point::{Point2d, Point3d};

fn portrait_camera() -> Camera {
    Camera::new(480_000_000, 800_000_000, 1_000_000, 2_100_000, -5_000_000)
}

#[test]
fn new_halves_the_viewport_and_scales_by_the_larger_side() {
    let camera = portrait_camera();
    assert_eq!(camera.x_offset(), 240_000_000);
    assert_eq!(camera.y_offset(), 400_000_000);
    assert_eq!(camera.scale(), 800_000_000);
}

#[test]
fn new_divides_the_scale_by_the_zoom() {
    let camera = Camera::new(1_024_000_000, 768_000_000, 2_000_000, 0, -1);
    assert_eq!(camera.scale(), 512_000_000);
    let camera = Camera::new(1_024_000_000, 768_000_000, 3_000_000, 0, -1);
    assert_eq!(camera.scale(), 341_333_333);
    let camera = Camera::new(1_024_000_000, 768_000_000, -3_000_000, 0, -1);
    assert_eq!(camera.scale(), -341_333_334);
    let camera = Camera::new(5, 3, 1_000_000, 0, 0);
    assert_eq!((camera.x_offset(), camera.y_offset(), camera.scale()), (2, 1, 5));
}

#[test]
fn new_accepts_the_largest_viewport_and_the_smallest_zoom() {
    let camera = Camera::new(MAX_DIMENSION, 1, 1, 0, 0);
    assert_eq!(camera.scale(), 1_000_000_000_000_000_000);
    assert_eq!(camera.x_offset(), 500_000_000_000);
    assert_eq!(camera.y_offset(), 0);
    let camera = Camera::new(1, MAX_DIMENSION, -1, 0, 0);
    assert_eq!(camera.scale(), -1_000_000_000_000_000_000);
}

#[test]
fn a_point_at_the_cameras_height_on_its_axis_maps_to_the_screen_centre() {
    let camera = portrait_camera();
    let screen = camera.project(&Point3d { x: 0, y: 2_100_000, z: 0 });
    assert_eq!(screen, Some(Point2d { x: 240_000_000, y: 400_000_000 }));
}

#[test]
fn project_applies_the_perspective_divide() {
    let camera = portrait_camera();
    assert_eq!(
        camera.project(&Point3d { x: 1_000_000, y: 0, z: 0 }),
        Some(Point2d { x: 400_000_000, y: 64_000_000 })
    );
    assert_eq!(
        camera.project(&Point3d { x: -1_000_000, y: 3_000_000, z: -4_000_000 }),
        Some(Point2d { x: -560_000_000, y: 1_120_000_000 })
    );
}

#[test]
fn project_rounds_down_on_both_sides_of_zero() {
    let camera = Camera::new(10, 10, 1_428_571, 1, 0);
    assert_eq!(camera.scale(), 7);
    assert_eq!(
        camera.project(&Point3d { x: -1_000_000, y: 0, z: -3_000_000 }),
        Some(Point2d { x: 5 + 2, y: 5 })
    );
    let camera = Camera::new(10, 10, 1, 1, 0);
    assert_eq!(camera.scale(), 10_000_000);
    assert_eq!(
        camera.project(&Point3d { x: -1_000_000, y: 1, z: -3_000_000 }),
        Some(Point2d { x: 3_333_338, y: 5 })
    );
    assert_eq!(
        camera.project(&Point3d { x: 1_000_000, y: 1, z: -3_000_000 }),
        Some(Point2d { x: -3_333_329, y: 5 })
    );
    assert_eq!(
        camera.project(&Point3d { x: 1_000_000, y: 1, z: 3_000_000 }),
        Some(Point2d { x: 3_333_338, y: 5 })
    );
}

#[test]
fn a_point_at_the_cameras_depth_has_no_projection() {
    let camera = portrait_camera();
    assert_eq!(camera.project(&Point3d { x: 0, y: 0, z: -5_000_000 }), None);
    assert_eq!(camera.project(&Point3d { x: 7, y: 9, z: -5_000_000 }), None);
    assert!(camera.project(&Point3d { x: 7, y: 9, z: -4_999_999 }).is_some());
}

#[test]
fn a_projection_beyond_the_screens_range_is_none() {
    let camera = Camera::new(MAX_DIMENSION, MAX_DIMENSION, 1, 0, 0);
    assert_eq!(camera.project(&Point3d { x: i64::MAX, y: 0, z: 1 }), None);
    assert_eq!(camera.project(&Point3d { x: 0, y: i64::MIN, z: 1 }), None);
    assert_eq!(camera.project(&Point3d { x: 10, y: 0, z: 1 }), None);
    assert_eq!(
        camera.project(&Point3d { x: 9, y: -9, z: 1 }),
        Some(Point2d { x: 9_000_000_500_000_000_000, y: -8_999_999_500_000_000_000 })
    );
    assert_eq!(
        camera.project(&Point3d { x: i64::MAX, y: i64::MIN, z: i64::MAX }),
        Some(Point2d { x: 1_000_000_500_000_000_000, y: -999_999_500_000_000_001 })
    );
}

#[test]
fn project_is_a_function_of_camera_and_point() {
    let a = portrait_camera();
    let b = portrait_camera();
    let mut x: i64 = -3_000_000;
    while x <= 3_000_000 {
        let p = Point3d { x, y: 2 * x + 1, z: x / 3 };
        assert_eq!(a.project(&p), b.project(&p));
        assert_eq!(a.project(&p), a.project(&p));
        x += 250_001;
    }
}

#[test]
fn resize_recomputes_offsets_and_scale() {
    let mut camera = portrait_camera();
    camera.resize(1_920_000_000, 1_080_000_000);
    assert_eq!(camera.x_offset(), 960_000_000);
    assert_eq!(camera.y_offset(), 540_000_000);
    assert_eq!(camera.scale(), 1_920_000_000);
    assert_eq!(
        camera.project(&Point3d { x: 0, y: 2_100_000, z: 0 }),
        Some(Point2d { x: 960_000_000, y: 540_000_000 })
    );
}

#[test]
fn resize_by_less_than_a_pixel_still_takes_effect() {
    let mut camera = portrait_camera();
    camera.resize(480_500_000, 800_400_000);
    assert_eq!(camera.x_offset(), 240_250_000);
    assert_eq!(camera.y_offset(), 400_200_000);
    assert_eq!(camera.scale(), 800_400_000);
}

#[test]
fn resize_keeps_zoom_and_position() {
    let mut camera = Camera::new(100_000_000, 100_000_000, 4_000_000, 2_100_000, -5_000_000);
    camera.resize(200_000_000, 100_000_000);
    assert_eq!(camera.scale(), 50_000_000);
    let fresh = Camera::new(200_000_000, 100_000_000, 4_000_000, 2_100_000, -5_000_000);
    let p = Point3d { x: 123_456, y: -654_321, z: 1_000_001 };
    assert_eq!(camera.project(&p), fresh.project(&p));
}

#[test]
fn resize_twice_is_resize_once() {
    let mut camera = portrait_camera();
    camera.resize(640_000_000, 360_000_000);
    let once = (camera.x_offset(), camera.y_offset(), camera.scale());
    camera.resize(640_000_000, 360_000_000);
    assert_eq!((camera.x_offset(), camera.y_offset(), camera.scale()), once);
    assert_eq!(once, (320_000_000, 180_000_000, 640_000_000));
}

#[test]
fn resize_to_the_same_viewport_changes_nothing() {
    let mut camera = portrait_camera();
    camera.resize(480_000_000, 800_000_000);
    assert_eq!(
        (camera.x_offset(), camera.y_offset(), camera.scale()),
        (240_000_000, 400_000_000, 800_000_000)
    );
}
