use blueprint2mod::blueprint::ImagePoint;
use blueprint2mod::scale::{pixel_distance_sq, validate_scale_points, ScaleError};

fn pt(x: u32, y: u32) -> ImagePoint {
    ImagePoint { x, y }
}

#[test]
fn rejects_identical_points() {
    let result = validate_scale_points(pt(10, 10), pt(10, 10), 3.66 > 0.0, 800, 600);
    assert!(result.is_err());
    assert!(result.unwrap_err().message().contains("distinct"));
}

#[test]
fn rejects_zero_distance() {
    let result = validate_scale_points(pt(10, 10), pt(100, 10), 0.0 > 0.0, 800, 600);
    assert!(result.is_err());
    assert!(result.unwrap_err().message().contains("greater than zero"));
}

#[test]
fn rejects_negative_distance() {
    let result = validate_scale_points(pt(10, 10), pt(100, 10), -1.0 > 0.0, 800, 600);
    assert!(result.is_err());
}

#[test]
fn rejects_out_of_bounds_point_a() {
    let result = validate_scale_points(pt(900, 10), pt(100, 10), 3.0 > 0.0, 800, 600);
    assert!(result.is_err());
    assert!(result.unwrap_err().message().contains("outside image bounds"));
}

#[test]
fn rejects_out_of_bounds_point_b() {
    let result = validate_scale_points(pt(10, 10), pt(100, 700), 3.0 > 0.0, 800, 600);
    assert!(result.is_err());
    assert!(result.unwrap_err().message().contains("outside image bounds"));
}

#[test]
fn first_failing_check_is_reported() {
    assert_eq!(validate_scale_points(pt(10, 10), pt(10, 10), false, 5, 5), Err(ScaleError::NotDistinct));
    assert_eq!(
        validate_scale_points(pt(900, 10), pt(100, 10), false, 800, 600),
        Err(ScaleError::NonPositiveDistance)
    );
    assert_eq!(
        validate_scale_points(pt(900, 10), pt(100, 700), true, 800, 600),
        Err(ScaleError::PointAOutside { x: 900, y: 10, width: 800, height: 600 })
    );
    assert_eq!(validate_scale_points(pt(0, 0), pt(799, 599), true, 800, 600), Ok(()));
}

#[test]
fn bounds_message_text() {
    let e = ScaleError::PointBOutside { x: 100, y: 700, width: 800, height: 600 };
    assert_eq!(e.message(), "point_b (100,700) is outside image bounds 800\u{d7}600");
    let e = ScaleError::PointAOutside { x: 0, y: 0, width: 0, height: 10 };
    assert_eq!(e.message(), "point_a (0,0) is outside image bounds 0\u{d7}10");
}

#[test]
fn squared_pixel_distance() {
    assert_eq!(pixel_distance_sq(pt(100, 300), pt(420, 300)), 102_400);
    assert_eq!(pixel_distance_sq(pt(3, 0), pt(0, 4)), 25);
    assert_eq!(pixel_distance_sq(pt(0, 0), pt(u32::MAX, u32::MAX)), 2 * (u32::MAX as u128) * (u32::MAX as u128));
    let ppu = (pixel_distance_sq(pt(100, 300), pt(420, 300)) as f64).sqrt() / 3.66;
    assert!((ppu - 87.43).abs() < 0.01);
}
