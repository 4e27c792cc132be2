use geometrical_shapes::Circle;
use geometrical_shapes::GeometryError;
use geometrical_shapes::Point;
use geometrical_shapes::circle::num_points;

#[test]
fn circle_unit_radius_samples_six_points() {
    assert_eq!(num_points(1), 6);
}

#[test]
fn circle_sample_count_grows_with_radius() {
    // round(2 * 2*pi) = 13, round(10 * 2*pi) = 63.
    assert_eq!(num_points(2), 13);
    assert_eq!(num_points(10), 63);
}

#[test]
fn circle_rejects_zero_radius() {
    let res = Circle::new(Point::new(5, 5), 0);
    assert!(matches!(res, Err(GeometryError::NonPositiveRadius)));
}

#[test]
fn circle_rejects_negative_radius() {
    let res = Circle::new(Point::new(5, 5), -17);
    assert!(matches!(res, Err(GeometryError::NonPositiveRadius)));
}

#[test]
fn circle_accepts_positive_radius() {
    let c = Circle::new(Point::new(3, -4), 25).unwrap();
    assert_eq!(c.center, Point::new(3, -4));
    assert_eq!(c.radius, 25);
    assert!(c.color.r >= 1 && c.color.g >= 1 && c.color.b >= 1);
}

#[test]
fn circle_points_stay_within_radius_box() {
    let c = Circle::new(Point::new(10, 20), 5).unwrap();
    let pts = c.points();
    assert_eq!(pts.len() as u64, num_points(5));
    for p in pts.iter() {
        assert!((p.x - 10).abs() <= 5);
        assert!((p.y - 20).abs() <= 5);
    }
}

#[test]
fn circle_first_sample_lies_due_east() {
    // The quarter-wave is exact at the ends of a quadrant, so sample 0 of a
    // unit circle sits exactly one pixel east of the center.
    let c = Circle::new(Point::new(0, 0), 1).unwrap();
    let pts = c.points();
    assert_eq!(pts.len(), 6);
    assert_eq!((pts[0].x, pts[0].y), (1, 0));
}
