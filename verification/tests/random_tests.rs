use geometrical_shapes::Circle;
use geometrical_shapes::Line;
use geometrical_shapes::Point;
use geometrical_shapes::Rectangle;
use geometrical_shapes::Triangle;

fn in_canvas(p: &Point, w: i32, h: i32) -> bool {
    0 <= p.x && p.x < w && 0 <= p.y && p.y < h
}

#[test]
fn random_points_stay_in_canvas() {
    for _ in 0..50 {
        let p = Point::random(7, 5);
        assert!(in_canvas(&p, 7, 5));
    }
}

#[test]
fn random_point_in_unit_canvas_is_origin() {
    for _ in 0..10 {
        let p = Point::random(1, 1);
        assert_eq!(p, Point::new(0, 0));
    }
}

#[test]
fn random_lines_stay_in_canvas() {
    for _ in 0..50 {
        let l = Line::random(12, 9);
        assert!(in_canvas(&l.start, 12, 9));
        assert!(in_canvas(&l.end, 12, 9));
        assert!(l.color.r >= 1 && l.color.g >= 1 && l.color.b >= 1);
    }
}

#[test]
fn random_circles_stay_in_canvas_with_radius_range() {
    for _ in 0..50 {
        let c = Circle::random(40, 30);
        assert!(in_canvas(&c.center, 40, 30));
        assert!(20 <= c.radius && c.radius < 350);
    }
}

#[test]
fn random_rectangles_stay_in_canvas() {
    for _ in 0..50 {
        let r = Rectangle::random(15, 11);
        for p in r.points.iter() {
            assert!(in_canvas(p, 15, 11));
        }
    }
}

#[test]
fn random_triangles_stay_in_canvas() {
    for _ in 0..50 {
        let t = Triangle::random(15, 11);
        for p in t.points.iter() {
            assert!(in_canvas(p, 15, 11));
        }
    }
}

#[test]
fn random_coordinates_vary_between_constructions() {
    // Were the randomness capability to hand back the lower bound of its
    // range unchanged, every random point would be the origin.
    let mut seen_off_origin = false;
    for _ in 0..40 {
        let p = Point::random(1000, 1000);
        if p.x > 0 || p.y > 0 {
            seen_off_origin = true;
        }
    }
    assert!(seen_off_origin);
}

#[test]
fn random_colors_vary_between_constructions() {
    // Were the randomness capability to hand back the lower bound of its
    // range unchanged, every channel of every color would be 1.
    let mut seen_above_floor = false;
    for _ in 0..30 {
        let l = Line::new(Point::new(0, 0), Point::new(1, 1));
        if l.color.r > 1 || l.color.g > 1 || l.color.b > 1 {
            seen_above_floor = true;
        }
    }
    assert!(seen_above_floor);
}
