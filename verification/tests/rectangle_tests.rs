use geometrical_shapes::Canvas;
use geometrical_shapes::Drawable;
use geometrical_shapes::Point;
use geometrical_shapes::Rectangle;

#[test]
fn rectangle_corners_chain_in_fixed_order() {
    let r = Rectangle::new(Point::new(0, 0), Point::new(10, 10));
    assert_eq!(r.points[0], Point::new(0, 0));
    assert_eq!(r.points[1], Point::new(0, 10));
    assert_eq!(r.points[2], Point::new(10, 10));
    assert_eq!(r.points[3], Point::new(10, 0));
}

#[test]
fn rectangle_outline_stays_on_boundary() {
    let r = Rectangle::new(Point::new(0, 0), Point::new(10, 10));
    let mut canvas = Canvas::new(20, 20);
    r.draw(&mut canvas);
    assert!(!canvas.writes.is_empty());
    for w in canvas.writes.iter() {
        let (x, y) = (w.0, w.1);
        let on_vertical = (x == 0 || x == 10) && 0 <= y && y <= 10;
        let on_horizontal = (y == 0 || y == 10) && 0 <= x && x <= 10;
        assert!(on_vertical || on_horizontal);
    }
}

#[test]
fn rectangle_outline_is_a_closed_loop() {
    let r = Rectangle::new(Point::new(2, 3), Point::new(7, 9));
    let mut canvas = Canvas::new(20, 20);
    r.draw(&mut canvas);
    let first = canvas.writes.first().unwrap();
    let last = canvas.writes.last().unwrap();
    assert_eq!((first.0, first.1), (2, 3));
    assert_eq!((last.0, last.1), (2, 3));
    // Every corner is visited.
    for corner in [(2, 3), (2, 9), (7, 9), (7, 3)] {
        assert!(canvas.writes.iter().any(|w| (w.0, w.1) == corner));
    }
}

#[test]
fn rectangle_sides_share_one_color() {
    let r = Rectangle::new(Point::new(1, 1), Point::new(5, 4));
    let mut canvas = Canvas::new(10, 10);
    r.draw(&mut canvas);
    for w in canvas.writes.iter() {
        assert_eq!(w.2, r.color);
    }
}
