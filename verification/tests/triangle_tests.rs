use geometrical_shapes::Canvas;
use geometrical_shapes::Drawable;
use geometrical_shapes::Point;
use geometrical_shapes::Triangle;

#[test]
fn triangle_stores_vertices_verbatim() {
    let t = Triangle::new(Point::new(2, 2), Point::new(12, 3), Point::new(5, 9));
    assert_eq!(t.points[0], Point::new(2, 2));
    assert_eq!(t.points[1], Point::new(12, 3));
    assert_eq!(t.points[2], Point::new(5, 9));
}

#[test]
fn triangle_outline_visits_all_vertices_and_closes() {
    let t = Triangle::new(Point::new(2, 2), Point::new(12, 3), Point::new(5, 9));
    let mut canvas = Canvas::new(30, 30);
    t.draw(&mut canvas);
    for vertex in [(2, 2), (12, 3), (5, 9)] {
        assert!(canvas.writes.iter().any(|w| (w.0, w.1) == vertex));
    }
    let first = canvas.writes.first().unwrap();
    let last = canvas.writes.last().unwrap();
    assert_eq!((first.0, first.1), (2, 2));
    assert_eq!((last.0, last.1), (2, 2));
}

#[test]
fn triangle_degenerate_collinear_draws_a_line() {
    let t = Triangle::new(Point::new(0, 0), Point::new(4, 0), Point::new(2, 0));
    let mut canvas = Canvas::new(10, 10);
    t.draw(&mut canvas);
    // A zero-area triangle rasterizes back and forth along one line.
    for w in canvas.writes.iter() {
        assert_eq!(w.1, 0);
        assert!(0 <= w.0 && w.0 <= 4);
    }
}

#[test]
fn triangle_sides_share_one_color() {
    let t = Triangle::new(Point::new(1, 1), Point::new(6, 2), Point::new(3, 7));
    let mut canvas = Canvas::new(10, 10);
    t.draw(&mut canvas);
    for w in canvas.writes.iter() {
        assert_eq!(w.2, t.color);
    }
}
