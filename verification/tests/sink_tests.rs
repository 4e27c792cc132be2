use geometrical_shapes::Canvas;
use geometrical_shapes::Color;
use geometrical_shapes::Displayable;
use geometrical_shapes::Drawable;
use geometrical_shapes::Point;

#[test]
fn sink_drops_writes_outside_bounds() {
    let mut canvas = Canvas::new(4, 3);
    let c = Color::rgb(10, 20, 30);
    canvas.display(-1, 0, c);
    canvas.display(4, 0, c);
    canvas.display(0, -1, c);
    canvas.display(0, 3, c);
    assert!(canvas.writes.is_empty());
}

#[test]
fn sink_stores_writes_inside_bounds() {
    let mut canvas = Canvas::new(4, 3);
    let c = Color::rgb(10, 20, 30);
    canvas.display(0, 0, c);
    canvas.display(3, 2, c);
    assert_eq!(canvas.writes.len(), 2);
    assert_eq!(canvas.writes[0], (0, 0, c));
    assert_eq!(canvas.writes[1], (3, 2, c));
}

#[test]
fn point_draw_writes_one_vivid_pixel() {
    let mut canvas = Canvas::new(8, 8);
    Point::new(2, 5).draw(&mut canvas);
    assert_eq!(canvas.writes.len(), 1);
    let w = canvas.writes[0];
    assert_eq!((w.0, w.1), (2, 5));
    assert!(w.2.r >= 1 && w.2.g >= 1 && w.2.b >= 1);
}

#[test]
fn point_draw_outside_bounds_is_dropped() {
    let mut canvas = Canvas::new(8, 8);
    Point::new(8, 0).draw(&mut canvas);
    Point::new(0, 8).draw(&mut canvas);
    Point::new(-1, -1).draw(&mut canvas);
    assert!(canvas.writes.is_empty());
}
