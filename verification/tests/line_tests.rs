use geometrical_shapes::Canvas;
use geometrical_shapes::Drawable;
use geometrical_shapes::Line;
use geometrical_shapes::Point;

#[test]
fn line_horizontal_pixels() {
    let line = Line::new(Point::new(0, 0), Point::new(5, 0));
    let pts = line.points();
    let expected = vec![(0, 0), (1, 0), (2, 0), (3, 0), (4, 0), (5, 0)];
    assert_eq!(pts.len(), expected.len());
    for (p, e) in pts.iter().zip(expected.iter()) {
        assert_eq!((p.x, p.y), *e);
    }
}

#[test]
fn line_diagonal_pixels() {
    let line = Line::new(Point::new(0, 0), Point::new(3, 3));
    let pts = line.points();
    let expected = vec![(0, 0), (1, 1), (2, 2), (3, 3)];
    assert_eq!(pts.len(), expected.len());
    for (p, e) in pts.iter().zip(expected.iter()) {
        assert_eq!((p.x, p.y), *e);
    }
}

#[test]
fn line_degenerate_single_pixel() {
    let p = Point::new(7, -3);
    let line = Line::new(p, p);
    let pts = line.points();
    assert_eq!(pts.len(), 1);
    assert_eq!(pts[0], p);
}

#[test]
fn line_endpoints_count_and_connectivity() {
    let cases = vec![
        ((0, 0), (5, 3)),
        ((4, 7), (-2, -9)),
        ((3, -1), (3, 10)),
        ((-5, 2), (9, 2)),
        ((1, 1), (-6, 4)),
    ];
    for (a, b) in cases {
        let start = Point::new(a.0, a.1);
        let end = Point::new(b.0, b.1);
        let pts = Line::new(start, end).points();
        let dx = (b.0 as i64 - a.0 as i64).abs();
        let dy = (b.1 as i64 - a.1 as i64).abs();
        assert_eq!(pts.len() as i64, dx.max(dy) + 1);
        assert_eq!(pts[0], start);
        assert_eq!(pts[pts.len() - 1], end);
        for w in pts.windows(2) {
            assert!((w[1].x - w[0].x).abs() <= 1);
            assert!((w[1].y - w[0].y).abs() <= 1);
        }
    }
}

#[test]
fn line_draw_is_clipped_by_sink() {
    let mut canvas = Canvas::new(3, 3);
    let line = Line::new(Point::new(-2, 1), Point::new(4, 1));
    line.draw(&mut canvas);
    assert_eq!(canvas.writes.len(), 3);
    for (i, w) in canvas.writes.iter().enumerate() {
        assert_eq!((w.0, w.1), (i as i32, 1));
    }
}
