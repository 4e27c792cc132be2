//! Axis-aligned rectangle outlines, composed of four line segments.

use vstd::prelude::*;
use crate::color::Color;
use crate::color::random_color;
use crate::color::vivid;
use crate::drawable::Drawable;
use crate::line::Line;
use crate::line::imax;
use crate::line::imin;
use crate::line::in_box;
use crate::line::line_path;
use crate::line::lemma_line_path_properties;
use crate::line::pt;
use crate::point::Point;
use crate::sink::Displayable;
use crate::sink::lemma_paint_concat;
use crate::sink::paint;

verus! {

/// The pixels of a four-sided outline: the four Bresenham segments that
/// connect consecutive corners and wrap back to the first.
pub open spec fn rectangle_outline(
    c0: (int, int),
    c1: (int, int),
    c2: (int, int),
    c3: (int, int),
) -> Seq<(int, int)> {
    line_path(c0, c1) + line_path(c1, c2) + line_path(c2, c3) + line_path(c3, c0)
}

/// The coordinate lies on the boundary of the axis-aligned rectangle spanned
/// by the two opposite corners.
pub open spec fn on_rect_boundary(q: (int, int), c0: (int, int), c2: (int, int)) -> bool {
    let xlo = imin(c0.0, c2.0);
    let xhi = imax(c0.0, c2.0);
    let ylo = imin(c0.1, c2.1);
    let yhi = imax(c0.1, c2.1);
    ((q.0 == xlo || q.0 == xhi) && ylo <= q.1 <= yhi) || ((q.1 == ylo || q.1 == yhi) && xlo
        <= q.0 <= xhi)
}

/// Every pixel of a rectangle's outline lies on the rectangle's boundary:
/// the outline never strays into the interior or beyond the corners.
pub proof fn lemma_rectangle_outline_on_boundary(s: (int, int), e: (int, int))
    ensures
        forall|i: int|
            0 <= i < rectangle_outline(s, (s.0, e.1), e, (e.0, s.1)).len()
                ==> on_rect_boundary(
                #[trigger] rectangle_outline(s, (s.0, e.1), e, (e.0, s.1))[i],
                s,
                e,
            ),
{
    let c0 = s;
    let c1 = (s.0, e.1);
    let c2 = e;
    let c3 = (e.0, s.1);
    let p01 = line_path(c0, c1);
    let p12 = line_path(c1, c2);
    let p23 = line_path(c2, c3);
    let p30 = line_path(c3, c0);
    lemma_line_path_properties(c0, c1);
    lemma_line_path_properties(c1, c2);
    lemma_line_path_properties(c2, c3);
    lemma_line_path_properties(c3, c0);
    let o = rectangle_outline(c0, c1, c2, c3);
    assert forall|i: int| 0 <= i < o.len() implies on_rect_boundary(#[trigger] o[i], s, e) by {
        let n01 = p01.len() as int;
        let n12 = p12.len() as int;
        let n23 = p23.len() as int;
        if i < n01 {
            assert(o[i] == p01[i]);
            assert(in_box(p01[i], c0, c1));
        } else if i < n01 + n12 {
            assert(o[i] == p12[i - n01]);
            assert(in_box(p12[i - n01], c1, c2));
        } else if i < n01 + n12 + n23 {
            assert(o[i] == p23[i - n01 - n12]);
            assert(in_box(p23[i - n01 - n12], c2, c3));
        } else {
            assert(o[i] == p30[i - n01 - n12 - n23]);
            assert(in_box(p30[i - n01 - n12 - n23], c3, c0));
        }
    }
}

/// A rectangle's outline chains through its four corners and returns to the
/// first: the four segments form a closed loop.
pub proof fn lemma_rectangle_outline_closed(
    c0: (int, int),
    c1: (int, int),
    c2: (int, int),
    c3: (int, int),
)
    ensures
        rectangle_outline(c0, c1, c2, c3)[0] == c0,
        rectangle_outline(c0, c1, c2, c3).last() == c0,
        rectangle_outline(c0, c1, c2, c3).contains(c0),
        rectangle_outline(c0, c1, c2, c3).contains(c1),
        rectangle_outline(c0, c1, c2, c3).contains(c2),
        rectangle_outline(c0, c1, c2, c3).contains(c3),
{
    let p01 = line_path(c0, c1);
    let p12 = line_path(c1, c2);
    let p23 = line_path(c2, c3);
    let p30 = line_path(c3, c0);
    lemma_line_path_properties(c0, c1);
    lemma_line_path_properties(c1, c2);
    lemma_line_path_properties(c2, c3);
    lemma_line_path_properties(c3, c0);
    let o = rectangle_outline(c0, c1, c2, c3);
    let n01 = p01.len() as int;
    let n12 = p12.len() as int;
    let n23 = p23.len() as int;
    assert(o[0] == p01[0]);
    assert(o.last() == p30.last());
    assert(o[n01] == p12[0]);
    assert(o[n01 + n12] == p23[0]);
    assert(o[n01 + n12 + n23] == p30[0]);
    assert(o.contains(c0)) by {
        assert(o[0] == c0);
    }
    assert(o.contains(c1)) by {
        assert(o[n01] == c1);
    }
    assert(o.contains(c2)) by {
        assert(o[n01 + n12] == c2);
    }
    assert(o.contains(c3)) by {
        assert(o[n01 + n12 + n23] == c3);
    }
}

/// A closed axis-aligned quadrilateral outline. Its four corners are derived
/// from two opposite corners, in the fixed order (start, (start.x, end.y),
/// end, (end.x, start.y)): consecutive corners always share an axis, so the
/// four sides are axis-aligned.
#[derive(Clone, Copy, Debug)]
pub struct Rectangle {
    pub points: [Point; 4],
    pub color: Color,
}

impl Rectangle {
    pub fn new(start: Point, end: Point) -> (r: Rectangle)
        ensures
            r.points@[0] == start,
            r.points@[1] == (Point { x: start.x, y: end.y }),
            r.points@[2] == end,
            r.points@[3] == (Point { x: end.x, y: start.y }),
            vivid(r.color),
    {
        Rectangle {
            points: [
                start,
                Point { x: start.x, y: end.y },
                end,
                Point { x: end.x, y: start.y },
            ],
            color: random_color(),
        }
    }

    /// A rectangle spanned by two corners drawn uniformly from the canvas.
    pub fn random(width: i32, height: i32) -> (r: Rectangle)
        requires
            width > 0,
            height > 0,
        ensures
            forall|i: int| 0 <= i < 4 ==> 0 <= #[trigger] r.points@[i].x < width,
            forall|i: int| 0 <= i < 4 ==> 0 <= #[trigger] r.points@[i].y < height,
            vivid(r.color),
    {
        Rectangle::new(Point::random(width, height), Point::random(width, height))
    }
}

impl Drawable for Rectangle {
    /// Draws the four sides in order, each in this rectangle's own color:
    /// afterwards the sink holds its previous pixels overwritten by the
    /// whole outline.
    fn draw<D: Displayable>(&self, image: &mut D)
        ensures
            final(image).pixels() == paint(
                old(image).pixels(),
                old(image).width(),
                old(image).height(),
                rectangle_outline(
                    pt(self.points@[0]),
                    pt(self.points@[1]),
                    pt(self.points@[2]),
                    pt(self.points@[3]),
                ),
                self.color,
            ),
    {
        let ghost base = image.pixels();
        let ghost w = image.width();
        let ghost h = image.height();
        let ghost c0 = pt(self.points@[0]);
        let ghost c1 = pt(self.points@[1]);
        let ghost c2 = pt(self.points@[2]);
        let ghost c3 = pt(self.points@[3]);

        let mut side = Line::new(self.points[0], self.points[1]);
        side.color = self.color;
        side.draw(image);

        let mut side = Line::new(self.points[1], self.points[2]);
        side.color = self.color;
        side.draw(image);

        let mut side = Line::new(self.points[2], self.points[3]);
        side.color = self.color;
        side.draw(image);

        let mut side = Line::new(self.points[3], self.points[0]);
        side.color = self.color;
        side.draw(image);

        proof {
            lemma_paint_concat(base, w, h, line_path(c0, c1), line_path(c1, c2), self.color);
            lemma_paint_concat(
                base,
                w,
                h,
                line_path(c0, c1) + line_path(c1, c2),
                line_path(c2, c3),
                self.color,
            );
            lemma_paint_concat(
                base,
                w,
                h,
                line_path(c0, c1) + line_path(c1, c2) + line_path(c2, c3),
                line_path(c3, c0),
                self.color,
            );
        }
    }
}

} // verus!
