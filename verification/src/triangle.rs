//! Triangle outlines, composed of three line segments.

use vstd::prelude::*;
use crate::color::Color;
use crate::color::random_color;
use crate::color::vivid;
use crate::drawable::Drawable;
use crate::line::Line;
use crate::line::line_path;
use crate::line::lemma_line_path_properties;
use crate::line::pt;
use crate::point::Point;
use crate::sink::Displayable;
use crate::sink::lemma_paint_concat;
use crate::sink::paint;

verus! {

/// The pixels of a three-sided outline: the Bresenham segments a->b, b->c
/// and c->a, in that order.
pub open spec fn triangle_outline(a: (int, int), b: (int, int), c: (int, int)) -> Seq<(int, int)> {
    line_path(a, b) + line_path(b, c) + line_path(c, a)
}

/// A triangle's outline visits all three vertices, starts at the first and
/// returns to it: the three segments chain into a closed loop.
pub proof fn lemma_triangle_outline_closed(a: (int, int), b: (int, int), c: (int, int))
    ensures
        triangle_outline(a, b, c)[0] == a,
        triangle_outline(a, b, c).last() == a,
        triangle_outline(a, b, c).contains(a),
        triangle_outline(a, b, c).contains(b),
        triangle_outline(a, b, c).contains(c),
{
    let pab = line_path(a, b);
    let pbc = line_path(b, c);
    let pca = line_path(c, a);
    lemma_line_path_properties(a, b);
    lemma_line_path_properties(b, c);
    lemma_line_path_properties(c, a);
    let o = triangle_outline(a, b, c);
    assert(o[0] == pab[0]);
    assert(o.last() == pca.last());
    let nab = pab.len() as int;
    let nbc = pbc.len() as int;
    assert(o[nab] == pbc[0]);
    assert(o[nab + nbc] == pca[0]);
    assert(o.contains(a)) by {
        assert(o[0] == a);
    }
    assert(o.contains(b)) by {
        assert(o[nab] == b);
    }
    assert(o.contains(c)) by {
        assert(o[nab + nbc] == c);
    }
}

/// Three vertices stored verbatim, with one shared color. Degenerate
/// (collinear) triangles are not rejected: they rasterize to a
/// back-and-forth line.
#[derive(Clone, Copy, Debug)]
pub struct Triangle {
    pub points: [Point; 3],
    pub color: Color,
}

impl Triangle {
    pub fn new(a: Point, b: Point, c: Point) -> (t: Triangle)
        ensures
            t.points@[0] == a,
            t.points@[1] == b,
            t.points@[2] == c,
            vivid(t.color),
    {
        Triangle { points: [a, b, c], color: random_color() }
    }

    /// A triangle with three vertices drawn uniformly from the canvas.
    pub fn random(width: i32, height: i32) -> (t: Triangle)
        requires
            width > 0,
            height > 0,
        ensures
            forall|i: int| 0 <= i < 3 ==> 0 <= #[trigger] t.points@[i].x < width,
            forall|i: int| 0 <= i < 3 ==> 0 <= #[trigger] t.points@[i].y < height,
            vivid(t.color),
    {
        Triangle::new(
            Point::random(width, height),
            Point::random(width, height),
            Point::random(width, height),
        )
    }
}

impl Drawable for Triangle {
    /// Draws the three sides in order, each in this triangle's own color:
    /// afterwards the sink holds its previous pixels overwritten by the
    /// whole outline.
    fn draw<D: Displayable>(&self, image: &mut D)
        ensures
            final(image).pixels() == paint(
                old(image).pixels(),
                old(image).width(),
                old(image).height(),
                triangle_outline(pt(self.points@[0]), pt(self.points@[1]), pt(self.points@[2])),
                self.color,
            ),
    {
        let ghost base = image.pixels();
        let ghost w = image.width();
        let ghost h = image.height();
        let ghost a = pt(self.points@[0]);
        let ghost b = pt(self.points@[1]);
        let ghost c = pt(self.points@[2]);

        let mut side = Line::new(self.points[0], self.points[1]);
        side.color = self.color;
        side.draw(image);

        let mut side = Line::new(self.points[1], self.points[2]);
        side.color = self.color;
        side.draw(image);

        let mut side = Line::new(self.points[2], self.points[0]);
        side.color = self.color;
        side.draw(image);

        proof {
            lemma_paint_concat(base, w, h, line_path(a, b), line_path(b, c), self.color);
            lemma_paint_concat(
                base,
                w,
                h,
                line_path(a, b) + line_path(b, c),
                line_path(c, a),
                self.color,
            );
        }
    }
}

} // verus!
