//! The pixel sink capability: anything that accepts `(x, y, color)` writes
//! and clips the ones that fall outside its bounds.

use vstd::prelude::*;
use crate::color::Color;

verus! {

/// Whether the coordinate lies on a surface of the given dimensions.
pub open spec fn in_canvas(x: int, y: int, w: int, h: int) -> bool {
    0 <= x < w && 0 <= y < h
}

/// The effect of one pixel write on a surface: stored when the coordinate is
/// in bounds, dropped otherwise.
pub open spec fn write_pixel(
    m: Map<(int, int), Color>,
    w: int,
    h: int,
    x: int,
    y: int,
    c: Color,
) -> Map<(int, int), Color> {
    if in_canvas(x, y, w, h) {
        m.insert((x, y), c)
    } else {
        m
    }
}

/// The effect of writing a whole sequence of coordinates in order, all with
/// one color; later writes to a coordinate overwrite earlier ones.
pub open spec fn paint(
    m: Map<(int, int), Color>,
    w: int,
    h: int,
    pts: Seq<(int, int)>,
    c: Color,
) -> Map<(int, int), Color>
    decreases pts.len(),
{
    if pts.len() == 0 {
        m
    } else {
        paint(write_pixel(m, w, h, pts[0].0, pts[0].1, c), w, h, pts.drop_first(), c)
    }
}

/// Painting a concatenation paints the first part, then the second.
pub proof fn lemma_paint_concat(
    m: Map<(int, int), Color>,
    w: int,
    h: int,
    p1: Seq<(int, int)>,
    p2: Seq<(int, int)>,
    c: Color,
)
    ensures
        paint(m, w, h, p1 + p2, c) == paint(paint(m, w, h, p1, c), w, h, p2, c),
    decreases p1.len(),
{
    if p1.len() == 0 {
        assert(p1 + p2 =~= p2);
    } else {
        assert((p1 + p2)[0] == p1[0]);
        assert((p1 + p2).drop_first() =~= p1.drop_first() + p2);
        lemma_paint_concat(write_pixel(m, w, h, p1[0].0, p1[0].1, c), w, h, p1.drop_first(), p2, c);
    }
}

/// A surface accepting individual pixel writes. A write inside the surface's
/// bounds is stored; one outside is dropped with no other effect, so shape
/// rasterizers never pre-clip.
pub trait Displayable: Sized {
    /// Width of the surface, in pixels.
    spec fn width(&self) -> int;

    /// Height of the surface, in pixels.
    spec fn height(&self) -> int;

    /// The pixels stored so far, keyed by coordinate.
    spec fn pixels(&self) -> Map<(int, int), Color>;

    /// Writes one pixel if `(x, y)` is within bounds; silently ignores the
    /// write otherwise.
    fn display(&mut self, x: i32, y: i32, color: Color)
        ensures
            final(self).width() == old(self).width(),
            final(self).height() == old(self).height(),
            final(self).pixels() == write_pixel(
                old(self).pixels(),
                old(self).width(),
                old(self).height(),
                x as int,
                y as int,
                color,
            ),
    ;
}

/// The pixels a list of stored in-bounds writes amounts to, applied in order.
pub open spec fn pixels_of(writes: Seq<(i32, i32, Color)>) -> Map<(int, int), Color>
    decreases writes.len(),
{
    if writes.len() == 0 {
        Map::empty()
    } else {
        pixels_of(writes.drop_last()).insert(
            (writes.last().0 as int, writes.last().1 as int),
            writes.last().2,
        )
    }
}

/// An in-memory pixel sink that remembers every accepted write in order.
/// Out-of-bounds writes leave it untouched.
pub struct Canvas {
    pub width: i32,
    pub height: i32,
    pub writes: Vec<(i32, i32, Color)>,
}

impl Canvas {
    /// A blank surface of the given dimensions with no writes yet.
    pub fn new(width: i32, height: i32) -> (c: Canvas)
        ensures
            c.width == width,
            c.height == height,
            c.writes@ == Seq::<(i32, i32, Color)>::empty(),
            c.pixels() == Map::<(int, int), Color>::empty(),
    {
        Canvas { width, height, writes: Vec::new() }
    }
}

impl Displayable for Canvas {
    open spec fn width(&self) -> int {
        self.width as int
    }

    open spec fn height(&self) -> int {
        self.height as int
    }

    open spec fn pixels(&self) -> Map<(int, int), Color> {
        pixels_of(self.writes@)
    }

    fn display(&mut self, x: i32, y: i32, color: Color)
        ensures
            final(self).width == old(self).width,
            final(self).height == old(self).height,
            in_canvas(x as int, y as int, old(self).width as int, old(self).height as int)
                ==> final(self).writes@ == old(self).writes@.push((x, y, color)),
            !in_canvas(x as int, y as int, old(self).width as int, old(self).height as int)
                ==> final(self).writes@ == old(self).writes@,
    {
        if 0 <= x && x < self.width && 0 <= y && y < self.height {
            self.writes.push((x, y, color));
            proof {
                assert(self.writes@.drop_last() =~= old(self).writes@);
            }
        }
    }
}

} // verus!
