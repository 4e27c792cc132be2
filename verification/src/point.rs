//! A 2D integer coordinate, the leaf value type of every shape.

use vstd::prelude::*;
use crate::color::Color;
use crate::color::vivid;
use crate::drawable::Drawable;
use crate::rng::rand_in_range;
use crate::sink::Displayable;
use crate::sink::write_pixel;

verus! {

/// A 2D integer coordinate; immutable once constructed, copied freely.
#[derive(Clone, Copy, PartialEq, Eq, Structural, Debug)]
pub struct Point {
    pub x: i32,
    pub y: i32,
}

impl Point {
    pub fn new(x: i32, y: i32) -> (p: Point)
        ensures
            p == (Point { x, y }),
    {
        Point { x, y }
    }

    /// A point drawn uniformly from the canvas `[0, width) x [0, height)`.
    pub fn random(width: i32, height: i32) -> (p: Point)
        requires
            width > 0,
            height > 0,
        ensures
            0 <= p.x < width,
            0 <= p.y < height,
    {
        Point::new(rand_in_range(0, width), rand_in_range(0, height))
    }
}

impl Drawable for Point {
    /// Emits exactly one pixel at this point's own coordinates, with a color
    /// drawn fresh at draw time.
    fn draw<D: Displayable>(&self, image: &mut D)
        ensures
            exists|c: Color|
                vivid(c) && final(image).pixels() == write_pixel(
                    old(image).pixels(),
                    old(image).width(),
                    old(image).height(),
                    self.x as int,
                    self.y as int,
                    c,
                ),
    {
        let c = self.color();
        image.display(self.x, self.y, c);
    }
}

} // verus!
