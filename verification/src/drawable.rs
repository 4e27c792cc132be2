//! The drawing capability every shape exposes.

use vstd::prelude::*;
use crate::color::Color;
use crate::color::random_color;
use crate::color::vivid;
use crate::sink::Displayable;

verus! {

/// A shape that can render itself onto a pixel sink. Drawing never fails:
/// out-of-range coordinates are the sink's to reject.
pub trait Drawable: Sized {
    /// Emits this shape's pixels to the sink, in a deterministic order,
    /// leaving the sink's dimensions unchanged.
    fn draw<D: Displayable>(&self, image: &mut D)
        ensures
            final(image).width() == old(image).width(),
            final(image).height() == old(image).height(),
    ;

    /// A freshly randomized color on every invocation; only meaningful for
    /// shapes that persist no color of their own.
    fn color(&self) -> (c: Color)
        ensures
            vivid(c),
    {
        random_color()
    }
}

} // verus!
