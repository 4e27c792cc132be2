//! The color payload carried by every pixel write.

use vstd::prelude::*;
use crate::rng::rand_in_range;

verus! {

/// An RGB color; each channel is one byte. Shapes treat it as an opaque
/// payload and pass it through to the pixel sink unchanged.
#[derive(Clone, Copy, PartialEq, Eq, Structural, Debug)]
pub struct Color {
    pub r: u8,
    pub g: u8,
    pub b: u8,
}

/// The random palette never picks a zero channel, so no randomly colored
/// shape comes out pure black.
pub open spec fn vivid(c: Color) -> bool {
    c.r >= 1 && c.g >= 1 && c.b >= 1
}

impl Color {
    pub fn rgb(r: u8, g: u8, b: u8) -> (c: Color)
        ensures
            c == (Color { r, g, b }),
    {
        Color { r, g, b }
    }
}

/// A fresh color with every channel drawn uniformly from 1 to 255.
pub fn random_color() -> (c: Color)
    ensures
        vivid(c),
{
    let r = rand_in_range(1, 256);
    let g = rand_in_range(1, 256);
    let b = rand_in_range(1, 256);
    Color { r: r as u8, g: g as u8, b: b as u8 }
}

} // verus!
