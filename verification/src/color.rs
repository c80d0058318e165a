//! Color values: ordered tuples of 8-bit channel intensities.

use vstd::prelude::*;

verus! {

/// A 3-channel color: red, green and blue intensities.
#[derive(Clone, Copy, PartialEq, Eq, Structural, Debug)]
pub struct Rgb8 {
    pub r: u8,
    pub g: u8,
    pub b: u8,
}

impl Rgb8 {
    pub fn new(r: u8, g: u8, b: u8) -> (c: Self)
        ensures
            c.r == r,
            c.g == g,
            c.b == b,
    {
        Rgb8 { r, g, b }
    }
}

/// A 4-channel color: red, green, blue and white intensities.
#[derive(Clone, Copy, PartialEq, Eq, Structural, Debug)]
pub struct Rgbw8 {
    pub r: u8,
    pub g: u8,
    pub b: u8,
    pub w: u8,
}

impl Rgbw8 {
    pub fn new(r: u8, g: u8, b: u8, w: u8) -> (c: Self)
        ensures
            c.r == r,
            c.g == g,
            c.b == b,
            c.w == w,
    {
        Rgbw8 { r, g, b, w }
    }
}

} // verus!
