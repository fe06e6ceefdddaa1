//! An opaque colour of three 8-bit channels.

use vstd::prelude::*;

verus! {

/// A colour: red, green and blue, eight bits each.
#[derive(Clone, Copy, Debug, PartialEq, Eq, Structural)]
pub struct Rgb {
    pub r: u8,
    pub g: u8,
    pub b: u8,
}

impl Rgb {
    /// The colour with the given channels.
    pub fn new(r: u8, g: u8, b: u8) -> (colour: Rgb)
        ensures
            colour == (Rgb { r, g, b }),
    {
        Rgb { r, g, b }
    }

    /// The red channel.
    pub fn get_red(&self) -> (r: u8)
        ensures
            r == self.r,
    {
        self.r
    }

    /// The green channel.
    pub fn get_green(&self) -> (g: u8)
        ensures
            g == self.g,
    {
        self.g
    }

    /// The blue channel.
    pub fn get_blue(&self) -> (b: u8)
        ensures
            b == self.b,
    {
        self.b
    }
}

/// Black, the colour of least luminance.
pub open spec fn black() -> Rgb {
    Rgb { r: 0, g: 0, b: 0 }
}

/// White, the colour of greatest luminance.
pub open spec fn white() -> Rgb {
    Rgb { r: 255, g: 255, b: 255 }
}

} // verus!
