//! Colors for drawing to the screen, including the alpha channel.

use vstd::prelude::*;

verus! {

/// Color to draw to the screen, including the alpha channel.
#[derive(Debug, Clone, Copy, PartialEq, Eq, Structural)]
pub struct Color {
    pub red: u8,
    pub green: u8,
    pub blue: u8,
    pub alpha: u8,
}

impl Color {
    /// Makes a new solid color, with no transparency.
    pub fn solid_color(red: u8, green: u8, blue: u8) -> (c: Color)
        ensures
            c.red == red,
            c.green == green,
            c.blue == blue,
            c.alpha == 255,
    {
        Color { red, green, blue, alpha: 255 }
    }
}

} // verus!
