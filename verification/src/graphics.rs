//! Drawable primitives: the core only produces a list of shapes; an
//! external rasterizer turns them into pixels.

use vstd::prelude::*;

verus! {

/// An RGB color.
#[derive(Debug, Clone, Copy, PartialEq, Eq, Structural)]
pub struct Color {
    pub r: u8,
    pub g: u8,
    pub b: u8,
}

impl Color {
    /// A color from its three channels.
    pub fn rgb(r: u8, g: u8, b: u8) -> (c: Color)
        ensures
            c == (Color { r, g, b }),
    {
        Color { r, g, b }
    }

    /// Black.
    pub fn black() -> (c: Color)
        ensures
            c == (Color { r: 0, g: 0, b: 0 }),
    {
        Color { r: 0, g: 0, b: 0 }
    }
}

/// One primitive of the drawable list.
#[derive(Debug, Clone, Copy, PartialEq, Eq, Structural)]
pub enum Drawable {
    /// Fill the whole frame with a color.
    Clear(Color),
    /// An axis-aligned filled rectangle in screen coordinates.
    Rectangle { color: Color, x: i32, y: i32, w: i32, h: i32 },
    /// One decimal digit glyph at a screen position, for score displays; the
    /// glyph pixels live with the rasterizer.
    DigitSprite { x: i32, y: i32, digit: u8, color: Color },
}

} // verus!
