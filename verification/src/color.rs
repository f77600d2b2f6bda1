//! RGBA colors.
//!
//! Each channel is stored as the raw IEEE-754 bit pattern of a 32-bit float in
//! the 0.0 to 1.0 range. The verified core never does float arithmetic on
//! colors; it stores them and hands them to the GPU layer, which reinterprets
//! the bits.
use vstd::prelude::*;

verus! {

/// Bit pattern of the float 0.0.
pub const F32_ZERO: u32 = 0x0000_0000;

/// Bit pattern of the float 0.5.
pub const F32_HALF: u32 = 0x3f00_0000;

/// Bit pattern of the float 1.0.
pub const F32_ONE: u32 = 0x3f80_0000;

/// An RGBA color; every channel holds the bit pattern of a float.
#[derive(Debug, Clone, Copy, PartialEq, Eq, Structural)]
pub struct Color {
    pub r: u32,
    pub g: u32,
    pub b: u32,
    pub a: u32,
}

impl Color {
    /// A color from four channel bit patterns.
    pub fn new(r: u32, g: u32, b: u32, a: u32) -> (c: Color)
        ensures
            c == (Color { r, g, b, a }),
    {
        Color { r, g, b, a }
    }

    /// An opaque color from three channel bit patterns.
    pub fn new_rgb(r: u32, g: u32, b: u32) -> (c: Color)
        ensures
            c == (Color { r, g, b, a: F32_ONE }),
    {
        Color { r, g, b, a: F32_ONE }
    }

    /// The same color with the alpha channel replaced.
    pub fn with_a(self, a: u32) -> (c: Color)
        ensures
            c == (Color { a, ..self }),
    {
        Color { a, ..self }
    }

    /// The channels as an array, in RGBA order.
    pub fn to_array(&self) -> (arr: [u32; 4])
        ensures
            arr@ == seq![self.r, self.g, self.b, self.a],
    {
        let arr = [self.r, self.g, self.b, self.a];
        proof {
            assert(arr@ =~= seq![self.r, self.g, self.b, self.a]);
        }
        arr
    }

    /// Opaque white.
    pub fn white() -> (c: Color)
        ensures
            c == (Color { r: F32_ONE, g: F32_ONE, b: F32_ONE, a: F32_ONE }),
    {
        Color { r: F32_ONE, g: F32_ONE, b: F32_ONE, a: F32_ONE }
    }

    /// Opaque mid grey.
    pub fn grey() -> (c: Color)
        ensures
            c == (Color { r: F32_HALF, g: F32_HALF, b: F32_HALF, a: F32_ONE }),
    {
        Color { r: F32_HALF, g: F32_HALF, b: F32_HALF, a: F32_ONE }
    }

    /// Opaque black.
    pub fn black() -> (c: Color)
        ensures
            c == (Color { r: F32_ZERO, g: F32_ZERO, b: F32_ZERO, a: F32_ONE }),
    {
        Color { r: F32_ZERO, g: F32_ZERO, b: F32_ZERO, a: F32_ONE }
    }

    /// Fully transparent black.
    pub fn transparent() -> (c: Color)
        ensures
            c == (Color { r: F32_ZERO, g: F32_ZERO, b: F32_ZERO, a: F32_ZERO }),
    {
        Color { r: F32_ZERO, g: F32_ZERO, b: F32_ZERO, a: F32_ZERO }
    }
}

} // verus!
