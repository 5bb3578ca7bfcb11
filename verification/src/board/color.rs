//! The board driver's colours: red-green-blue-alpha byte order for 32-bit
//! pixels and RGB565 for 16-bit pixels.

use vstd::prelude::*;

use crate::color::{rgba_value, Channels};
use crate::framebuffer::{rgb565_value, PackedColor};

verus! {

/// An 8-bit-per-channel colour with alpha.
pub struct Color {
    r: u8,
    g: u8,
    b: u8,
    a: u8,
}

/// Both framebuffer encodings of a colour in red-green-blue-alpha order.
pub open spec fn packed_rgba(c: Channels) -> PackedColor {
    PackedColor { half: rgb565_value(c.r, c.g, c.b) as u16, word: rgba_value(c) as u32 }
}

impl View for Color {
    type V = Channels;

    closed spec fn view(&self) -> Channels {
        Channels { r: self.r, g: self.g, b: self.b, a: self.a }
    }
}

impl Color {
    /// An opaque colour.
    pub fn from_rgb(r: u8, g: u8, b: u8) -> (c: Self)
        ensures
            c@ == (Channels { r, g, b, a: 0xFF }),
    {
        Self::from_rgba(r, g, b, u8::MAX)
    }

    pub fn from_rgba(r: u8, g: u8, b: u8, a: u8) -> (c: Self)
        ensures
            c@ == (Channels { r, g, b, a }),
    {
        Self { r, g, b, a }
    }

    pub fn red() -> (c: Self)
        ensures
            c@ == (Channels { r: 0xFF, g: 0, b: 0, a: 0xFF }),
    {
        Self::from_rgb(0xFF, 0, 0)
    }

    pub fn green() -> (c: Self)
        ensures
            c@ == (Channels { r: 0, g: 0xFF, b: 0, a: 0xFF }),
    {
        Self::from_rgb(0, 0xFF, 0)
    }

    pub fn blue() -> (c: Self)
        ensures
            c@ == (Channels { r: 0, g: 0, b: 0xFF, a: 0xFF }),
    {
        Self::from_rgb(0, 0, 0xFF)
    }

    pub fn black() -> (c: Color)
        ensures
            c@ == (Channels { r: 0, g: 0, b: 0, a: 0xFF }),
    {
        Self::from_rgb(0, 0, 0)
    }

    pub fn white() -> (c: Self)
        ensures
            c@ == (Channels { r: 0xFF, g: 0xFF, b: 0xFF, a: 0xFF }),
    {
        Self::from_rgb(0xFF, 0xFF, 0xFF)
    }

    /// The colour as a 16-bit RGB565 pixel: the top 5 bits of red, the top
    /// 6 bits of green and the top 5 bits of blue, red most significant.
    pub fn to_rgb565(&self) -> (v: u16)
        ensures
            v == rgb565_value(self@.r, self@.g, self@.b),
    {
        let (r8, g8, b8) = (self.r, self.g, self.b);
        let r = (r8 as u16 >> 3) & 0x1F;
        let g = (g8 as u16 >> 2) & 0x3F;
        let b = (b8 as u16 >> 3) & 0x1F;
        let v = (r << 11) | (g << 5) | b;
        assert(v == (r8 / 8) * 2048 + (g8 / 4) * 32 + b8 / 8) by (bit_vector)
            requires
                r == (r8 as u16 >> 3) & 0x1F,
                g == (g8 as u16 >> 2) & 0x3F,
                b == (b8 as u16 >> 3) & 0x1F,
                v == (r << 11) | (g << 5) | b,
        ;
        v
    }

    /// The colour as a 32-bit pixel: the little-endian word of the bytes
    /// `[r, g, b, a]`.
    pub fn to_rgb(&self) -> (v: u32)
        ensures
            v == rgba_value(self@),
    {
        let (r8, g8, b8, a8) = (self.r, self.g, self.b, self.a);
        let v = (r8 as u32) | ((g8 as u32) << 8) | ((b8 as u32) << 16) | ((a8 as u32) << 24);
        assert(v == r8 + g8 * 0x100 + b8 * 0x1_0000 + a8 * 0x100_0000) by (bit_vector)
            requires
                v == (r8 as u32) | ((g8 as u32) << 8) | ((b8 as u32) << 16) | ((a8 as u32) << 24),
        ;
        v
    }

    /// Both framebuffer encodings of the colour.
    pub fn packed(&self) -> (p: PackedColor)
        ensures
            p == packed_rgba(self@),
    {
        PackedColor { half: self.to_rgb565(), word: self.to_rgb() }
    }
}

impl<'a> From<&'a Color> for u32 {
    fn from(value: &'a Color) -> (v: u32) {
        value.to_rgb()
    }
}

impl<'a> vstd::std_specs::convert::FromSpecImpl<&'a Color> for u32 {
    open spec fn obeys_from_spec() -> bool {
        true
    }

    open spec fn from_spec(value: &'a Color) -> u32 {
        rgba_value(value@) as u32
    }
}

impl<'a> From<&'a Color> for u16 {
    fn from(value: &'a Color) -> (v: u16) {
        value.to_rgb565()
    }
}

impl<'a> vstd::std_specs::convert::FromSpecImpl<&'a Color> for u16 {
    open spec fn obeys_from_spec() -> bool {
        true
    }

    open spec fn from_spec(value: &'a Color) -> u16 {
        rgb565_value(value@.r, value@.g, value@.b) as u16
    }
}

/// The 32-bit encoding holds the channels as the bytes red, green, blue,
/// alpha, from the least significant.
pub proof fn lemma_rgba_bytes(c: Channels)
    ensures
        rgba_value(c) <= u32::MAX,
        (rgba_value(c) as u32) & 0xFF == c.r,
        ((rgba_value(c) as u32) >> 8u32) & 0xFF == c.g,
        ((rgba_value(c) as u32) >> 16u32) & 0xFF == c.b,
        (rgba_value(c) as u32) >> 24u32 == c.a,
{
    let (r, g, b, a) = (c.r, c.g, c.b, c.a);
    let v: u32 = (r + g * 0x100 + b * 0x1_0000 + a * 0x100_0000) as u32;
    assert(v == r + g * 0x100 + b * 0x1_0000 + a * 0x100_0000);
    assert(v & 0xFF == r && (v >> 8u32) & 0xFF == g && (v >> 16u32) & 0xFF == b && v >> 24u32 == a)
        by (bit_vector)
        requires
            v == r + g * 0x100 + b * 0x1_0000 + a * 0x100_0000,
    ;
}

} // verus!
