//! Colours as they are stored in the framebuffer: four bytes for 32-bit
//! pixels, in blue-green-red-alpha or red-green-blue-alpha order as the
//! display expects, and RGB565 for 16-bit pixels.

use vstd::prelude::*;

use crate::framebuffer::{rgb565_value, PackedColor};

verus! {

/// The four channels of a colour.
pub struct Channels {
    pub r: u8,
    pub g: u8,
    pub b: u8,
    pub a: u8,
}

/// An 8-bit-per-channel colour with alpha.
pub struct Color {
    r: u8,
    g: u8,
    b: u8,
    a: u8,
}

/// Value of the 32-bit pixel `[b, g, r, a]` read as a little-endian word.
pub open spec fn bgra_value(c: Channels) -> int {
    c.b + c.g * 0x100 + c.r * 0x1_0000 + c.a * 0x100_0000
}

/// Value of the 32-bit pixel `[r, g, b, a]` read as a little-endian word.
pub open spec fn rgba_value(c: Channels) -> int {
    c.r + c.g * 0x100 + c.b * 0x1_0000 + c.a * 0x100_0000
}

/// The order of the colour bytes of a 32-bit pixel in memory; alpha is
/// always last.
#[derive(Clone, Copy, Debug, PartialEq, Eq, Structural)]
pub enum ByteOrder {
    /// Blue, green, red, alpha: the display's usual order.
    Bgra,
    /// Red, green, blue, alpha: left-to-right RGB.
    Rgba,
}

/// Value of a 32-bit pixel in the given byte order.
pub open spec fn word_value(c: Channels, order: ByteOrder) -> int {
    match order {
        ByteOrder::Bgra => bgra_value(c),
        ByteOrder::Rgba => rgba_value(c),
    }
}

/// Both framebuffer encodings of a colour, with 32-bit pixels in the given
/// byte order.
pub open spec fn packed_color(c: Channels, order: ByteOrder) -> PackedColor {
    PackedColor { half: rgb565_value(c.r, c.g, c.b) as u16, word: word_value(c, order) as u32 }
}

impl View for Color {
    type V = Channels;

    closed spec fn view(&self) -> Channels {
        Channels { r: self.r, g: self.g, b: self.b, a: self.a }
    }
}

impl Color {
    /// An opaque colour.
    pub fn from_rgb(r: u8, g: u8, b: u8) -> (c: Self)
        ensures
            c@ == (Channels { r, g, b, a: 0xFF }),
    {
        Self::from_rgba(r, g, b, u8::MAX)
    }

    pub fn from_rgba(r: u8, g: u8, b: u8, a: u8) -> (c: Self)
        ensures
            c@ == (Channels { r, g, b, a }),
    {
        Self { r, g, b, a }
    }

    pub fn red() -> (c: Self)
        ensures
            c@ == (Channels { r: 0xFF, g: 0, b: 0, a: 0xFF }),
    {
        Self::from_rgb(0xFF, 0, 0)
    }

    pub fn green() -> (c: Self)
        ensures
            c@ == (Channels { r: 0, g: 0xFF, b: 0, a: 0xFF }),
    {
        Self::from_rgb(0, 0xFF, 0)
    }

    pub fn blue() -> (c: Self)
        ensures
            c@ == (Channels { r: 0, g: 0, b: 0xFF, a: 0xFF }),
    {
        Self::from_rgb(0, 0, 0xFF)
    }

    pub fn black() -> (c: Color)
        ensures
            c@ == (Channels { r: 0, g: 0, b: 0, a: 0xFF }),
    {
        Self::from_rgb(0, 0, 0)
    }

    pub fn white() -> (c: Self)
        ensures
            c@ == (Channels { r: 0xFF, g: 0xFF, b: 0xFF, a: 0xFF }),
    {
        Self::from_rgb(0xFF, 0xFF, 0xFF)
    }

    /// The colour as a 16-bit RGB565 pixel: the top 5 bits of red, the top
    /// 6 bits of green and the top 5 bits of blue, red most significant.
    pub fn to_rgb565(&self) -> (v: u16)
        ensures
            v == rgb565_value(self@.r, self@.g, self@.b),
    {
        let (r8, g8, b8) = (self.r, self.g, self.b);
        let r = (r8 as u16 >> 3) & 0x1F;
        let g = (g8 as u16 >> 2) & 0x3F;
        let b = (b8 as u16 >> 3) & 0x1F;
        let v = (r << 11) | (g << 5) | b;
        assert(v == (r8 / 8) * 2048 + (g8 / 4) * 32 + b8 / 8) by (bit_vector)
            requires
                r == (r8 as u16 >> 3) & 0x1F,
                g == (g8 as u16 >> 2) & 0x3F,
                b == (b8 as u16 >> 3) & 0x1F,
                v == (r << 11) | (g << 5) | b,
        ;
        v
    }

    /// The colour as a 32-bit pixel: the little-endian word of the bytes
    /// `[b, g, r, a]`, or `[r, g, b, a]` in left-to-right RGB order.
    pub fn to_rgb(&self, order: ByteOrder) -> (v: u32)
        ensures
            v == word_value(self@, order),
    {
        let (r8, g8, b8, a8) = (self.r, self.g, self.b, self.a);
        let (first, third) = match order {
            ByteOrder::Bgra => (b8, r8),
            ByteOrder::Rgba => (r8, b8),
        };
        let v = (first as u32) | ((g8 as u32) << 8) | ((third as u32) << 16) | ((a8 as u32) << 24);
        assert(v == first + g8 * 0x100 + third * 0x1_0000 + a8 * 0x100_0000) by (bit_vector)
            requires
                v == (first as u32) | ((g8 as u32) << 8) | ((third as u32) << 16) | ((a8 as u32)
                    << 24),
        ;
        v
    }

    /// Both framebuffer encodings of the colour.
    pub fn packed(&self, order: ByteOrder) -> (p: PackedColor)
        ensures
            p == packed_color(self@, order),
    {
        PackedColor { half: self.to_rgb565(), word: self.to_rgb(order) }
    }
}

/// The 32-bit pixel in the display's usual blue-green-red-alpha order.
impl<'a> From<&'a Color> for u32 {
    fn from(value: &'a Color) -> (v: u32) {
        value.to_rgb(ByteOrder::Bgra)
    }
}

impl<'a> vstd::std_specs::convert::FromSpecImpl<&'a Color> for u32 {
    open spec fn obeys_from_spec() -> bool {
        true
    }

    open spec fn from_spec(value: &'a Color) -> u32 {
        bgra_value(value@) as u32
    }
}

impl<'a> From<&'a Color> for u16 {
    fn from(value: &'a Color) -> (v: u16) {
        value.to_rgb565()
    }
}

impl<'a> vstd::std_specs::convert::FromSpecImpl<&'a Color> for u16 {
    open spec fn obeys_from_spec() -> bool {
        true
    }

    open spec fn from_spec(value: &'a Color) -> u16 {
        rgb565_value(value@.r, value@.g, value@.b) as u16
    }
}

/// Each channel can be read back from the RGB565 encoding: red is in bits
/// 11 to 15, green in bits 5 to 10 and blue in bits 0 to 4, each keeping the
/// top bits of the channel.
pub proof fn lemma_rgb565_fields(r: u8, g: u8, b: u8)
    ensures
        rgb565_value(r, g, b) <= u16::MAX,
        (rgb565_value(r, g, b) as u16) >> 11u16 == (r >> 3u8) as u16,
        ((rgb565_value(r, g, b) as u16) >> 5u16) & 0x3F == (g >> 2u8) as u16,
        (rgb565_value(r, g, b) as u16) & 0x1F == (b >> 3u8) as u16,
{
    let v: u16 = ((r / 8) * 2048 + (g / 4) * 32 + b / 8) as u16;
    assert(v == (r / 8) * 2048 + (g / 4) * 32 + b / 8);
    assert(v >> 11u16 == (r >> 3u8) as u16 && (v >> 5u16) & 0x3F == (g >> 2u8) as u16 && v & 0x1F == (b
        >> 3u8) as u16) by (bit_vector)
        requires
            v == (r / 8) * 2048 + (g / 4) * 32 + b / 8,
    ;
}

/// The 32-bit encoding holds the channels as the bytes blue, green, red,
/// alpha, from the least significant.
pub proof fn lemma_bgra_bytes(c: Channels)
    ensures
        bgra_value(c) <= u32::MAX,
        (bgra_value(c) as u32) & 0xFF == c.b,
        ((bgra_value(c) as u32) >> 8u32) & 0xFF == c.g,
        ((bgra_value(c) as u32) >> 16u32) & 0xFF == c.r,
        (bgra_value(c) as u32) >> 24u32 == c.a,
{
    let (r, g, b, a) = (c.r, c.g, c.b, c.a);
    let v: u32 = (b + g * 0x100 + r * 0x1_0000 + a * 0x100_0000) as u32;
    assert(v == b + g * 0x100 + r * 0x1_0000 + a * 0x100_0000);
    assert(v & 0xFF == b && (v >> 8u32) & 0xFF == g && (v >> 16u32) & 0xFF == r && v >> 24u32 == a)
        by (bit_vector)
        requires
            v == b + g * 0x100 + r * 0x1_0000 + a * 0x100_0000,
    ;
}

} // verus!
