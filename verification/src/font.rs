//! The 8x8 bitmap font (digits, upper-case letters and the colon) and the
//! rendering of one glyph as scaled blocks of pixels.

use vstd::prelude::*;

use crate::framebuffer::{
    all_pixels, all_within_pixels, fill_rect, lemma_concat_within_pixels,
    lemma_on_rows_concat, lemma_on_rows_widen, lemma_region_addressable_within,
    lemma_rows_contains, lemma_rows_on_rows, lemma_rows_signed_small, lemma_rows_within_pixels,
    lemma_stores_split_columns, lemma_stores_split_rows, on_rows, on_screen, pixel_store,
    stores_pixel_in, region_addressable, rows, FrameConfig, FramebufferWrite, PackedColor,
};

verus! {

/// The rows of the glyph for byte `c`, top row first; bit 7 of a row is its
/// leftmost pixel. Bytes without a glyph are blank.
pub open spec fn glyph_rows(c: u8) -> Seq<u8> {
    if c == 48 {
        seq![0x70u8, 0x88, 0x98, 0xA8, 0xC8, 0x88, 0x70, 0x00]
    } else if c == 49 {
        seq![0x20u8, 0x60, 0x20, 0x20, 0x20, 0x20, 0x70, 0x00]
    } else if c == 50 {
        seq![0x70u8, 0x88, 0x08, 0x10, 0x20, 0x40, 0xF8, 0x00]
    } else if c == 51 {
        seq![0x70u8, 0x88, 0x08, 0x30, 0x08, 0x88, 0x70, 0x00]
    } else if c == 52 {
        seq![0x10u8, 0x30, 0x50, 0x90, 0xF8, 0x10, 0x10, 0x00]
    } else if c == 53 {
        seq![0xF8u8, 0x80, 0xF0, 0x08, 0x08, 0x88, 0x70, 0x00]
    } else if c == 54 {
        seq![0x30u8, 0x40, 0x80, 0xF0, 0x88, 0x88, 0x70, 0x00]
    } else if c == 55 {
        seq![0xF8u8, 0x08, 0x10, 0x20, 0x40, 0x40, 0x40, 0x00]
    } else if c == 56 {
        seq![0x70u8, 0x88, 0x88, 0x70, 0x88, 0x88, 0x70, 0x00]
    } else if c == 57 {
        seq![0x70u8, 0x88, 0x88, 0x78, 0x08, 0x10, 0x60, 0x00]
    } else if c == 65 {
        seq![0x70u8, 0x88, 0x88, 0xF8, 0x88, 0x88, 0x88, 0x00]
    } else if c == 66 {
        seq![0xF0u8, 0x88, 0x88, 0xF0, 0x88, 0x88, 0xF0, 0x00]
    } else if c == 67 {
        seq![0x70u8, 0x88, 0x80, 0x80, 0x80, 0x88, 0x70, 0x00]
    } else if c == 68 {
        seq![0xF0u8, 0x88, 0x88, 0x88, 0x88, 0x88, 0xF0, 0x00]
    } else if c == 69 {
        seq![0xF8u8, 0x80, 0x80, 0xF0, 0x80, 0x80, 0xF8, 0x00]
    } else if c == 70 {
        seq![0xF8u8, 0x80, 0x80, 0xF0, 0x80, 0x80, 0x80, 0x00]
    } else if c == 71 {
        seq![0x70u8, 0x88, 0x80, 0xB8, 0x88, 0x88, 0x70, 0x00]
    } else if c == 72 {
        seq![0x88u8, 0x88, 0x88, 0xF8, 0x88, 0x88, 0x88, 0x00]
    } else if c == 73 {
        seq![0x70u8, 0x20, 0x20, 0x20, 0x20, 0x20, 0x70, 0x00]
    } else if c == 74 {
        seq![0x38u8, 0x10, 0x10, 0x10, 0x90, 0x90, 0x60, 0x00]
    } else if c == 75 {
        seq![0x88u8, 0x90, 0xA0, 0xC0, 0xA0, 0x90, 0x88, 0x00]
    } else if c == 76 {
        seq![0x80u8, 0x80, 0x80, 0x80, 0x80, 0x80, 0xF8, 0x00]
    } else if c == 77 {
        seq![0x88u8, 0xD8, 0xA8, 0xA8, 0x88, 0x88, 0x88, 0x00]
    } else if c == 78 {
        seq![0x88u8, 0xC8, 0xA8, 0x98, 0x88, 0x88, 0x88, 0x00]
    } else if c == 79 {
        seq![0x70u8, 0x88, 0x88, 0x88, 0x88, 0x88, 0x70, 0x00]
    } else if c == 80 {
        seq![0xF0u8, 0x88, 0x88, 0xF0, 0x80, 0x80, 0x80, 0x00]
    } else if c == 81 {
        seq![0x70u8, 0x88, 0x88, 0x88, 0xA8, 0x90, 0x68, 0x00]
    } else if c == 82 {
        seq![0xF0u8, 0x88, 0x88, 0xF0, 0xA0, 0x90, 0x88, 0x00]
    } else if c == 83 {
        seq![0x70u8, 0x88, 0x80, 0x70, 0x08, 0x88, 0x70, 0x00]
    } else if c == 84 {
        seq![0xF8u8, 0x20, 0x20, 0x20, 0x20, 0x20, 0x20, 0x00]
    } else if c == 85 {
        seq![0x88u8, 0x88, 0x88, 0x88, 0x88, 0x88, 0x70, 0x00]
    } else if c == 86 {
        seq![0x88u8, 0x88, 0x88, 0x88, 0x88, 0x50, 0x20, 0x00]
    } else if c == 87 {
        seq![0x88u8, 0x88, 0x88, 0xA8, 0xA8, 0xD8, 0x88, 0x00]
    } else if c == 88 {
        seq![0x88u8, 0x88, 0x50, 0x20, 0x50, 0x88, 0x88, 0x00]
    } else if c == 89 {
        seq![0x88u8, 0x88, 0x50, 0x20, 0x20, 0x20, 0x20, 0x00]
    } else if c == 90 {
        seq![0xF8u8, 0x08, 0x10, 0x20, 0x40, 0x80, 0xF8, 0x00]
    } else if c == 58 {
        seq![0x00u8, 0x20, 0x20, 0x00, 0x00, 0x20, 0x20, 0x00]
    } else {
        seq![0x00u8, 0x00, 0x00, 0x00, 0x00, 0x00, 0x00, 0x00]
    }
}

/// The bitmap of the glyph for byte `c`.
pub fn glyph(c: u8) -> (g: [u8; 8])
    ensures
        g@ == glyph_rows(c),
{
    let g: [u8; 8] = match c {
        48 => [0x70, 0x88, 0x98, 0xA8, 0xC8, 0x88, 0x70, 0x00],  // '0'
        49 => [0x20, 0x60, 0x20, 0x20, 0x20, 0x20, 0x70, 0x00],  // '1'
        50 => [0x70, 0x88, 0x08, 0x10, 0x20, 0x40, 0xF8, 0x00],  // '2'
        51 => [0x70, 0x88, 0x08, 0x30, 0x08, 0x88, 0x70, 0x00],  // '3'
        52 => [0x10, 0x30, 0x50, 0x90, 0xF8, 0x10, 0x10, 0x00],  // '4'
        53 => [0xF8, 0x80, 0xF0, 0x08, 0x08, 0x88, 0x70, 0x00],  // '5'
        54 => [0x30, 0x40, 0x80, 0xF0, 0x88, 0x88, 0x70, 0x00],  // '6'
        55 => [0xF8, 0x08, 0x10, 0x20, 0x40, 0x40, 0x40, 0x00],  // '7'
        56 => [0x70, 0x88, 0x88, 0x70, 0x88, 0x88, 0x70, 0x00],  // '8'
        57 => [0x70, 0x88, 0x88, 0x78, 0x08, 0x10, 0x60, 0x00],  // '9'
        65 => [0x70, 0x88, 0x88, 0xF8, 0x88, 0x88, 0x88, 0x00],  // 'A'
        66 => [0xF0, 0x88, 0x88, 0xF0, 0x88, 0x88, 0xF0, 0x00],  // 'B'
        67 => [0x70, 0x88, 0x80, 0x80, 0x80, 0x88, 0x70, 0x00],  // 'C'
        68 => [0xF0, 0x88, 0x88, 0x88, 0x88, 0x88, 0xF0, 0x00],  // 'D'
        69 => [0xF8, 0x80, 0x80, 0xF0, 0x80, 0x80, 0xF8, 0x00],  // 'E'
        70 => [0xF8, 0x80, 0x80, 0xF0, 0x80, 0x80, 0x80, 0x00],  // 'F'
        71 => [0x70, 0x88, 0x80, 0xB8, 0x88, 0x88, 0x70, 0x00],  // 'G'
        72 => [0x88, 0x88, 0x88, 0xF8, 0x88, 0x88, 0x88, 0x00],  // 'H'
        73 => [0x70, 0x20, 0x20, 0x20, 0x20, 0x20, 0x70, 0x00],  // 'I'
        74 => [0x38, 0x10, 0x10, 0x10, 0x90, 0x90, 0x60, 0x00],  // 'J'
        75 => [0x88, 0x90, 0xA0, 0xC0, 0xA0, 0x90, 0x88, 0x00],  // 'K'
        76 => [0x80, 0x80, 0x80, 0x80, 0x80, 0x80, 0xF8, 0x00],  // 'L'
        77 => [0x88, 0xD8, 0xA8, 0xA8, 0x88, 0x88, 0x88, 0x00],  // 'M'
        78 => [0x88, 0xC8, 0xA8, 0x98, 0x88, 0x88, 0x88, 0x00],  // 'N'
        79 => [0x70, 0x88, 0x88, 0x88, 0x88, 0x88, 0x70, 0x00],  // 'O'
        80 => [0xF0, 0x88, 0x88, 0xF0, 0x80, 0x80, 0x80, 0x00],  // 'P'
        81 => [0x70, 0x88, 0x88, 0x88, 0xA8, 0x90, 0x68, 0x00],  // 'Q'
        82 => [0xF0, 0x88, 0x88, 0xF0, 0xA0, 0x90, 0x88, 0x00],  // 'R'
        83 => [0x70, 0x88, 0x80, 0x70, 0x08, 0x88, 0x70, 0x00],  // 'S'
        84 => [0xF8, 0x20, 0x20, 0x20, 0x20, 0x20, 0x20, 0x00],  // 'T'
        85 => [0x88, 0x88, 0x88, 0x88, 0x88, 0x88, 0x70, 0x00],  // 'U'
        86 => [0x88, 0x88, 0x88, 0x88, 0x88, 0x50, 0x20, 0x00],  // 'V'
        87 => [0x88, 0x88, 0x88, 0xA8, 0xA8, 0xD8, 0x88, 0x00],  // 'W'
        88 => [0x88, 0x88, 0x50, 0x20, 0x50, 0x88, 0x88, 0x00],  // 'X'
        89 => [0x88, 0x88, 0x50, 0x20, 0x20, 0x20, 0x20, 0x00],  // 'Y'
        90 => [0xF8, 0x08, 0x10, 0x20, 0x40, 0x80, 0xF8, 0x00],  // 'Z'
        58 => [0x00, 0x20, 0x20, 0x00, 0x00, 0x20, 0x20, 0x00],  // ':'
        _ => [0x00; 8],
    };
    assert(g@ =~= glyph_rows(c));
    g
}

/// Whether byte `c` has a glyph of its own: a digit, an upper-case letter
/// or the colon.
pub open spec fn has_glyph(c: u8) -> bool {
    48 <= c <= 58 || 65 <= c <= 90
}

/// The character whose glyph has rows 0, 2, 3 and 6 as in `g`, which tell
/// all glyphs apart; 0 for the blank glyph and any other bitmap.
pub open spec fn glyph_char(g: Seq<u8>) -> u8 {
    if g[0] == 0x70 && g[2] == 0x98 && g[3] == 0xA8 && g[6] == 0x70 {
        48  // '0'
    } else if g[0] == 0x20 && g[2] == 0x20 && g[3] == 0x20 && g[6] == 0x70 {
        49  // '1'
    } else if g[0] == 0x70 && g[2] == 0x08 && g[3] == 0x10 && g[6] == 0xF8 {
        50  // '2'
    } else if g[0] == 0x70 && g[2] == 0x08 && g[3] == 0x30 && g[6] == 0x70 {
        51  // '3'
    } else if g[0] == 0x10 && g[2] == 0x50 && g[3] == 0x90 && g[6] == 0x10 {
        52  // '4'
    } else if g[0] == 0xF8 && g[2] == 0xF0 && g[3] == 0x08 && g[6] == 0x70 {
        53  // '5'
    } else if g[0] == 0x30 && g[2] == 0x80 && g[3] == 0xF0 && g[6] == 0x70 {
        54  // '6'
    } else if g[0] == 0xF8 && g[2] == 0x10 && g[3] == 0x20 && g[6] == 0x40 {
        55  // '7'
    } else if g[0] == 0x70 && g[2] == 0x88 && g[3] == 0x70 && g[6] == 0x70 {
        56  // '8'
    } else if g[0] == 0x70 && g[2] == 0x88 && g[3] == 0x78 && g[6] == 0x60 {
        57  // '9'
    } else if g[0] == 0x70 && g[2] == 0x88 && g[3] == 0xF8 && g[6] == 0x88 {
        65  // 'A'
    } else if g[0] == 0xF0 && g[2] == 0x88 && g[3] == 0xF0 && g[6] == 0xF0 {
        66  // 'B'
    } else if g[0] == 0x70 && g[2] == 0x80 && g[3] == 0x80 && g[6] == 0x70 {
        67  // 'C'
    } else if g[0] == 0xF0 && g[2] == 0x88 && g[3] == 0x88 && g[6] == 0xF0 {
        68  // 'D'
    } else if g[0] == 0xF8 && g[2] == 0x80 && g[3] == 0xF0 && g[6] == 0xF8 {
        69  // 'E'
    } else if g[0] == 0xF8 && g[2] == 0x80 && g[3] == 0xF0 && g[6] == 0x80 {
        70  // 'F'
    } else if g[0] == 0x70 && g[2] == 0x80 && g[3] == 0xB8 && g[6] == 0x70 {
        71  // 'G'
    } else if g[0] == 0x88 && g[2] == 0x88 && g[3] == 0xF8 && g[6] == 0x88 {
        72  // 'H'
    } else if g[0] == 0x70 && g[2] == 0x20 && g[3] == 0x20 && g[6] == 0x70 {
        73  // 'I'
    } else if g[0] == 0x38 && g[2] == 0x10 && g[3] == 0x10 && g[6] == 0x60 {
        74  // 'J'
    } else if g[0] == 0x88 && g[2] == 0xA0 && g[3] == 0xC0 && g[6] == 0x88 {
        75  // 'K'
    } else if g[0] == 0x80 && g[2] == 0x80 && g[3] == 0x80 && g[6] == 0xF8 {
        76  // 'L'
    } else if g[0] == 0x88 && g[2] == 0xA8 && g[3] == 0xA8 && g[6] == 0x88 {
        77  // 'M'
    } else if g[0] == 0x88 && g[2] == 0xA8 && g[3] == 0x98 && g[6] == 0x88 {
        78  // 'N'
    } else if g[0] == 0x70 && g[2] == 0x88 && g[3] == 0x88 && g[6] == 0x70 {
        79  // 'O'
    } else if g[0] == 0xF0 && g[2] == 0x88 && g[3] == 0xF0 && g[6] == 0x80 {
        80  // 'P'
    } else if g[0] == 0x70 && g[2] == 0x88 && g[3] == 0x88 && g[6] == 0x68 {
        81  // 'Q'
    } else if g[0] == 0xF0 && g[2] == 0x88 && g[3] == 0xF0 && g[6] == 0x88 {
        82  // 'R'
    } else if g[0] == 0x70 && g[2] == 0x80 && g[3] == 0x70 && g[6] == 0x70 {
        83  // 'S'
    } else if g[0] == 0xF8 && g[2] == 0x20 && g[3] == 0x20 && g[6] == 0x20 {
        84  // 'T'
    } else if g[0] == 0x88 && g[2] == 0x88 && g[3] == 0x88 && g[6] == 0x70 {
        85  // 'U'
    } else if g[0] == 0x88 && g[2] == 0x88 && g[3] == 0x88 && g[6] == 0x20 {
        86  // 'V'
    } else if g[0] == 0x88 && g[2] == 0x88 && g[3] == 0xA8 && g[6] == 0x88 {
        87  // 'W'
    } else if g[0] == 0x88 && g[2] == 0x50 && g[3] == 0x20 && g[6] == 0x88 {
        88  // 'X'
    } else if g[0] == 0x88 && g[2] == 0x50 && g[3] == 0x20 && g[6] == 0x20 {
        89  // 'Y'
    } else if g[0] == 0xF8 && g[2] == 0x10 && g[3] == 0x20 && g[6] == 0xF8 {
        90  // 'Z'
    } else if g[0] == 0x00 && g[2] == 0x20 && g[3] == 0x00 && g[6] == 0x20 {
        58  // ':'
    } else {
        0
    }
}

/// Each glyph is told apart from all others by `glyph_char`.
proof fn lemma_glyph_char(c: u8)
    requires
        has_glyph(c),
    ensures
        glyph_char(glyph_rows(c)) == c,
{
    if c == 48 {
        assert(glyph_char(glyph_rows(48)) == 48);
    } else if c == 49 {
        assert(glyph_char(glyph_rows(49)) == 49);
    } else if c == 50 {
        assert(glyph_char(glyph_rows(50)) == 50);
    } else if c == 51 {
        assert(glyph_char(glyph_rows(51)) == 51);
    } else if c == 52 {
        assert(glyph_char(glyph_rows(52)) == 52);
    } else if c == 53 {
        assert(glyph_char(glyph_rows(53)) == 53);
    } else if c == 54 {
        assert(glyph_char(glyph_rows(54)) == 54);
    } else if c == 55 {
        assert(glyph_char(glyph_rows(55)) == 55);
    } else if c == 56 {
        assert(glyph_char(glyph_rows(56)) == 56);
    } else if c == 57 {
        assert(glyph_char(glyph_rows(57)) == 57);
    } else if c == 65 {
        assert(glyph_char(glyph_rows(65)) == 65);
    } else if c == 66 {
        assert(glyph_char(glyph_rows(66)) == 66);
    } else if c == 67 {
        assert(glyph_char(glyph_rows(67)) == 67);
    } else if c == 68 {
        assert(glyph_char(glyph_rows(68)) == 68);
    } else if c == 69 {
        assert(glyph_char(glyph_rows(69)) == 69);
    } else if c == 70 {
        assert(glyph_char(glyph_rows(70)) == 70);
    } else if c == 71 {
        assert(glyph_char(glyph_rows(71)) == 71);
    } else if c == 72 {
        assert(glyph_char(glyph_rows(72)) == 72);
    } else if c == 73 {
        assert(glyph_char(glyph_rows(73)) == 73);
    } else if c == 74 {
        assert(glyph_char(glyph_rows(74)) == 74);
    } else if c == 75 {
        assert(glyph_char(glyph_rows(75)) == 75);
    } else if c == 76 {
        assert(glyph_char(glyph_rows(76)) == 76);
    } else if c == 77 {
        assert(glyph_char(glyph_rows(77)) == 77);
    } else if c == 78 {
        assert(glyph_char(glyph_rows(78)) == 78);
    } else if c == 79 {
        assert(glyph_char(glyph_rows(79)) == 79);
    } else if c == 80 {
        assert(glyph_char(glyph_rows(80)) == 80);
    } else if c == 81 {
        assert(glyph_char(glyph_rows(81)) == 81);
    } else if c == 82 {
        assert(glyph_char(glyph_rows(82)) == 82);
    } else if c == 83 {
        assert(glyph_char(glyph_rows(83)) == 83);
    } else if c == 84 {
        assert(glyph_char(glyph_rows(84)) == 84);
    } else if c == 85 {
        assert(glyph_char(glyph_rows(85)) == 85);
    } else if c == 86 {
        assert(glyph_char(glyph_rows(86)) == 86);
    } else if c == 87 {
        assert(glyph_char(glyph_rows(87)) == 87);
    } else if c == 88 {
        assert(glyph_char(glyph_rows(88)) == 88);
    } else if c == 89 {
        assert(glyph_char(glyph_rows(89)) == 89);
    } else if c == 90 {
        assert(glyph_char(glyph_rows(90)) == 90);
    } else if c == 58 {
        assert(glyph_char(glyph_rows(58)) == 58);
    }
}

/// Different characters with glyphs of their own have different bitmaps,
/// and none of them is blank like the bytes without a glyph.
pub proof fn lemma_glyphs_distinct(c1: u8, c2: u8)
    requires
        has_glyph(c1),
        c1 != c2,
    ensures
        glyph_rows(c1) != glyph_rows(c2),
{
    lemma_glyph_char(c1);
    if has_glyph(c2) {
        lemma_glyph_char(c2);
    } else {
        assert(glyph_rows(c2) == seq![0x00u8, 0x00, 0x00, 0x00, 0x00, 0x00, 0x00, 0x00]);
        assert(glyph_char(glyph_rows(c2)) == 0);
    }
}

/// Whether column `col` (0 leftmost) of a glyph row is set.
pub open spec fn glyph_bit(bits: u8, col: u32) -> bool {
    ((bits >> ((7 - col) as u32)) & 1u8) == 1u8
}

/// Whether a glyph drawn at `(px, py)` with `scale`-pixel cells has all its
/// pixel coordinates within `u32`.
pub open spec fn glyph_fits(px: int, py: int, scale: int) -> bool {
    scale == 0 || (px + 8 * scale - 1 <= u32::MAX && py + 8 * scale - 1 <= u32::MAX)
}

/// The stores for the cell in row `row`, column `col` of a glyph: a
/// `scale` x `scale` block in the `on` colour where the bit is set and the
/// `off` colour where it is clear.
pub open spec fn cell_writes(
    cfg: FrameConfig,
    g: Seq<u8>,
    on: PackedColor,
    off: PackedColor,
    px: int,
    py: int,
    scale: int,
    row: int,
    col: int,
    signed: bool,
) -> Seq<FramebufferWrite> {
    let c = if glyph_bit(g[row], col as u32) {
        on
    } else {
        off
    };
    let ox = px + col * scale;
    let oy = py + row * scale;
    rows(cfg, c, oy, oy + scale - 1, ox, ox + scale - 1, all_pixels(), signed)
}

/// The stores for the first `ncols` cells of glyph row `row`.
pub open spec fn glyph_row_writes(
    cfg: FrameConfig,
    g: Seq<u8>,
    on: PackedColor,
    off: PackedColor,
    px: int,
    py: int,
    scale: int,
    row: int,
    ncols: int,
    signed: bool,
) -> Seq<FramebufferWrite>
    decreases ncols,
{
    if ncols <= 0 {
        Seq::empty()
    } else {
        glyph_row_writes(cfg, g, on, off, px, py, scale, row, ncols - 1, signed) + cell_writes(
            cfg,
            g,
            on,
            off,
            px,
            py,
            scale,
            row,
            ncols - 1,
            signed,
        )
    }
}

/// The stores for the first `nrows` rows of a glyph, each row left to right.
pub open spec fn glyph_writes(
    cfg: FrameConfig,
    g: Seq<u8>,
    on: PackedColor,
    off: PackedColor,
    px: int,
    py: int,
    scale: int,
    nrows: int,
    signed: bool,
) -> Seq<FramebufferWrite>
    decreases nrows,
{
    if nrows <= 0 {
        Seq::empty()
    } else {
        glyph_writes(cfg, g, on, off, px, py, scale, nrows - 1, signed) + glyph_row_writes(
            cfg,
            g,
            on,
            off,
            px,
            py,
            scale,
            nrows - 1,
            8,
            signed,
        )
    }
}

/// Whether the address of every pixel of a glyph drawn at `(px, py)` with
/// `scale`-pixel cells can be computed.
pub open spec fn glyph_addressable(cfg: FrameConfig, px: int, py: int, scale: int, signed: bool) -> bool {
    region_addressable(cfg, py, py + 8 * scale - 1, px, px + 8 * scale - 1, all_pixels(), signed)
}

/// Appends the stores that draw bitmap `g` with its top-left corner at
/// `(px, py)`, each bit a `scale` x `scale` block.
pub fn render_glyph(
    out: &mut Vec<FramebufferWrite>,
    cfg: &FrameConfig,
    g: &[u8; 8],
    on: &PackedColor,
    off: &PackedColor,
    px: u32,
    py: u32,
    scale: u32,
    signed: bool,
)
    requires
        glyph_addressable(*cfg, px as int, py as int, scale as int, signed),
        glyph_fits(px as int, py as int, scale as int),
    ensures
        final(out)@ == old(out)@ + glyph_writes(
            *cfg,
            g@,
            *on,
            *off,
            px as int,
            py as int,
            scale as int,
            8,
            signed,
        ),
{
    let ghost start = out@;
    let ghost gs = g@;
    let mut row: u32 = 0;
    while row < 8
        invariant
            row <= 8,
            gs == g@,
            gs.len() == 8,
            glyph_addressable(*cfg, px as int, py as int, scale as int, signed),
            glyph_fits(px as int, py as int, scale as int),
            out@ == start + glyph_writes(
                *cfg,
                gs,
                *on,
                *off,
                px as int,
                py as int,
                scale as int,
                row as int,
                signed,
            ),
        decreases 8 - row,
    {
        let ghost before_row = out@;
        let bits = g[row as usize];
        let mut col: u32 = 0;
        while col < 8
            invariant
                col <= 8,
                row < 8,
                gs == g@,
                gs.len() == 8,
                bits == gs[row as int],
                glyph_addressable(*cfg, px as int, py as int, scale as int, signed),
                glyph_fits(px as int, py as int, scale as int),
                out@ == before_row + glyph_row_writes(
                    *cfg,
                    gs,
                    *on,
                    *off,
                    px as int,
                    py as int,
                    scale as int,
                    row as int,
                    col as int,
                    signed,
                ),
            decreases 8 - col,
        {
            let ghost prev = out@;
            let shift: u32 = 7 - col;
            let color = if (bits >> shift) & 1 == 1 {
                on
            } else {
                off
            };
            if scale > 0 {
                assert(col * scale <= 7 * scale && row * scale <= 7 * scale) by (nonlinear_arith)
                    requires
                        col < 8,
                        row < 8,
                ;
                let ox = px + col * scale;
                let oy = py + row * scale;
                proof {
                    lemma_region_addressable_within(
                        *cfg,
                        py as int,
                        py + 8 * scale - 1,
                        px as int,
                        px + 8 * scale - 1,
                        oy as int,
                        oy + scale - 1,
                        ox as int,
                        ox + scale - 1,
                        signed,
                    );
                }
                fill_rect(out, cfg, color, ox, ox + (scale - 1), oy, oy + (scale - 1), signed);
            }
            assert(out@ =~= prev + cell_writes(
                *cfg,
                gs,
                *on,
                *off,
                px as int,
                py as int,
                scale as int,
                row as int,
                col as int,
                signed,
            ));
            assert(out@ =~= before_row + glyph_row_writes(
                *cfg,
                gs,
                *on,
                *off,
                px as int,
                py as int,
                scale as int,
                row as int,
                col as int + 1,
                signed,
            ));
            col = col + 1;
        }
        assert(out@ =~= start + glyph_writes(
            *cfg,
            gs,
            *on,
            *off,
            px as int,
            py as int,
            scale as int,
            row as int + 1,
            signed,
        ));
        row = row + 1;
    }
}

proof fn lemma_glyph_row_within_pixels(
    cfg: FrameConfig,
    g: Seq<u8>,
    on: PackedColor,
    off: PackedColor,
    px: int,
    py: int,
    scale: int,
    row: int,
    ncols: int,
    signed: bool,
)
    requires
        glyph_addressable(cfg, px, py, scale, signed),
        scale >= 0,
        0 <= row < 8,
        ncols <= 8,
    ensures
        all_within_pixels(cfg, glyph_row_writes(cfg, g, on, off, px, py, scale, row, ncols, signed)),
    decreases ncols,
{
    if ncols > 0 {
        lemma_glyph_row_within_pixels(cfg, g, on, off, px, py, scale, row, ncols - 1, signed);
        let col = ncols - 1;
        let c = if glyph_bit(g[row], col as u32) {
            on
        } else {
            off
        };
        let ox = px + col * scale;
        let oy = py + row * scale;
        assert(0 <= col * scale <= 7 * scale && 0 <= row * scale <= 7 * scale) by (nonlinear_arith)
            requires
                0 <= col < 8,
                0 <= row < 8,
                scale >= 0,
        ;
        lemma_region_addressable_within(
            cfg,
            py,
            py + 8 * scale - 1,
            px,
            px + 8 * scale - 1,
            oy,
            oy + scale - 1,
            ox,
            ox + scale - 1,
            signed,
        );
        lemma_rows_within_pixels(cfg, c, oy, oy + scale - 1, ox, ox + scale - 1, all_pixels(), signed);
        lemma_concat_within_pixels(
            cfg,
            glyph_row_writes(cfg, g, on, off, px, py, scale, row, ncols - 1, signed),
            cell_writes(cfg, g, on, off, px, py, scale, row, col, signed),
        );
    }
}

/// Drawing a glyph only stores to pixels of the framebuffer.
pub proof fn lemma_glyph_within_pixels(
    cfg: FrameConfig,
    g: Seq<u8>,
    on: PackedColor,
    off: PackedColor,
    px: int,
    py: int,
    scale: int,
    nrows: int,
    signed: bool,
)
    requires
        glyph_addressable(cfg, px, py, scale, signed),
        scale >= 0,
        nrows <= 8,
    ensures
        all_within_pixels(cfg, glyph_writes(cfg, g, on, off, px, py, scale, nrows, signed)),
    decreases nrows,
{
    if nrows > 0 {
        lemma_glyph_within_pixels(cfg, g, on, off, px, py, scale, nrows - 1, signed);
        lemma_glyph_row_within_pixels(cfg, g, on, off, px, py, scale, nrows - 1, 8, signed);
        lemma_concat_within_pixels(
            cfg,
            glyph_writes(cfg, g, on, off, px, py, scale, nrows - 1, signed),
            glyph_row_writes(cfg, g, on, off, px, py, scale, nrows - 1, 8, signed),
        );
    }
}

proof fn lemma_glyph_row_on_rows(
    cfg: FrameConfig,
    g: Seq<u8>,
    on: PackedColor,
    off: PackedColor,
    px: int,
    py: int,
    scale: int,
    row: int,
    ncols: int,
)
    requires
        scale >= 0,
        0 <= row < 8,
    ensures
        on_rows(
            cfg,
            glyph_row_writes(cfg, g, on, off, px, py, scale, row, ncols, false),
            py,
            py + 8 * scale - 1,
        ),
    decreases ncols,
{
    if ncols > 0 {
        lemma_glyph_row_on_rows(cfg, g, on, off, px, py, scale, row, ncols - 1);
        let col = ncols - 1;
        let c = if glyph_bit(g[row], col as u32) {
            on
        } else {
            off
        };
        let ox = px + col * scale;
        let oy = py + row * scale;
        assert(0 <= row * scale <= 7 * scale) by (nonlinear_arith)
            requires
                0 <= row < 8,
                scale >= 0,
        ;
        lemma_rows_on_rows(cfg, c, oy, oy + scale - 1, ox, ox + scale - 1, all_pixels());
        lemma_on_rows_widen(
            cfg,
            cell_writes(cfg, g, on, off, px, py, scale, row, col, false),
            oy,
            oy + scale - 1,
            py,
            py + 8 * scale - 1,
        );
        lemma_on_rows_concat(
            cfg,
            glyph_row_writes(cfg, g, on, off, px, py, scale, row, ncols - 1, false),
            cell_writes(cfg, g, on, off, px, py, scale, row, col, false),
            py,
            py + 8 * scale - 1,
        );
    }
}

/// A glyph drawn at `(px, py)` only stores to pixels of its rows
/// `py..py + 8 * scale`.
pub proof fn lemma_glyph_on_rows(
    cfg: FrameConfig,
    g: Seq<u8>,
    on: PackedColor,
    off: PackedColor,
    px: int,
    py: int,
    scale: int,
    nrows: int,
)
    requires
        scale >= 0,
        nrows <= 8,
    ensures
        on_rows(cfg, glyph_writes(cfg, g, on, off, px, py, scale, nrows, false), py, py + 8 * scale - 1),
    decreases nrows,
{
    if nrows > 0 {
        lemma_glyph_on_rows(cfg, g, on, off, px, py, scale, nrows - 1);
        lemma_glyph_row_on_rows(cfg, g, on, off, px, py, scale, nrows - 1, 8);
        lemma_on_rows_concat(
            cfg,
            glyph_writes(cfg, g, on, off, px, py, scale, nrows - 1, false),
            glyph_row_writes(cfg, g, on, off, px, py, scale, nrows - 1, 8, false),
            py,
            py + 8 * scale - 1,
        );
    }
}

/// The bitmap of a blank glyph.
pub open spec fn blank_glyph() -> Seq<u8> {
    seq![0x00u8, 0x00, 0x00, 0x00, 0x00, 0x00, 0x00, 0x00]
}

proof fn lemma_blank_bits()
    ensures
        forall|col: u32| !#[trigger] glyph_bit(0u8, col),
{
    assert(forall|k: u32| ((0u8 >> k) & 1u8) == 0u8) by (bit_vector);
    assert forall|col: u32| !#[trigger] glyph_bit(0u8, col) by {
        assert(((0u8 >> ((7 - col) as u32)) & 1u8) == 0u8);
    }
}

proof fn lemma_blank_row_contains(
    cfg: FrameConfig,
    on: PackedColor,
    off: PackedColor,
    px: int,
    py: int,
    scale: int,
    row: int,
    ncols: int,
    w: FramebufferWrite,
)
    requires
        scale > 0,
        0 <= row < 8,
        0 <= ncols <= 8,
    ensures
        glyph_row_writes(cfg, blank_glyph(), on, off, px, py, scale, row, ncols, false).contains(w)
            <==> stores_pixel_in(
            cfg,
            off,
            px,
            px + ncols * scale - 1,
            py + row * scale,
            py + row * scale + scale - 1,
            w,
        ),
    decreases ncols,
{
    let oy = py + row * scale;
    if ncols > 0 {
        let col = ncols - 1;
        lemma_blank_row_contains(cfg, on, off, px, py, scale, row, ncols - 1, w);
        lemma_blank_bits();
        assert(blank_glyph()[row] == 0u8);
        assert(!glyph_bit(blank_glyph()[row], col as u32));
        let ox = px + col * scale;
        lemma_rows_contains(cfg, off, oy, oy + scale - 1, ox, ox + scale - 1, w);
        vstd::seq_lib::lemma_seq_concat_contains_all_elements(
            glyph_row_writes(cfg, blank_glyph(), on, off, px, py, scale, row, ncols - 1, false),
            cell_writes(cfg, blank_glyph(), on, off, px, py, scale, row, col, false),
            w,
        );
        assert(px + ncols * scale - 1 == ox + scale - 1 && px + (ncols - 1) * scale == ox)
            by (nonlinear_arith)
            requires
                ox == px + col * scale,
                col == ncols - 1,
        ;
        assert(px <= ox) by (nonlinear_arith)
            requires
                ox == px + col * scale,
                col >= 0,
                scale > 0,
        ;
        lemma_stores_split_columns(cfg, off, px, ox, px + ncols * scale - 1, oy, oy + scale - 1, w);
        let cell = cell_writes(cfg, blank_glyph(), on, off, px, py, scale, row, col, false);
        assert(cell == rows(cfg, off, oy, oy + scale - 1, ox, ox + scale - 1, all_pixels(), false));
        assert(cell.contains(w) <==> stores_pixel_in(cfg, off, ox, ox + scale - 1, oy, oy + scale - 1, w));
        assert(glyph_row_writes(cfg, blank_glyph(), on, off, px, py, scale, row, ncols - 1, false).contains(w)
            <==> stores_pixel_in(cfg, off, px, ox - 1, oy, oy + scale - 1, w));
    } else {
        assert(ncols * scale == 0) by (nonlinear_arith)
            requires
                ncols == 0,
        ;
        if stores_pixel_in(cfg, off, px, px - 1, oy, oy + scale - 1, w) {
            let (x, y) = choose|x: int, y: int|
                #![trigger pixel_store(cfg, x, y, off)]
                px <= x <= px - 1 && oy <= y <= oy + scale - 1 && on_screen(cfg, x, y) && w
                    == pixel_store(cfg, x, y, off);
            assert(false);
        }
    }
}

proof fn lemma_blank_glyph_contains(
    cfg: FrameConfig,
    on: PackedColor,
    off: PackedColor,
    px: int,
    py: int,
    scale: int,
    nrows: int,
    w: FramebufferWrite,
)
    requires
        scale > 0,
        0 <= nrows <= 8,
    ensures
        glyph_writes(cfg, blank_glyph(), on, off, px, py, scale, nrows, false).contains(w)
            <==> stores_pixel_in(cfg, off, px, px + 8 * scale - 1, py, py + nrows * scale - 1, w),
    decreases nrows,
{
    if nrows > 0 {
        let row = nrows - 1;
        lemma_blank_glyph_contains(cfg, on, off, px, py, scale, nrows - 1, w);
        lemma_blank_row_contains(cfg, on, off, px, py, scale, row, 8, w);
        vstd::seq_lib::lemma_seq_concat_contains_all_elements(
            glyph_writes(cfg, blank_glyph(), on, off, px, py, scale, nrows - 1, false),
            glyph_row_writes(cfg, blank_glyph(), on, off, px, py, scale, row, 8, false),
            w,
        );
        assert(py + (nrows - 1) * scale == py + row * scale && py + row * scale + scale - 1 == py
            + nrows * scale - 1) by (nonlinear_arith)
            requires
                row == nrows - 1,
        ;
        assert(py <= py + row * scale) by (nonlinear_arith)
            requires
                row >= 0,
                scale > 0,
        ;
        lemma_stores_split_rows(
            cfg,
            off,
            px,
            px + 8 * scale - 1,
            py,
            py + row * scale,
            py + nrows * scale - 1,
            w,
        );
    } else {
        assert(nrows * scale == 0) by (nonlinear_arith)
            requires
                nrows == 0,
        ;
        if stores_pixel_in(cfg, off, px, px + 8 * scale - 1, py, py - 1, w) {
            let (x, y) = choose|x: int, y: int|
                #![trigger pixel_store(cfg, x, y, off)]
                px <= x <= px + 8 * scale - 1 && py <= y <= py - 1 && on_screen(cfg, x, y) && w
                    == pixel_store(cfg, x, y, off);
            assert(false);
        }
    }
}

/// A blank glyph paints its whole `8 * scale` square in the background
/// colour: its stores are exactly those of the square's existing pixels.
pub proof fn lemma_blank_glyph_paints_square(
    cfg: FrameConfig,
    on: PackedColor,
    off: PackedColor,
    px: int,
    py: int,
    scale: int,
    w: FramebufferWrite,
)
    requires
        scale > 0,
    ensures
        glyph_writes(cfg, blank_glyph(), on, off, px, py, scale, 8, false).contains(w)
            <==> stores_pixel_in(cfg, off, px, px + 8 * scale - 1, py, py + 8 * scale - 1, w),
{
    lemma_blank_glyph_contains(cfg, on, off, px, py, scale, 8, w);
}

proof fn lemma_glyph_row_signed_small(
    cfg: FrameConfig,
    g: Seq<u8>,
    on: PackedColor,
    off: PackedColor,
    px: int,
    py: int,
    scale: int,
    row: int,
    ncols: int,
)
    requires
        scale > 0,
        0 <= row < 8,
        ncols <= 8,
        px + 8 * scale - 1 <= i32::MAX,
        py + 8 * scale - 1 <= i32::MAX,
    ensures
        glyph_row_writes(cfg, g, on, off, px, py, scale, row, ncols, true) == glyph_row_writes(
            cfg,
            g,
            on,
            off,
            px,
            py,
            scale,
            row,
            ncols,
            false,
        ),
    decreases ncols,
{
    if ncols > 0 {
        let col = ncols - 1;
        lemma_glyph_row_signed_small(cfg, g, on, off, px, py, scale, row, ncols - 1);
        let c = if glyph_bit(g[row], col as u32) {
            on
        } else {
            off
        };
        let ox = px + col * scale;
        let oy = py + row * scale;
        assert(col * scale <= 7 * scale && row * scale <= 7 * scale) by (nonlinear_arith)
            requires
                col < 8,
                row < 8,
                scale > 0,
        ;
        lemma_rows_signed_small(cfg, c, oy, oy + scale - 1, ox, ox + scale - 1);
    }
}

/// Where every coordinate of a glyph is at most `i32::MAX`, taking the
/// coordinates as `i32` changes nothing.
pub proof fn lemma_glyph_signed_small(
    cfg: FrameConfig,
    g: Seq<u8>,
    on: PackedColor,
    off: PackedColor,
    px: int,
    py: int,
    scale: int,
    nrows: int,
)
    requires
        scale > 0,
        nrows <= 8,
        px + 8 * scale - 1 <= i32::MAX,
        py + 8 * scale - 1 <= i32::MAX,
    ensures
        glyph_writes(cfg, g, on, off, px, py, scale, nrows, true) == glyph_writes(
            cfg,
            g,
            on,
            off,
            px,
            py,
            scale,
            nrows,
            false,
        ),
    decreases nrows,
{
    if nrows > 0 {
        lemma_glyph_signed_small(cfg, g, on, off, px, py, scale, nrows - 1);
        lemma_glyph_row_signed_small(cfg, g, on, off, px, py, scale, nrows - 1, 8);
    }
}

/// The font: each character it covers (the digits, the upper-case letters
/// and the colon) has its fixed 8x8 bitmap, one byte per
/// row from the top with the leftmost pixel in the high bit, and every
/// other byte is drawn as an empty cell.
pub proof fn lemma_font_bitmaps(c: u8)
    ensures
        glyph_rows(('0' as u8)) == seq![0x70u8, 0x88, 0x98, 0xA8, 0xC8, 0x88, 0x70, 0x00],
        glyph_rows(('1' as u8)) == seq![0x20u8, 0x60, 0x20, 0x20, 0x20, 0x20, 0x70, 0x00],
        glyph_rows(('2' as u8)) == seq![0x70u8, 0x88, 0x08, 0x10, 0x20, 0x40, 0xF8, 0x00],
        glyph_rows(('3' as u8)) == seq![0x70u8, 0x88, 0x08, 0x30, 0x08, 0x88, 0x70, 0x00],
        glyph_rows(('4' as u8)) == seq![0x10u8, 0x30, 0x50, 0x90, 0xF8, 0x10, 0x10, 0x00],
        glyph_rows(('5' as u8)) == seq![0xF8u8, 0x80, 0xF0, 0x08, 0x08, 0x88, 0x70, 0x00],
        glyph_rows(('6' as u8)) == seq![0x30u8, 0x40, 0x80, 0xF0, 0x88, 0x88, 0x70, 0x00],
        glyph_rows(('7' as u8)) == seq![0xF8u8, 0x08, 0x10, 0x20, 0x40, 0x40, 0x40, 0x00],
        glyph_rows(('8' as u8)) == seq![0x70u8, 0x88, 0x88, 0x70, 0x88, 0x88, 0x70, 0x00],
        glyph_rows(('9' as u8)) == seq![0x70u8, 0x88, 0x88, 0x78, 0x08, 0x10, 0x60, 0x00],
        glyph_rows(('A' as u8)) == seq![0x70u8, 0x88, 0x88, 0xF8, 0x88, 0x88, 0x88, 0x00],
        glyph_rows(('B' as u8)) == seq![0xF0u8, 0x88, 0x88, 0xF0, 0x88, 0x88, 0xF0, 0x00],
        glyph_rows(('C' as u8)) == seq![0x70u8, 0x88, 0x80, 0x80, 0x80, 0x88, 0x70, 0x00],
        glyph_rows(('D' as u8)) == seq![0xF0u8, 0x88, 0x88, 0x88, 0x88, 0x88, 0xF0, 0x00],
        glyph_rows(('E' as u8)) == seq![0xF8u8, 0x80, 0x80, 0xF0, 0x80, 0x80, 0xF8, 0x00],
        glyph_rows(('F' as u8)) == seq![0xF8u8, 0x80, 0x80, 0xF0, 0x80, 0x80, 0x80, 0x00],
        glyph_rows(('G' as u8)) == seq![0x70u8, 0x88, 0x80, 0xB8, 0x88, 0x88, 0x70, 0x00],
        glyph_rows(('H' as u8)) == seq![0x88u8, 0x88, 0x88, 0xF8, 0x88, 0x88, 0x88, 0x00],
        glyph_rows(('I' as u8)) == seq![0x70u8, 0x20, 0x20, 0x20, 0x20, 0x20, 0x70, 0x00],
        glyph_rows(('J' as u8)) == seq![0x38u8, 0x10, 0x10, 0x10, 0x90, 0x90, 0x60, 0x00],
        glyph_rows(('K' as u8)) == seq![0x88u8, 0x90, 0xA0, 0xC0, 0xA0, 0x90, 0x88, 0x00],
        glyph_rows(('L' as u8)) == seq![0x80u8, 0x80, 0x80, 0x80, 0x80, 0x80, 0xF8, 0x00],
        glyph_rows(('M' as u8)) == seq![0x88u8, 0xD8, 0xA8, 0xA8, 0x88, 0x88, 0x88, 0x00],
        glyph_rows(('N' as u8)) == seq![0x88u8, 0xC8, 0xA8, 0x98, 0x88, 0x88, 0x88, 0x00],
        glyph_rows(('O' as u8)) == seq![0x70u8, 0x88, 0x88, 0x88, 0x88, 0x88, 0x70, 0x00],
        glyph_rows(('P' as u8)) == seq![0xF0u8, 0x88, 0x88, 0xF0, 0x80, 0x80, 0x80, 0x00],
        glyph_rows(('Q' as u8)) == seq![0x70u8, 0x88, 0x88, 0x88, 0xA8, 0x90, 0x68, 0x00],
        glyph_rows(('R' as u8)) == seq![0xF0u8, 0x88, 0x88, 0xF0, 0xA0, 0x90, 0x88, 0x00],
        glyph_rows(('S' as u8)) == seq![0x70u8, 0x88, 0x80, 0x70, 0x08, 0x88, 0x70, 0x00],
        glyph_rows(('T' as u8)) == seq![0xF8u8, 0x20, 0x20, 0x20, 0x20, 0x20, 0x20, 0x00],
        glyph_rows(('U' as u8)) == seq![0x88u8, 0x88, 0x88, 0x88, 0x88, 0x88, 0x70, 0x00],
        glyph_rows(('V' as u8)) == seq![0x88u8, 0x88, 0x88, 0x88, 0x88, 0x50, 0x20, 0x00],
        glyph_rows(('W' as u8)) == seq![0x88u8, 0x88, 0x88, 0xA8, 0xA8, 0xD8, 0x88, 0x00],
        glyph_rows(('X' as u8)) == seq![0x88u8, 0x88, 0x50, 0x20, 0x50, 0x88, 0x88, 0x00],
        glyph_rows(('Y' as u8)) == seq![0x88u8, 0x88, 0x50, 0x20, 0x20, 0x20, 0x20, 0x00],
        glyph_rows(('Z' as u8)) == seq![0xF8u8, 0x08, 0x10, 0x20, 0x40, 0x80, 0xF8, 0x00],
        glyph_rows((':' as u8)) == seq![0x00u8, 0x20, 0x20, 0x00, 0x00, 0x20, 0x20, 0x00],
        !((('0' as u8) <= c <= ('9' as u8)) || (('A' as u8) <= c <= ('Z' as u8)) || c == (':' as u8)) ==> glyph_rows(c) == seq![
            0u8,
            0,
            0,
            0,
            0,
            0,
            0,
            0,
        ],
{
    assert(glyph_rows(c).len() == 8);
}

/// Column 0 of a glyph row is its high bit and column 7 its low bit, so
/// glyphs are drawn left to right as the bitmaps read.
pub proof fn lemma_glyph_bit_order(bits: u8, col: u32)
    requires
        col < 8,
    ensures
        glyph_bit(bits, col) <==> bits & (0x80u8 >> col) != 0,
{
    assert(((bits >> ((7 - col) as u32)) & 1u8) == 1u8 <==> bits & (0x80u8 >> col) != 0)
        by (bit_vector)
        requires
            col < 8,
    ;
}

} // verus!
