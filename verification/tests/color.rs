use lib::board::color::Color as BoardColor;
use lib::color::{ByteOrder, Color};

#[test]
fn from_rgb_is_opaque_from_rgba() {
    let a = Color::from_rgb(1, 2, 3);
    let b = Color::from_rgba(1, 2, 3, 0xFF);
    assert_eq!(a.to_rgb(ByteOrder::Bgra), b.to_rgb(ByteOrder::Bgra));
    assert_eq!(a.to_rgb565(), b.to_rgb565());
}

#[test]
fn bgra_word_layout() {
    assert_eq!(Color::from_rgba(0x11, 0x22, 0x33, 0x44).to_rgb(ByteOrder::Bgra), 0x4411_2233);
    assert_eq!(Color::from_rgb(1, 2, 3).to_rgb(ByteOrder::Bgra), 0xFF01_0203);
}

#[test]
fn named_colors_as_words() {
    assert_eq!(Color::red().to_rgb(ByteOrder::Bgra), 0xFFFF_0000);
    assert_eq!(Color::green().to_rgb(ByteOrder::Bgra), 0xFF00_FF00);
    assert_eq!(Color::blue().to_rgb(ByteOrder::Bgra), 0xFF00_00FF);
    assert_eq!(Color::black().to_rgb(ByteOrder::Bgra), 0xFF00_0000);
    assert_eq!(Color::white().to_rgb(ByteOrder::Bgra), 0xFFFF_FFFF);
}

#[test]
fn rgb565_packing() {
    assert_eq!(Color::white().to_rgb565(), 0xFFFF);
    assert_eq!(Color::red().to_rgb565(), 0xF800);
    assert_eq!(Color::green().to_rgb565(), 0x07E0);
    assert_eq!(Color::blue().to_rgb565(), 0x001F);
    assert_eq!(Color::black().to_rgb565(), 0);
    assert_eq!(Color::from_rgb(0x12, 0x34, 0x56).to_rgb565(), 4522);
}

#[test]
fn rgb565_fields_read_back() {
    let v = Color::from_rgb(0xAB, 0xCD, 0xEF).to_rgb565();
    assert_eq!(v >> 11, 0xAB >> 3);
    assert_eq!((v >> 5) & 0x3F, 0xCD >> 2);
    assert_eq!(v & 0x1F, 0xEF >> 3);
}

#[test]
fn from_impls_match_methods() {
    let c = Color::from_rgba(9, 8, 7, 6);
    assert_eq!(u32::from(&c), c.to_rgb(ByteOrder::Bgra));
    assert_eq!(u16::from(&c), c.to_rgb565());
    let d = BoardColor::from_rgba(9, 8, 7, 6);
    assert_eq!(u32::from(&d), d.to_rgb());
    assert_eq!(u16::from(&d), d.to_rgb565());
}

#[test]
fn packed_holds_both_encodings() {
    let c = Color::from_rgb(0x12, 0x34, 0x56);
    let p = c.packed(ByteOrder::Bgra);
    assert_eq!(p.half, 4522);
    assert_eq!(p.word, 0xFF12_3456);
}

#[test]
fn board_color_rgba_word_layout() {
    assert_eq!(BoardColor::from_rgb(1, 2, 3).to_rgb(), 0xFF03_0201);
    assert_eq!(BoardColor::from_rgba(0x11, 0x22, 0x33, 0x44).to_rgb(), 0x4433_2211);
    assert_eq!(BoardColor::red().to_rgb(), 0xFF00_00FF);
    assert_eq!(BoardColor::blue().to_rgb(), 0xFFFF_0000);
    assert_eq!(BoardColor::green().to_rgb(), 0xFF00_FF00);
    assert_eq!(BoardColor::white().to_rgb(), 0xFFFF_FFFF);
    assert_eq!(BoardColor::black().to_rgb(), 0xFF00_0000);
    assert_eq!(BoardColor::red().to_rgb565(), 0xF800);
}

#[test]
fn byte_order_law_example() {
    let w = Color::from_rgba(0x10, 0x20, 0x30, 0x40).to_rgb(ByteOrder::Bgra);
    assert_eq!(w & 0xFF, 0x30);
    assert_eq!((w >> 8) & 0xFF, 0x20);
    assert_eq!((w >> 16) & 0xFF, 0x10);
    assert_eq!(w >> 24, 0x40);
    let v = BoardColor::from_rgba(0x10, 0x20, 0x30, 0x40).to_rgb();
    assert_eq!(v.to_le_bytes(), [0x10, 0x20, 0x30, 0x40]);
}

#[test]
fn left_to_right_rgb_word_layout() {
    let c = Color::from_rgba(0x11, 0x22, 0x33, 0x44);
    assert_eq!(c.to_rgb(ByteOrder::Bgra), 0x4411_2233);
    assert_eq!(c.to_rgb(ByteOrder::Rgba), 0x4433_2211);
    assert_eq!(c.to_rgb(ByteOrder::Rgba).to_le_bytes(), [0x11, 0x22, 0x33, 0x44]);
    assert_eq!(c.to_rgb(ByteOrder::Bgra).to_le_bytes(), [0x33, 0x22, 0x11, 0x44]);
    let p = c.packed(ByteOrder::Rgba);
    assert_eq!(p.word, 0x4433_2211);
    assert_eq!(p.half, c.to_rgb565());
}
