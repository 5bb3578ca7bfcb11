use lib::board::color::Color;
use lib::board::debug::{debug_dump, log_line, log_u32, number_to_char_array, DebugLog};
use lib::board::screen::{clear, draw_char, draw_pixel, draw_rect, draw_str, draw_triangle};
use lib::font::glyph;
use lib::framebuffer::{FrameConfig, FramebufferWrite};

fn board_config() -> FrameConfig {
    FrameConfig {
        buffer: 0x1000,
        size: 64,
        width: 4,
        height: 3,
        pitch: 16,
        depth: 32,
        bits_per_pixel: 4,
        is_rgb: 1,
    }
}

fn screen(width: u32, height: u32) -> FrameConfig {
    FrameConfig {
        buffer: 0x10000,
        size: (width * height * 4) as usize,
        width,
        height,
        pitch: width * 4,
        depth: 32,
        bits_per_pixel: 4,
        is_rgb: 1,
    }
}

fn store_addr(w: &FramebufferWrite) -> usize {
    match w {
        FramebufferWrite::Half { addr, .. } => *addr,
        FramebufferWrite::Word { addr, .. } => *addr,
    }
}

#[test]
fn clear_paints_every_word() {
    let out = clear(&board_config(), &Color::red());
    assert_eq!(out.len(), 16);
    for (i, w) in out.iter().enumerate() {
        assert_eq!(*w, FramebufferWrite::Word { addr: 0x1000 + 4 * i, value: 0xFF00_00FF });
    }
}

#[test]
fn clear_with_sixteen_bit_pixels_stores_halves_per_word() {
    let mut cfg = board_config();
    cfg.bits_per_pixel = 2;
    let out = clear(&cfg, &Color::white());
    assert_eq!(out.len(), 16);
    assert_eq!(out[1], FramebufferWrite::Half { addr: 0x1004, value: 0xFFFF });
}

#[test]
fn clear_without_buffer_does_nothing() {
    let mut cfg = board_config();
    cfg.buffer = 0;
    assert!(clear(&cfg, &Color::red()).is_empty());
    let mut cfg = board_config();
    cfg.size = 0;
    assert!(clear(&cfg, &Color::red()).is_empty());
}

#[test]
fn board_pixel_and_rect() {
    let cfg = board_config();
    assert_eq!(draw_pixel(&cfg, 4, 0, &Color::red()), None);
    assert_eq!(
        draw_pixel(&cfg, 1, 2, &Color::red()),
        Some(FramebufferWrite::Word { addr: 0x1000 + 32 + 4, value: 0xFF00_00FF })
    );
    let out = draw_rect(&cfg, 1, 1, 2, 2, &Color::red());
    let a: Vec<usize> = out.iter().map(store_addr).collect();
    assert_eq!(a, vec![0x1014, 0x1018, 0x1024, 0x1028]);
    // Off-screen pixels are dropped, the corners are taken as given.
    let out = draw_rect(&cfg, 3, 2, 10, 10, &Color::red());
    assert_eq!(out.len(), 1);
    assert!(draw_rect(&cfg, 2, 0, 1, 2, &Color::red()).is_empty());
}

#[test]
fn board_triangle() {
    let out = draw_triangle(&board_config(), 0, 0, 3, 0, 0, 2, &Color::green());
    assert_eq!(out.len(), 7);
}

#[test]
fn glyph_bitmaps() {
    assert_eq!(glyph(b'A'), [0x70, 0x88, 0x88, 0xF8, 0x88, 0x88, 0x88, 0x00]);
    assert_eq!(glyph(b'0'), [0x70, 0x88, 0x98, 0xA8, 0xC8, 0x88, 0x70, 0x00]);
    assert_eq!(glyph(b':'), [0x00, 0x20, 0x20, 0x00, 0x00, 0x20, 0x20, 0x00]);
    assert_eq!(glyph(b'a'), [0; 8]);
}

#[test]
fn char_pixels_follow_the_glyph() {
    let cfg = screen(8, 8);
    let out = draw_char(&cfg, b'A', 0, 0, 1);
    assert_eq!(out.len(), 64);
    let g = glyph(b'A');
    for row in 0..8usize {
        for col in 0..8usize {
            let w = out[row * 8 + col];
            let set = (g[row] >> (7 - col)) & 1 == 1;
            let value = if set { 0xFFFF_FFFF } else { 0xFF00_0000 };
            assert_eq!(w, FramebufferWrite::Word { addr: 0x10000 + row * 32 + col * 4, value });
        }
    }
}

#[test]
fn scaled_char_uses_blocks() {
    let cfg = screen(16, 16);
    let out = draw_char(&cfg, b'1', 0, 0, 2);
    assert_eq!(out.len(), 256);
    // The first cell is a 2x2 block at the top-left corner.
    let a: Vec<usize> = out[..4].iter().map(store_addr).collect();
    assert_eq!(a, vec![0x10000, 0x10004, 0x10000 + 64, 0x10000 + 64 + 4]);
    assert!(draw_char(&cfg, b'1', 0, 0, 0).is_empty());
}

#[test]
fn string_advances_by_cells() {
    let cfg = screen(32, 8);
    let out = draw_str(&cfg, b"AB", 0, 0, 1);
    assert_eq!(out.len(), 128);
    assert_eq!(store_addr(&out[64]), 0x10000 + 8 * 4);
    // Characters past the right edge are clipped away pixel by pixel.
    let out = draw_str(&cfg, b"ABCDE", 0, 0, 1);
    assert_eq!(out.len(), 4 * 64);
}

#[test]
fn decimal_digits() {
    let (d, n) = number_to_char_array::<12>(1234);
    assert_eq!(n, 4);
    assert_eq!(&d[..4], b"1234");
    assert!(d[4..].iter().all(|&b| b == 0));
    let (d, n) = number_to_char_array::<12>(4_294_967_295);
    assert_eq!(n, 10);
    assert_eq!(&d[..10], b"4294967295");
    let (d, n) = number_to_char_array::<4>(7);
    assert_eq!((n, d), (1, [b'7', 0, 0, 0]));
}

#[test]
fn decimal_zero_lands_in_last_byte() {
    let (d, n) = number_to_char_array::<12>(0);
    assert_eq!(n, 1);
    assert_eq!(d[11], b'0');
    assert_eq!(d[0], 0);
}

#[test]
fn log_line_text() {
    assert_eq!(log_line(b"W", 0x1234), b"W:00001234 OR 4660".to_vec());
    assert_eq!(log_line(b"FB", 0xDEAD_BEEF), b"FB:DEADBEEF OR 3735928559".to_vec());
    assert_eq!(log_line(b"H", 0), b"H:00000000 OR \0".to_vec());
}

#[test]
fn hex_and_decimal_read_back() {
    for v in [0u32, 9, 10, 255, 4660, 0x8000_0000, u32::MAX] {
        let line = log_line(b"K", v);
        let hex = std::str::from_utf8(&line[2..10]).unwrap();
        assert_eq!(u32::from_str_radix(hex, 16).unwrap(), v);
        if v != 0 {
            let dec = std::str::from_utf8(&line[14..]).unwrap();
            assert_eq!(dec.parse::<u32>().unwrap(), v);
        }
    }
}

#[test]
fn log_lines_go_down_the_right_edge() {
    let cfg = screen(300, 100);
    let mut log = DebugLog::new();
    let first = log_u32(&mut log, &cfg, b"W", 300);
    assert_eq!(first.len(), (1 + 13 + 3) * 64);
    assert_eq!(store_addr(&first[0]), 0x10000 + 8 * 1200 + 76 * 4);
    let second = log_u32(&mut log, &cfg, b"W", 1234);
    assert_eq!(store_addr(&second[0]), 0x10000 + 20 * 1200 + 76 * 4);
}

#[test]
fn debug_dump_logs_six_lines() {
    let cfg = screen(300, 100);
    let mut log = DebugLog::new();
    let out = debug_dump(&mut log, &cfg);
    assert_eq!(out.len(), (17 + 17 + 18 + 20 + 20 + 20) * 64);
    let next = log_u32(&mut log, &cfg, b"X", 1);
    assert_eq!(store_addr(&next[0]), 0x10000 + 80 * 1200 + 76 * 4);
}

#[test]
fn supported_glyphs_are_distinct() {
    let chars: Vec<u8> = (b'0'..=b':').chain(b'A'..=b'Z').collect();
    assert_eq!(chars.len(), 37);
    for &a in &chars {
        assert_ne!(glyph(a), [0u8; 8]);
        for &b in &chars {
            if a != b {
                assert_ne!(glyph(a), glyph(b));
            }
        }
    }
}

#[test]
fn successive_log_lines_are_twelve_rows_apart() {
    let cfg = screen(300, 100);
    let mut log = DebugLog::new();
    for i in 0..5usize {
        let line = log_u32(&mut log, &cfg, b"K", i as u32);
        let first = store_addr(&line[0]);
        let last = line.iter().map(store_addr).max().unwrap();
        assert_eq!(first, 0x10000 + (8 + 12 * i) * 1200 + 76 * 4);
        assert!(last < 0x10000 + (8 + 12 * i + 8) * 1200);
    }
}
