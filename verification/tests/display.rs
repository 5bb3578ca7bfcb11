use lib::board::mailbox::{mbox_get, Board, Mailbox};
use lib::board::screen::{init_buffer, init_request};
use lib::color::{ByteOrder, Color};
use lib::framebuffer::{FrameConfig, FramebufferWrite};
use lib::geometry::Point;
use lib::motherboards::display::{display_buffer, DisplayBuffer};
use lib::motherboards::hdmi::{
    self, draw_pixel, draw_rect, draw_triangle, get_screen_dimensions, DisplayTarget, HdmiBuffer,
};
use lib::property::write_framebuffer_request;
use lib::types::KernelError;

fn small() -> FrameConfig {
    FrameConfig {
        buffer: 0x1000,
        size: 64,
        width: 4,
        height: 3,
        pitch: 16,
        depth: 32,
        bits_per_pixel: 4,
        is_rgb: 1,
    }
}

fn reply() -> Mailbox {
    let mut words = [0u32; 36];
    words[5] = 4;
    words[6] = 3;
    words[20] = 32;
    words[24] = 1;
    words[28] = 0xC000_1000;
    words[29] = 64;
    words[33] = 16;
    Mailbox::from_words(words)
}

fn addrs(ws: &[FramebufferWrite]) -> Vec<usize> {
    ws.iter()
        .map(|w| match w {
            FramebufferWrite::Half { addr, .. } => *addr,
            FramebufferWrite::Word { addr, .. } => *addr,
        })
        .collect()
}

#[test]
fn framebuffer_request_words() {
    let mut m = Mailbox::new();
    write_framebuffer_request(&mut m, 1500, 900);
    let w = m.to_words();
    assert_eq!(w[0], 140);
    assert_eq!(w[1], 0);
    assert_eq!(&w[2..7], &[0x0004_8003, 8, 8, 1500, 900]);
    assert_eq!(&w[7..12], &[0x0004_8004, 8, 8, 1500, 900]);
    assert_eq!(&w[12..17], &[0x0004_8009, 8, 8, 0, 0]);
    assert_eq!(&w[17..21], &[0x0004_8005, 4, 4, 32]);
    assert_eq!(&w[21..25], &[0x0004_8006, 4, 4, 1]);
    assert_eq!(&w[25..30], &[0x0004_0001, 8, 8, 4096, 0]);
    assert_eq!(&w[30..34], &[0x0004_0008, 4, 4, 0]);
    assert_eq!(w[34], 0);
}

#[test]
fn request_resolution_per_target() {
    let mut m = Mailbox::new();
    hdmi::init_request(&mut m, DisplayTarget::Device);
    assert_eq!((mbox_get(&m, 5), mbox_get(&m, 6)), (3440, 1440));
    hdmi::init_request(&mut m, DisplayTarget::Emulator);
    assert_eq!((mbox_get(&m, 10), mbox_get(&m, 11)), (1500, 900));
    init_request(&mut m, Board::Rpi5);
    assert_eq!((mbox_get(&m, 5), mbox_get(&m, 6)), (3440, 1440));
    init_request(&mut m, Board::Rpi4);
    assert_eq!((mbox_get(&m, 5), mbox_get(&m, 6)), (1500, 900));
}

#[test]
fn reply_decodes_to_config() {
    let cfg = init_buffer(true, &reply()).unwrap();
    assert_eq!(cfg.buffer, 0x1000);
    assert_eq!(cfg.size, 64);
    assert_eq!((cfg.width, cfg.height, cfg.pitch), (4, 3, 16));
    assert_eq!(cfg.depth, 32);
    assert_eq!(cfg.bits_per_pixel, 4);
    assert_eq!(cfg.is_rgb, 1);
}

#[test]
fn rejected_replies() {
    assert!(init_buffer(false, &reply()).is_none());
    let mut w = reply().to_words();
    w[20] = 16;
    assert!(init_buffer(true, &Mailbox::from_words(w)).is_none());
    let mut w = reply().to_words();
    w[28] = 0;
    assert!(init_buffer(true, &Mailbox::from_words(w)).is_none());
}

#[test]
fn zero_width_reply_defaults_to_four_bytes_per_pixel() {
    let mut w = reply().to_words();
    w[5] = 0;
    let cfg = init_buffer(true, &Mailbox::from_words(w)).unwrap();
    assert_eq!(cfg.bits_per_pixel, 4);
    let mut w = reply().to_words();
    w[33] = 8;
    let cfg = init_buffer(true, &Mailbox::from_words(w)).unwrap();
    assert_eq!(cfg.bits_per_pixel, 2);
}

#[test]
fn hdmi_buffer_init_error() {
    match HdmiBuffer::new(false, &reply(), ByteOrder::Bgra) {
        Err(e) => assert_eq!(e, KernelError::BufferInitError),
        Ok(_) => panic!("expected an error"),
    }
    assert!(display_buffer(false, &reply(), ByteOrder::Bgra).is_err());
}

#[test]
fn hdmi_buffer_from_reply() {
    let buf = display_buffer(true, &reply(), ByteOrder::Bgra).ok().unwrap();
    let dim = get_screen_dimensions(&buf);
    assert_eq!((dim.width, dim.height), (4, 3));
    assert_eq!(buf.config().buffer, 0x1000);
    let r = buf.debug();
    assert_eq!((r.width, r.height, r.pitch, r.size, r.bits_per_pixel, r.depth), (4, 3, 16, 64, 4, 32));
}

#[test]
fn pixel_dropped_off_screen() {
    let cfg = small();
    let c = Color::red();
    assert_eq!(draw_pixel(&cfg, -1, 0, &c, ByteOrder::Bgra), None);
    assert_eq!(draw_pixel(&cfg, 0, -1, &c, ByteOrder::Bgra), None);
    assert_eq!(draw_pixel(&cfg, 4, 0, &c, ByteOrder::Bgra), None);
    assert_eq!(draw_pixel(&cfg, 0, 3, &c, ByteOrder::Bgra), None);
    assert_eq!(
        draw_pixel(&cfg, 3, 2, &c, ByteOrder::Bgra),
        Some(FramebufferWrite::Word { addr: 0x1000 + 2 * 16 + 3 * 4, value: 0xFFFF_0000 })
    );
    let mut none = small();
    none.buffer = 0;
    assert_eq!(draw_pixel(&none, 0, 0, &c, ByteOrder::Bgra), None);
}

#[test]
fn sixteen_bit_pixels_use_rgb565() {
    let mut cfg = small();
    cfg.bits_per_pixel = 2;
    assert_eq!(
        draw_pixel(&cfg, 1, 1, &Color::green(), ByteOrder::Bgra),
        Some(FramebufferWrite::Half { addr: 0x1000 + 16 + 2, value: 0x07E0 })
    );
}

#[test]
fn rect_is_clipped() {
    let cfg = small();
    let out = draw_rect(&cfg, -5, -5, 1, 0, &Color::blue(), ByteOrder::Bgra);
    assert_eq!(addrs(&out), vec![0x1000, 0x1004]);
    let out = draw_rect(&cfg, 2, 1, 100, 100, &Color::blue(), ByteOrder::Bgra);
    assert_eq!(addrs(&out), vec![0x1018, 0x101C, 0x1028, 0x102C]);
    assert!(draw_rect(&cfg, 5, 0, 9, 2, &Color::blue(), ByteOrder::Bgra).is_empty());
    assert!(draw_rect(&cfg, -9, -9, -1, -1, &Color::blue(), ByteOrder::Bgra).is_empty());
}

#[test]
fn rect_corner_order_does_not_matter() {
    let cfg = small();
    let c = Color::white();
    let a = draw_rect(&cfg, 1, 2, 3, 0, &c, ByteOrder::Bgra);
    let b = draw_rect(&cfg, 3, 0, 1, 2, &c, ByteOrder::Bgra);
    let d = draw_rect(&cfg, 1, 0, 3, 2, &c, ByteOrder::Bgra);
    assert_eq!(a, b);
    assert_eq!(a, d);
    assert_eq!(a.len(), 9);
}

#[test]
fn triangle_fill() {
    let cfg = small();
    let out = draw_triangle(&cfg, 0, 0, 3, 0, 0, 2, &Color::red(), ByteOrder::Bgra);
    assert_eq!(addrs(&out), vec![0x1000, 0x1004, 0x1008, 0x100C, 0x1010, 0x1014, 0x1020]);
}

#[test]
fn triangle_vertex_order_does_not_matter() {
    let cfg = small();
    let c = Color::red();
    let a = draw_triangle(&cfg, 0, 0, 3, 0, 0, 2, &c, ByteOrder::Bgra);
    assert_eq!(a, draw_triangle(&cfg, 0, 0, 0, 2, 3, 0, &c, ByteOrder::Bgra));
    assert_eq!(a, draw_triangle(&cfg, 3, 0, 0, 2, 0, 0, &c, ByteOrder::Bgra));
    assert_eq!(a, draw_triangle(&cfg, 0, 2, 3, 0, 0, 0, &c, ByteOrder::Bgra));
}

#[test]
fn degenerate_triangle_draws_nothing() {
    let cfg = small();
    assert!(draw_triangle(&cfg, 0, 0, 1, 1, 2, 2, &Color::red(), ByteOrder::Bgra).is_empty());
}

#[test]
fn display_buffer_trait_draws() {
    let buf = display_buffer(true, &reply(), ByteOrder::Bgra).ok().unwrap();
    let cleared = buf.clear(&Color::black());
    assert_eq!(cleared.len(), 16);
    assert_eq!(cleared[15], FramebufferWrite::Word { addr: 0x1000 + 60, value: 0xFF00_0000 });
    let r = buf.draw_rect(Point::xy(1), Point::new(2, 1), &Color::red());
    assert_eq!(addrs(&r), vec![0x1014, 0x1018]);
    let t = buf.draw_triangle(Point::new(0, 0), Point::new(3, 0), Point::new(0, 2), &Color::red());
    assert_eq!(t.len(), 7);
}

#[test]
fn points() {
    let p = Point::new(7, -3);
    assert_eq!((p.x(), p.y()), (7, -3));
    let q = Point::xy(100);
    assert_eq!((q.x(), q.y()), (100, 100));
}

#[test]
fn drawing_stays_inside_the_framebuffer() {
    let cfg = small();
    let last = 0x1000 + 2 * 16 + 3 * 4;
    let c = Color::red();
    let mut all = draw_rect(&cfg, -100, -100, 100, 100, &c, ByteOrder::Bgra);
    all.extend(draw_triangle(&cfg, -50, -50, 60, 0, 0, 40, &c, ByteOrder::Bgra));
    all.extend(hdmi::draw_char(&cfg, b'8', 0, 0, 1, ByteOrder::Bgra));
    assert!(!all.is_empty());
    for a in addrs(&all) {
        assert!(0x1000 <= a && a <= last);
    }
}

#[test]
fn clipped_rect_covers_whole_overlap() {
    let cfg = small();
    let out = draw_rect(&cfg, -100, -100, 100, 100, &Color::red(), ByteOrder::Bgra);
    assert_eq!(out.len(), 4 * 3);
    let out = draw_rect(&cfg, 1, -7, 2, 1, &Color::red(), ByteOrder::Bgra);
    assert_eq!(out.len(), 2 * 2);
}

#[test]
fn char_coordinates_past_i32_max_are_dropped() {
    let mut cfg = small();
    cfg.width = u32::MAX - 16;
    cfg.pitch = 0;
    cfg.bits_per_pixel = 0;
    // Columns past i32::MAX become negative once taken as i32.
    let out = hdmi::draw_char(&cfg, b'8', 0x7FFF_FFFC, 0, 1, ByteOrder::Bgra);
    assert_eq!(out.len(), 4 * 3);
    let board = lib::board::screen::draw_char(&cfg, b'8', 0x7FFF_FFFC, 0, 1);
    assert_eq!(board.len(), 8 * 3);
}

#[test]
fn left_to_right_rgb_display() {
    let buf = display_buffer(true, &reply(), ByteOrder::Rgba).ok().unwrap();
    let out = buf.clear(&Color::red());
    assert_eq!(out[0], FramebufferWrite::Word { addr: 0x1000, value: 0xFF00_00FF });
    let cfg = small();
    assert_eq!(
        draw_pixel(&cfg, 0, 0, &Color::from_rgba(0x11, 0x22, 0x33, 0x44), ByteOrder::Rgba),
        Some(FramebufferWrite::Word { addr: 0x1000, value: 0x4433_2211 })
    );
}

#[test]
fn debug_text_lines() {
    let buf = display_buffer(true, &reply(), ByteOrder::Bgra).ok().unwrap();
    let lines = hdmi::debug_lines(&buf.debug());
    let text: Vec<String> = lines.iter().map(|l| String::from_utf8(l.clone()).unwrap()).collect();
    assert_eq!(
        text,
        vec!["Width: 4", "Height: 3", "Pitch: 16", "Size: 64", "Bits per pixel: 4", "Depth: 32"]
    );
}

fn sorted_addrs_and_values(ws: &[FramebufferWrite]) -> Vec<(usize, u32)> {
    let mut v: Vec<(usize, u32)> = ws
        .iter()
        .map(|w| match *w {
            FramebufferWrite::Half { addr, value } => (addr, value as u32),
            FramebufferWrite::Word { addr, value } => (addr, value),
        })
        .collect();
    v.sort();
    v.dedup();
    v
}

#[test]
fn blank_char_paints_a_black_square() {
    let cfg = FrameConfig {
        buffer: 0x2000,
        size: 40 * 20 * 4,
        width: 20,
        height: 12,
        pitch: 80,
        depth: 32,
        bits_per_pixel: 4,
        is_rgb: 1,
    };
    for (c, px, py, scale) in [(b' ', 1u32, 2u32, 1u32), (b'a', 15, 6, 1), (b'?', 3, 0, 2)] {
        let ch = hdmi::draw_char(&cfg, c, px, py, scale, ByteOrder::Bgra);
        let e = (8 * scale - 1) as i32;
        let rect = draw_rect(
            &cfg,
            px as i32,
            py as i32,
            px as i32 + e,
            py as i32 + e,
            &Color::black(),
            ByteOrder::Bgra,
        );
        assert_eq!(sorted_addrs_and_values(&ch), sorted_addrs_and_values(&rect));
    }
}

#[test]
fn triangle_fill_check_is_exact() {
    let cfg = small();
    // Far to the right of the screen: the clamped box is empty, nothing to compute.
    assert!(lib::raster::triangle_can_fill(&cfg, 100_000, 0, 100_010, 0, 100_000, 10));
    assert!(draw_triangle(&cfg, 100_000, 0, 100_010, 0, 100_000, 10, &Color::red(), ByteOrder::Bgra)
        .is_empty());
    // Large but computable coordinates.
    assert!(lib::raster::triangle_can_fill(&cfg, -20_000, -20_000, 20_000, 0, 0, 20_000));
    // The area overflows an i32.
    assert!(!lib::raster::triangle_can_fill(&cfg, -100_000, -100_000, 100_000, 0, 0, 100_000));
    // A degenerate triangle with a computable area needs nothing more.
    assert!(lib::raster::triangle_can_fill(&cfg, 0, 0, 1, 1, 2, 2));
    // A screen width of 2^31 cannot be clamped to.
    let mut wide = small();
    wide.width = 0x8000_0000;
    assert!(!lib::raster::triangle_can_fill(&wide, 0, 0, 3, 0, 0, 2));
}

#[test]
fn triangle_stores_are_the_inside_pixels() {
    let cfg = small();
    // A triangle larger than the screen covers every pixel inside it.
    let out = draw_triangle(&cfg, -10, -10, 20, -10, -10, 20, &Color::red(), ByteOrder::Bgra);
    let mut expected = Vec::new();
    for y in 0..3i64 {
        for x in 0..4i64 {
            if x + y <= 10 {
                expected.push(0x1000 + (y * 16 + x * 4) as usize);
            }
        }
    }
    assert_eq!(addrs(&out), expected);
}
