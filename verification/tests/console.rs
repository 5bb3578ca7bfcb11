use lib::board::mailbox::Mailbox;
use lib::color::ByteOrder;
use lib::framebuffer::FramebufferWrite;
use lib::motherboards::console::console;
use lib::motherboards::hdmi::HdmiBuffer;

fn buffer(width: u32, height: u32) -> HdmiBuffer {
    let mut words = [0u32; 36];
    words[5] = width;
    words[6] = height;
    words[20] = 32;
    words[28] = 0x4000;
    words[29] = width * height * 4;
    words[33] = width * 4;
    HdmiBuffer::new(true, &Mailbox::from_words(words), ByteOrder::Bgra).ok().unwrap()
}

fn console_addr(w: &FramebufferWrite) -> usize {
    match w {
        FramebufferWrite::Half { addr, .. } => *addr,
        FramebufferWrite::Word { addr, .. } => *addr,
    }
}

fn cell(x: usize, y: usize) -> usize {
    0x4000 + y * 80 + x * 4
}

#[test]
fn console_writes_and_wraps() {
    let buf = buffer(20, 30);
    let mut con = console();
    let out = con.write_str(&buf, b"ab\ncd");
    assert_eq!(out.len(), 4 * 64);
    assert_eq!(console_addr(&out[0]), cell(0, 0));
    assert_eq!(console_addr(&out[64]), cell(8, 0));
    assert_eq!(console_addr(&out[128]), cell(0, 10));
    assert_eq!(console_addr(&out[192]), cell(8, 10));
    // The next cell would cross the right edge: wrap to the next line.
    let out = con.write_str(&buf, b"e");
    assert_eq!(console_addr(&out[0]), cell(0, 20));
    // The line after that would not fit: start over at the top.
    let out = con.write_str(&buf, b"\nf");
    assert_eq!(console_addr(&out[0]), cell(0, 0));
}

#[test]
fn console_folds_lower_case() {
    let buf = buffer(16, 8);
    let lower = console().write_str(&buf, b"a");
    let upper = console().write_str(&buf, b"A");
    assert_eq!(lower, upper);
}

#[test]
fn carriage_return_goes_to_line_start() {
    let buf = buffer(40, 30);
    let mut con = console();
    let out = con.write_str(&buf, b"AB\rC");
    assert_eq!(out.len(), 3 * 64);
    assert_eq!(console_addr(&out[128]), 0x4000);
}

#[test]
fn console_column_stays_on_cell_boundaries() {
    let buf = buffer(20, 300);
    let mut con = console();
    let out = con.write_str(&buf, b"HELLO WORLD\rAB\nC");
    assert_eq!(out.len() % 64, 0);
    for chunk in out.chunks(64) {
        let x = (console_addr(&chunk[0]) - 0x4000) % 80 / 4;
        assert_eq!(x % 8, 0);
        assert!(x + 8 <= 20);
    }
}

#[test]
fn console_never_overflows_from_the_top_left() {
    let buf = buffer(16, 20);
    let mut con = console();
    let text: Vec<u8> = b"The quick brown fox\njumps\r\nover the lazy dog\n\n\n".iter().cycle().take(2000).copied().collect();
    assert!(con.fits(&buf, &text));
    let out = con.write_str(&buf, &text);
    assert_eq!(out.len() % 64, 0);
    for chunk in out.chunks(64) {
        let off = console_addr(&chunk[0]) - 0x4000;
        let (x, y) = (off % 64 / 4, off / 64);
        assert_eq!(x % 8, 0);
        assert!(x + 8 <= 16);
        assert!(y == 0 || y + 8 <= 20);
    }
}
