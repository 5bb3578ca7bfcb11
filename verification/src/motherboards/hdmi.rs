//! The HDMI framebuffer: set up through the mailbox, drawn with `i32`
//! coordinates; shapes are clipped to the screen and pixels off the screen,
//! negative ones included, are dropped.

use vstd::prelude::*;

use crate::board::debug::{dec_digits, text_line};
use crate::board::mailbox::{
    mbox_call, pending_action, request_word, Mailbox, MboxAction, MboxCall, MboxPhase,
};
use crate::color::{packed_color, ByteOrder, Channels, Color};
use crate::font::{
    blank_glyph, glyph, glyph_addressable, glyph_fits, glyph_rows, glyph_writes, has_glyph,
    lemma_blank_glyph_paints_square, lemma_glyph_signed_small, render_glyph,
};
use crate::framebuffer::{
    all_pixels, all_within_pixels, buffer_addressable, clear_writes, coord, fill_buffer,
    fill_rect, lemma_rows_contains, lemma_rows_len_on_screen, pixel_store, stores_pixel_in, lemma_rows_within_pixels, on_screen, pixel_addressable,
    pixel_at, pixel_write, region_addressable, rows, FrameConfig,
    FramebufferWrite, PackedColor,
};
use crate::property::{
    MBOX_CH_PROP, config_from_reply, decode_framebuffer_reply, framebuffer_request, reply_accepted,
    write_framebuffer_request,
};
use crate::raster::{
    fill_triangle, imax, imin, max_i32, min_i32, triangle_addressable, triangle_computable,
    triangle_writes, vertices, wrap_i32,
};
use crate::types::{KernelError, KernelResult};

verus! {

/// Where the kernel runs: on a device with a wide monitor, or in an
/// emulator.
#[derive(Clone, Copy, Debug, PartialEq, Eq, Structural)]
pub enum DisplayTarget {
    Device,
    Emulator,
}

/// The resolution requested from the firmware for each target.
pub open spec fn physical_size_of(target: DisplayTarget) -> (u32, u32) {
    match target {
        DisplayTarget::Device => (3440, 1440),
        DisplayTarget::Emulator => (1500, 900),
    }
}

pub fn physical_size(target: DisplayTarget) -> (size: (u32, u32))
    ensures
        size == physical_size_of(target),
{
    match target {
        DisplayTarget::Device => (3440, 1440),
        DisplayTarget::Emulator => (1500, 900),
    }
}

/// Fills the message buffer with the framebuffer request for the target's
/// resolution; it is then sent on the property channel.
pub fn init_request(mbox: &mut Mailbox, target: DisplayTarget)
    ensures
        final(mbox)@ == framebuffer_request(physical_size_of(target).0, physical_size_of(target).1).push(
            old(mbox)@[35],
        ),
{
    let (width, height) = physical_size(target);
    write_framebuffer_request(mbox, width, height);
}

/// Fills the message buffer at bus address `addr` with the framebuffer
/// request for the target's resolution and starts the one mailbox call that
/// sends it, on the property channel.
pub fn init_call(mbox: &mut Mailbox, target: DisplayTarget, addr: u32) -> (res: (
    MboxCall,
    MboxAction,
))
    ensures
        final(mbox)@ == framebuffer_request(physical_size_of(target).0, physical_size_of(target).1).push(
            old(mbox)@[35],
        ),
        res.0.request == request_word(addr, MBOX_CH_PROP),
        res.0.phase == MboxPhase::AwaitNotFull,
        res.1 == pending_action(res.0.request, res.0.phase),
{
    init_request(mbox, target);
    mbox_call(addr, MBOX_CH_PROP)
}

/// The framebuffer the firmware granted, and the byte order of its 32-bit
/// pixels.
pub struct HdmiBuffer {
    config: FrameConfig,
    order: ByteOrder,
}

/// What an `HdmiBuffer` holds.
pub struct HdmiState {
    pub config: FrameConfig,
    pub order: ByteOrder,
}

impl View for HdmiBuffer {
    type V = HdmiState;

    closed spec fn view(&self) -> HdmiState {
        HdmiState { config: self.config, order: self.order }
    }
}

impl HdmiBuffer {
    /// The framebuffer described by the answer to the framebuffer request,
    /// drawn with 32-bit pixels in byte order `order`, or `BufferInitError`
    /// when the firmware did not grant one.
    pub fn new(call_ok: bool, mbox: &Mailbox, order: ByteOrder) -> (res: KernelResult<Self>)
        ensures
            match res {
                Ok(buf) => {
                    &&& reply_accepted(call_ok, mbox@)
                    &&& buf@.config == config_from_reply(mbox@)
                    &&& buf@.order == order
                },
                Err(e) => !reply_accepted(call_ok, mbox@) && e == KernelError::BufferInitError,
            },
    {
        match decode_framebuffer_reply(call_ok, mbox) {
            Some(config) => Ok(HdmiBuffer { config, order }),
            None => Err(KernelError::BufferInitError),
        }
    }

    /// The framebuffer's geometry.
    pub fn config(&self) -> (cfg: FrameConfig)
        ensures
            cfg == self@.config,
    {
        self.config
    }

    /// The byte order of the framebuffer's 32-bit pixels.
    pub fn order(&self) -> (order: ByteOrder)
        ensures
            order == self@.order,
    {
        self.order
    }
}

/// The size of the screen in pixels.
pub struct ScreenDimensions {
    pub height: u32,
    pub width: u32,
}

pub fn get_screen_dimensions(buf: &HdmiBuffer) -> (dim: ScreenDimensions)
    ensures
        dim.width == buf@.config.width,
        dim.height == buf@.config.height,
{
    ScreenDimensions { width: buf.config.width, height: buf.config.height }
}

/// Paints the whole framebuffer, one 4-byte word at a time; nothing when
/// there is no buffer.
pub fn clear(cfg: &FrameConfig, color: &Color, order: ByteOrder) -> (out: Vec<FramebufferWrite>)
    requires
        buffer_addressable(*cfg),
    ensures
        out@ == clear_writes(*cfg, packed_color(color@, order)),
{
    fill_buffer(cfg, &color.packed(order))
}

/// Writes a colour to a single pixel, honouring the framebuffer's bytes per
/// pixel. Coordinates outside the screen (including negative) are silently
/// dropped.
pub fn draw_pixel(cfg: &FrameConfig, x: i32, y: i32, color: &Color, order: ByteOrder) -> (w: Option<
    FramebufferWrite,
>)
    requires
        on_screen(*cfg, x as int, y as int) ==> pixel_addressable(*cfg, x as int, y as int),
    ensures
        w == pixel_write(*cfg, x as int, y as int, packed_color(color@, order)),
{
    if x < 0 || y < 0 {
        return None;
    }
    pixel_at(cfg, x as u32, y as u32, &color.packed(order))
}

/// The rectangle spanned by two corners, clipped to the screen.
pub open spec fn clip_xa(x1: int, x2: int) -> int {
    imax(imin(x1, x2), 0)
}

pub open spec fn clip_xb(cfg: FrameConfig, x1: int, x2: int) -> int {
    imin(imax(x1, x2), coord(cfg.width as int, true) - 1)
}

pub open spec fn clip_yb(cfg: FrameConfig, y1: int, y2: int) -> int {
    imin(imax(y1, y2), coord(cfg.height as int, true) - 1)
}

/// The stores that fill the rectangle with corners `(x1, y1)` and
/// `(x2, y2)` (in either order), clipped to the screen, row by row.
pub open spec fn clipped_rect_writes(
    cfg: FrameConfig,
    c: PackedColor,
    x1: int,
    y1: int,
    x2: int,
    y2: int,
) -> Seq<FramebufferWrite> {
    let xa = clip_xa(x1, x2);
    let xb = clip_xb(cfg, x1, x2);
    let ya = clip_xa(y1, y2);
    let yb = clip_yb(cfg, y1, y2);
    if xa > xb || ya > yb {
        Seq::empty()
    } else {
        rows(cfg, c, ya, yb, xa, xb, all_pixels(), false)
    }
}

/// Whether the address of every pixel of the clipped rectangle can be
/// computed.
pub open spec fn rect_addressable(cfg: FrameConfig, x1: int, y1: int, x2: int, y2: int) -> bool {
    region_addressable(
        cfg,
        clip_xa(y1, y2),
        clip_yb(cfg, y1, y2),
        clip_xa(x1, x2),
        clip_xb(cfg, x1, x2),
        all_pixels(),
        false,
    )
}

/// Whether the screen size less one fits in an `i32`.
pub open spec fn clip_computable(cfg: FrameConfig) -> bool {
    cfg.width != 0x8000_0000 && cfg.height != 0x8000_0000
}

/// Whether the screen size less one fits in an `i32`.
pub fn can_clip(cfg: &FrameConfig) -> (b: bool)
    ensures
        b == clip_computable(*cfg),
{
    cfg.width != 0x8000_0000 && cfg.height != 0x8000_0000
}

/// Fills a solid rectangle with the given colour. The rectangle is clipped
/// to the screen, so off-screen (including negative) corners are fine.
pub fn draw_rect(
    cfg: &FrameConfig,
    x1: i32,
    y1: i32,
    x2: i32,
    y2: i32,
    color: &Color,
    order: ByteOrder,
) -> (out: Vec<
    FramebufferWrite,
>)
    requires
        rect_addressable(*cfg, x1 as int, y1 as int, x2 as int, y2 as int),
        clip_computable(*cfg),
    ensures
        out@ == clipped_rect_writes(
            *cfg,
            packed_color(color@, order),
            x1 as int,
            y1 as int,
            x2 as int,
            y2 as int,
        ),
{
    let w = wrap_i32(cfg.width);
    let h = wrap_i32(cfg.height);
    let xa = max_i32(min_i32(x1, x2), 0);
    let xb = min_i32(max_i32(x1, x2), w - 1);
    let ya = max_i32(min_i32(y1, y2), 0);
    let yb = min_i32(max_i32(y1, y2), h - 1);
    let mut out: Vec<FramebufferWrite> = Vec::new();
    if xa > xb || ya > yb {
        return out;  // fully off-screen
    }
    fill_rect(&mut out, cfg, &color.packed(order), xa as u32, xb as u32, ya as u32, yb as u32, false);
    assert(out@ =~= clipped_rect_writes(
        *cfg,
        packed_color(color@, order),
        x1 as int,
        y1 as int,
        x2 as int,
        y2 as int,
    ));
    out
}

/// Fills a triangle given by three vertices, using half-space
/// rasterisation over its bounding box clamped to the screen.
pub fn draw_triangle(
    cfg: &FrameConfig,
    x0: i32,
    y0: i32,
    x1: i32,
    y1: i32,
    x2: i32,
    y2: i32,
    color: &Color,
    order: ByteOrder,
) -> (out: Vec<FramebufferWrite>)
    requires
        triangle_addressable(*cfg, vertices(x0, y0, x1, y1, x2, y2)),
        triangle_computable(*cfg, vertices(x0, y0, x1, y1, x2, y2)),
    ensures
        out@ == triangle_writes(*cfg, packed_color(color@, order), vertices(x0, y0, x1, y1, x2, y2)),
{
    fill_triangle(cfg, &color.packed(order), x0, y0, x1, y1, x2, y2)
}

pub open spec fn white() -> Channels {
    Channels { r: 0xFF, g: 0xFF, b: 0xFF, a: 0xFF }
}

pub open spec fn black() -> Channels {
    Channels { r: 0, g: 0, b: 0, a: 0xFF }
}

/// The stores that draw character `c` at `(px, py)`: each bit of its glyph
/// a `scale` x `scale` block, white where set and black where clear. The
/// coordinates are computed as `u32` and then taken as `i32`.
pub open spec fn char_writes(
    cfg: FrameConfig,
    c: u8,
    px: int,
    py: int,
    scale: int,
    order: ByteOrder,
) -> Seq<
    FramebufferWrite,
> {
    glyph_writes(
        cfg,
        glyph_rows(c),
        packed_color(white(), order),
        packed_color(black(), order),
        px,
        py,
        scale,
        8,
        true,
    )
}

/// Draws a text glyph to the screen based on its bitmap.
pub fn draw_char(cfg: &FrameConfig, c: u8, px: u32, py: u32, scale: u32, order: ByteOrder) -> (out: Vec<
    FramebufferWrite,
>)
    requires
        glyph_addressable(*cfg, px as int, py as int, scale as int, true),
        glyph_fits(px as int, py as int, scale as int),
    ensures
        out@ == char_writes(*cfg, c, px as int, py as int, scale as int, order),
{
    let g = glyph(c);
    let on = Color::white().packed(order);
    let off = Color::black().packed(order);
    let mut out: Vec<FramebufferWrite> = Vec::new();
    render_glyph(&mut out, cfg, &g, &on, &off, px, py, scale, true);
    assert(out@ =~= char_writes(*cfg, c, px as int, py as int, scale as int, order));
    out
}

/// The framebuffer geometry that a debug dump prints, in this order.
pub struct DebugReport {
    pub width: u32,
    pub height: u32,
    pub pitch: u32,
    pub size: usize,
    pub bits_per_pixel: u32,
    pub depth: u32,
}

pub fn debug_dump(cfg: &FrameConfig) -> (r: DebugReport)
    ensures
        r.width == cfg.width,
        r.height == cfg.height,
        r.pitch == cfg.pitch,
        r.size == cfg.size,
        r.bits_per_pixel == cfg.bits_per_pixel,
        r.depth == cfg.depth,
{
    DebugReport {
        width: cfg.width,
        height: cfg.height,
        pitch: cfg.pitch,
        size: cfg.size,
        bits_per_pixel: cfg.bits_per_pixel,
        depth: cfg.depth,
    }
}

/// A rectangle is the same whichever pair of opposite corners gives it and
/// in whichever order, and so is the condition for drawing it.
pub proof fn lemma_rect_corner_order(
    cfg: FrameConfig,
    c: PackedColor,
    x1: int,
    y1: int,
    x2: int,
    y2: int,
)
    ensures
        clipped_rect_writes(cfg, c, x2, y2, x1, y1) == clipped_rect_writes(cfg, c, x1, y1, x2, y2),
        clipped_rect_writes(cfg, c, x1, y2, x2, y1) == clipped_rect_writes(cfg, c, x1, y1, x2, y2),
        rect_addressable(cfg, x2, y2, x1, y1) == rect_addressable(cfg, x1, y1, x2, y2),
        rect_addressable(cfg, x1, y2, x2, y1) == rect_addressable(cfg, x1, y1, x2, y2),
{
}

/// A clipped rectangle only stores to pixels of the framebuffer.
pub proof fn lemma_rect_within_pixels(
    cfg: FrameConfig,
    c: PackedColor,
    x1: int,
    y1: int,
    x2: int,
    y2: int,
)
    requires
        rect_addressable(cfg, x1, y1, x2, y2),
    ensures
        all_within_pixels(cfg, clipped_rect_writes(cfg, c, x1, y1, x2, y2)),
{
    lemma_rows_within_pixels(
        cfg,
        c,
        clip_xa(y1, y2),
        clip_yb(cfg, y1, y2),
        clip_xa(x1, x2),
        clip_xb(cfg, x1, x2),
        all_pixels(),
        false,
    );
}

/// A rectangle that overlaps the screen of an existing framebuffer gets one
/// store for every pixel of the overlap: clipping drops nothing else.
pub proof fn lemma_rect_fills_overlap(
    cfg: FrameConfig,
    c: PackedColor,
    x1: int,
    y1: int,
    x2: int,
    y2: int,
)
    requires
        cfg.buffer != 0,
        clip_xa(x1, x2) <= clip_xb(cfg, x1, x2),
        clip_xa(y1, y2) <= clip_yb(cfg, y1, y2),
    ensures
        clipped_rect_writes(cfg, c, x1, y1, x2, y2).len() == (clip_xb(cfg, x1, x2) - clip_xa(x1, x2)
            + 1) * (clip_yb(cfg, y1, y2) - clip_xa(y1, y2) + 1),
{
    lemma_rows_len_on_screen(
        cfg,
        c,
        clip_xa(y1, y2),
        clip_yb(cfg, y1, y2),
        clip_xa(x1, x2),
        clip_xb(cfg, x1, x2),
    );
}

/// "Width: "
pub open spec fn width_label() -> Seq<u8> {
    seq![87u8, 105, 100, 116, 104, 58, 32]
}

/// "Height: "
pub open spec fn height_label() -> Seq<u8> {
    seq![72u8, 101, 105, 103, 104, 116, 58, 32]
}

/// "Pitch: "
pub open spec fn pitch_label() -> Seq<u8> {
    seq![80u8, 105, 116, 99, 104, 58, 32]
}

/// "Size: "
pub open spec fn size_label() -> Seq<u8> {
    seq![83u8, 105, 122, 101, 58, 32]
}

/// "Bits per pixel: "
pub open spec fn bpp_label() -> Seq<u8> {
    seq![66u8, 105, 116, 115, 32, 112, 101, 114, 32, 112, 105, 120, 101, 108, 58, 32]
}

/// "Depth: "
pub open spec fn depth_label() -> Seq<u8> {
    seq![68u8, 101, 112, 116, 104, 58, 32]
}

/// The labels of the debug text spell, in order, "Width: ", "Height: ",
/// "Pitch: ", "Size: ", "Bits per pixel: " and "Depth: ".
pub proof fn lemma_debug_labels()
    ensures
        width_label() == seq![('W' as u8), ('i' as u8), ('d' as u8), ('t' as u8), ('h' as u8), (':' as u8), (' ' as u8)],
        height_label() == seq![('H' as u8), ('e' as u8), ('i' as u8), ('g' as u8), ('h' as u8), ('t' as u8), (':' as u8), (' ' as u8)],
        pitch_label() == seq![('P' as u8), ('i' as u8), ('t' as u8), ('c' as u8), ('h' as u8), (':' as u8), (' ' as u8)],
        size_label() == seq![('S' as u8), ('i' as u8), ('z' as u8), ('e' as u8), (':' as u8), (' ' as u8)],
        bpp_label() == seq![('B' as u8), ('i' as u8), ('t' as u8), ('s' as u8), (' ' as u8), ('p' as u8), ('e' as u8), ('r' as u8), (' ' as u8), ('p' as u8), ('i' as u8), ('x' as u8), ('e' as u8), ('l' as u8), (':' as u8), (' ' as u8)],
        depth_label() == seq![('D' as u8), ('e' as u8), ('p' as u8), ('t' as u8), ('h' as u8), (':' as u8), (' ' as u8)],
{
    assert(width_label() =~= seq![('W' as u8), ('i' as u8), ('d' as u8), ('t' as u8), ('h' as u8), (':' as u8), (' ' as u8)]);
    assert(height_label() =~= seq![('H' as u8), ('e' as u8), ('i' as u8), ('g' as u8), ('h' as u8), ('t' as u8), (':' as u8), (' ' as u8)]);
    assert(pitch_label() =~= seq![('P' as u8), ('i' as u8), ('t' as u8), ('c' as u8), ('h' as u8), (':' as u8), (' ' as u8)]);
    assert(size_label() =~= seq![('S' as u8), ('i' as u8), ('z' as u8), ('e' as u8), (':' as u8), (' ' as u8)]);
    assert(bpp_label() =~= seq![('B' as u8), ('i' as u8), ('t' as u8), ('s' as u8), (' ' as u8), ('p' as u8), ('e' as u8), ('r' as u8), (' ' as u8), ('p' as u8), ('i' as u8), ('x' as u8), ('e' as u8), ('l' as u8), (':' as u8), (' ' as u8)]);
    assert(depth_label() =~= seq![('D' as u8), ('e' as u8), ('p' as u8), ('t' as u8), ('h' as u8), (':' as u8), (' ' as u8)]);
}

/// The six lines of text that a debug dump prints, without line ends:
/// "Width: ", "Height: ", "Pitch: ", "Size: ", "Bits per pixel: " and
/// "Depth: ", each followed by its value in decimal.
pub fn debug_lines(r: &DebugReport) -> (lines: Vec<Vec<u8>>)
    ensures
        lines@.len() == 6,
        lines@[0]@ == width_label() + dec_digits(r.width as nat),
        lines@[1]@ == height_label() + dec_digits(r.height as nat),
        lines@[2]@ == pitch_label() + dec_digits(r.pitch as nat),
        lines@[3]@ == size_label() + dec_digits(r.size as nat),
        lines@[4]@ == bpp_label() + dec_digits(r.bits_per_pixel as nat),
        lines@[5]@ == depth_label() + dec_digits(r.depth as nat),
{
    let width: [u8; 7] = [87, 105, 100, 116, 104, 58, 32];
    let height: [u8; 8] = [72, 101, 105, 103, 104, 116, 58, 32];
    let pitch: [u8; 7] = [80, 105, 116, 99, 104, 58, 32];
    let size: [u8; 6] = [83, 105, 122, 101, 58, 32];
    let bpp: [u8; 16] = [66, 105, 116, 115, 32, 112, 101, 114, 32, 112, 105, 120, 101, 108, 58, 32];
    let depth: [u8; 7] = [68, 101, 112, 116, 104, 58, 32];
    assert(width@ =~= width_label());
    assert(height@ =~= height_label());
    assert(pitch@ =~= pitch_label());
    assert(size@ =~= size_label());
    assert(bpp@ =~= bpp_label());
    assert(depth@ =~= depth_label());
    let mut lines: Vec<Vec<u8>> = Vec::new();
    lines.push(text_line(&width, r.width as u64));
    lines.push(text_line(&height, r.height as u64));
    lines.push(text_line(&pitch, r.pitch as u64));
    lines.push(text_line(&size, r.size as u64));
    lines.push(text_line(&bpp, r.bits_per_pixel as u64));
    lines.push(text_line(&depth, r.depth as u64));
    lines
}

/// A character without a glyph of its own paints its cell's background: the
/// stores that draw it are, as a set, those of a black rectangle over its
/// `8 * scale` square (the cell is not left transparent).
pub proof fn lemma_blank_char_is_black_rect(
    cfg: FrameConfig,
    c: u8,
    px: int,
    py: int,
    scale: int,
    order: ByteOrder,
)
    requires
        !has_glyph(c),
        scale > 0,
        0 <= px,
        0 <= py,
        px + 8 * scale <= 0x8000_0000,
        py + 8 * scale <= 0x8000_0000,
        cfg.width <= i32::MAX,
        cfg.height <= i32::MAX,
    ensures
        char_writes(cfg, c, px, py, scale, order).to_set() == clipped_rect_writes(
            cfg,
            packed_color(black(), order),
            px,
            py,
            px + 8 * scale - 1,
            py + 8 * scale - 1,
        ).to_set(),
{
    let on = packed_color(white(), order);
    let off = packed_color(black(), order);
    let (xe, ye) = (px + 8 * scale - 1, py + 8 * scale - 1);
    assert(glyph_rows(c) == blank_glyph());
    lemma_glyph_signed_small(cfg, blank_glyph(), on, off, px, py, scale, 8);
    let glyph_set = char_writes(cfg, c, px, py, scale, order).to_set();
    let rect = clipped_rect_writes(cfg, off, px, py, xe, ye);
    let xb = clip_xb(cfg, px, xe);
    let yb = clip_yb(cfg, py, ye);
    assert(clip_xa(px, xe) == px && clip_xa(py, ye) == py);
    assert forall|w: FramebufferWrite| #[trigger] glyph_set.contains(w) == rect.to_set().contains(
        w,
    ) by {
        lemma_blank_glyph_paints_square(cfg, on, off, px, py, scale, w);
        if px <= xb && py <= yb {
            lemma_rows_contains(cfg, off, py, yb, px, xb, w);
        }
        if stores_pixel_in(cfg, off, px, xe, py, ye, w) {
            let (x, y) = choose|x: int, y: int|
                #![trigger pixel_store(cfg, x, y, off)]
                px <= x <= xe && py <= y <= ye && on_screen(cfg, x, y) && w == pixel_store(cfg, x, y, off);
            assert(px <= x <= xb && py <= y <= yb);
            assert(stores_pixel_in(cfg, off, px, xb, py, yb, w));
        }
        if px <= xb && py <= yb && stores_pixel_in(cfg, off, px, xb, py, yb, w) {
            let (x, y) = choose|x: int, y: int|
                #![trigger pixel_store(cfg, x, y, off)]
                px <= x <= xb && py <= y <= yb && on_screen(cfg, x, y) && w == pixel_store(cfg, x, y, off);
            assert(stores_pixel_in(cfg, off, px, xe, py, ye, w));
        }
    }
    assert(glyph_set =~= rect.to_set());
}

} // verus!
