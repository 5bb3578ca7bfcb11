//! The board driver's screen: it asks the firmware for a framebuffer
//! through the mailbox and draws into it with `u32` coordinates; pixels off
//! the screen are dropped.

use vstd::prelude::*;

use crate::board::color::{packed_rgba, Color};
use crate::board::mailbox::{
    mbox_call, pending_action, request_word, Board, Mailbox, MboxAction, MboxCall, MboxPhase,
};
use crate::color::Channels;
use crate::font::{
    glyph, glyph_addressable, glyph_fits, glyph_rows, glyph_writes, lemma_glyph_on_rows,
    render_glyph,
};
use crate::framebuffer::{
    all_pixels, buffer_addressable, clear_writes, fill_buffer, fill_rect,
    lemma_on_rows_concat, lemma_region_addressable_within, on_rows, on_screen, pixel_addressable, pixel_at, pixel_write,
    region_addressable, rows, FrameConfig, FramebufferWrite,
};
use crate::property::{
    MBOX_CH_PROP, config_from_reply, decode_framebuffer_reply, framebuffer_request, reply_accepted,
    write_framebuffer_request,
};
use crate::raster::{
    fill_triangle, triangle_addressable, triangle_computable, triangle_writes, vertices,
};

verus! {

/// The resolution requested from the firmware on each board.
pub open spec fn physical_size_of(board: Board) -> (u32, u32) {
    match board {
        Board::Rpi5 => (3440, 1440),
        Board::Rpi4 => (1500, 900),
    }
}

pub fn physical_size(board: Board) -> (size: (u32, u32))
    ensures
        size == physical_size_of(board),
{
    match board {
        Board::Rpi5 => (3440, 1440),
        Board::Rpi4 => (1500, 900),
    }
}

/// Fills the message buffer with the framebuffer request for the board's
/// resolution; it is then sent on the property channel.
pub fn init_request(mbox: &mut Mailbox, board: Board)
    ensures
        final(mbox)@ == framebuffer_request(physical_size_of(board).0, physical_size_of(board).1).push(
            old(mbox)@[35],
        ),
{
    let (width, height) = physical_size(board);
    write_framebuffer_request(mbox, width, height);
}

/// Fills the message buffer at bus address `addr` with the framebuffer
/// request for the board's resolution and starts the one mailbox call that
/// sends it, on the property channel.
pub fn init_call(mbox: &mut Mailbox, board: Board, addr: u32) -> (res: (MboxCall, MboxAction))
    ensures
        final(mbox)@ == framebuffer_request(physical_size_of(board).0, physical_size_of(board).1).push(
            old(mbox)@[35],
        ),
        res.0.request == request_word(addr, MBOX_CH_PROP),
        res.0.phase == MboxPhase::AwaitNotFull,
        res.1 == pending_action(res.0.request, res.0.phase),
{
    init_request(mbox, board);
    mbox_call(addr, MBOX_CH_PROP)
}

/// The framebuffer set up by the answer to the request: `Some` exactly when
/// the call succeeded, the depth is 32 and the firmware returned a buffer.
pub fn init_buffer(call_ok: bool, mbox: &Mailbox) -> (cfg: Option<FrameConfig>)
    ensures
        cfg == if reply_accepted(call_ok, mbox@) {
            Some(config_from_reply(mbox@))
        } else {
            None
        },
{
    decode_framebuffer_reply(call_ok, mbox)
}

/// Paints the whole framebuffer, one 4-byte word at a time; nothing when
/// there is no buffer.
pub fn clear(cfg: &FrameConfig, color: &Color) -> (out: Vec<FramebufferWrite>)
    requires
        buffer_addressable(*cfg),
    ensures
        out@ == clear_writes(*cfg, packed_rgba(color@)),
{
    fill_buffer(cfg, &color.packed())
}

/// Writes a colour to a single pixel, honouring the framebuffer's bytes per
/// pixel; `None` where there is no buffer or the pixel is off the screen.
pub fn draw_pixel(cfg: &FrameConfig, x: u32, y: u32, color: &Color) -> (w: Option<
    FramebufferWrite,
>)
    requires
        on_screen(*cfg, x as int, y as int) ==> pixel_addressable(*cfg, x as int, y as int),
    ensures
        w == pixel_write(*cfg, x as int, y as int, packed_rgba(color@)),
{
    pixel_at(cfg, x, y, &color.packed())
}

/// Fills the solid rectangle of columns `x1..=x2` and rows `y1..=y2`, row by
/// row; empty when `x1 > x2` or `y1 > y2`.
pub fn draw_rect(cfg: &FrameConfig, x1: u32, y1: u32, x2: u32, y2: u32, color: &Color) -> (out: Vec<
    FramebufferWrite,
>)
    requires
        region_addressable(*cfg, y1 as int, y2 as int, x1 as int, x2 as int, all_pixels(), false),
    ensures
        out@ == rows(
            *cfg,
            packed_rgba(color@),
            y1 as int,
            y2 as int,
            x1 as int,
            x2 as int,
            all_pixels(),
            false,
        ),
{
    let mut out: Vec<FramebufferWrite> = Vec::new();
    fill_rect(&mut out, cfg, &color.packed(), x1, x2, y1, y2, false);
    assert(out@ =~= rows(
        *cfg,
        packed_rgba(color@),
        y1 as int,
        y2 as int,
        x1 as int,
        x2 as int,
        all_pixels(),
        false,
    ));
    out
}

/// Fills a triangle given by three vertices, using half-space
/// rasterisation over its bounding box clamped to the screen.
pub fn draw_triangle(
    cfg: &FrameConfig,
    x0: i32,
    y0: i32,
    x1: i32,
    y1: i32,
    x2: i32,
    y2: i32,
    color: &Color,
) -> (out: Vec<FramebufferWrite>)
    requires
        triangle_addressable(*cfg, vertices(x0, y0, x1, y1, x2, y2)),
        triangle_computable(*cfg, vertices(x0, y0, x1, y1, x2, y2)),
    ensures
        out@ == triangle_writes(*cfg, packed_rgba(color@), vertices(x0, y0, x1, y1, x2, y2)),
{
    fill_triangle(cfg, &color.packed(), x0, y0, x1, y1, x2, y2)
}

/// The colours of set and clear glyph bits.
pub open spec fn white() -> Channels {
    Channels { r: 0xFF, g: 0xFF, b: 0xFF, a: 0xFF }
}

pub open spec fn black() -> Channels {
    Channels { r: 0, g: 0, b: 0, a: 0xFF }
}

/// The stores that draw character `c` at `(px, py)`: each bit of its glyph
/// a `scale` x `scale` block, white where set and black where clear.
pub open spec fn char_writes(cfg: FrameConfig, c: u8, px: int, py: int, scale: int) -> Seq<
    FramebufferWrite,
> {
    glyph_writes(
        cfg,
        glyph_rows(c),
        packed_rgba(white()),
        packed_rgba(black()),
        px,
        py,
        scale,
        8,
        false,
    )
}

/// Draws a text glyph to the screen based on its bitmap.
pub fn draw_char(cfg: &FrameConfig, c: u8, px: u32, py: u32, scale: u32) -> (out: Vec<
    FramebufferWrite,
>)
    requires
        glyph_addressable(*cfg, px as int, py as int, scale as int, false),
        glyph_fits(px as int, py as int, scale as int),
    ensures
        out@ == char_writes(*cfg, c, px as int, py as int, scale as int),
{
    let g = glyph(c);
    let on = Color::white().packed();
    let off = Color::black().packed();
    let mut out: Vec<FramebufferWrite> = Vec::new();
    render_glyph(&mut out, cfg, &g, &on, &off, px, py, scale, false);
    assert(out@ =~= char_writes(*cfg, c, px as int, py as int, scale as int));
    out
}

/// Whether a string of `len` characters drawn from `(px, py)` keeps every
/// coordinate, and the position after the last character, within `u32`.
pub open spec fn str_fits(px: int, py: int, scale: int, len: int) -> bool {
    len == 0 || (px + len * (8 * scale) <= u32::MAX && (scale == 0 || py + 8 * scale - 1
        <= u32::MAX))
}

/// Whether the address of every pixel of a string of `len` characters drawn
/// from `(px, py)` can be computed.
pub open spec fn str_addressable(cfg: FrameConfig, px: int, py: int, scale: int, len: int) -> bool {
    region_addressable(
        cfg,
        py,
        py + 8 * scale - 1,
        px,
        px + len * (8 * scale) - 1,
        all_pixels(),
        false,
    )
}

/// The stores that draw the first `n` characters of `s` side by side from
/// `(px, py)`, each `8 * scale` pixels wide.
pub open spec fn str_writes(cfg: FrameConfig, s: Seq<u8>, px: int, py: int, scale: int, n: int) -> Seq<
    FramebufferWrite,
>
    decreases n,
{
    if n <= 0 {
        Seq::empty()
    } else {
        str_writes(cfg, s, px, py, scale, n - 1) + char_writes(
            cfg,
            s[n - 1],
            px + (n - 1) * (8 * scale),
            py,
            scale,
        )
    }
}

/// Draws a string left to right.
pub fn draw_str(cfg: &FrameConfig, s: &[u8], px: u32, py: u32, scale: u32) -> (out: Vec<
    FramebufferWrite,
>)
    requires
        str_addressable(*cfg, px as int, py as int, scale as int, s@.len() as int),
        str_fits(px as int, py as int, scale as int, s@.len() as int),
    ensures
        out@ == str_writes(*cfg, s@, px as int, py as int, scale as int, s@.len() as int),
{
    let mut out: Vec<FramebufferWrite> = Vec::new();
    let mut cx = px;
    let mut i: usize = 0;
    while i < s.len()
        invariant
            i <= s@.len(),
            s@.len() > 0 ==> px + s@.len() * (8 * scale) <= u32::MAX,
            str_fits(px as int, py as int, scale as int, s@.len() as int),
            str_addressable(*cfg, px as int, py as int, scale as int, s@.len() as int),
            cx == px + i * (8 * scale),
            out@ == str_writes(*cfg, s@, px as int, py as int, scale as int, i as int),
        decreases s@.len() - i,
    {
        let c = s[i];
        assert(i * (8 * scale) + 8 * scale == (i + 1) * (8 * scale)) by (nonlinear_arith);
        assert((i + 1) * (8 * scale) <= s@.len() * (8 * scale)) by (nonlinear_arith)
            requires
                i + 1 <= s@.len(),
        ;
        proof {
            lemma_region_addressable_within(
                *cfg,
                py as int,
                py + 8 * scale - 1,
                px as int,
                px + s@.len() * (8 * scale) - 1,
                py as int,
                py + 8 * scale - 1,
                cx as int,
                cx + 8 * scale - 1,
                false,
            );
        }
        let mut chars = draw_char(cfg, c, cx, py, scale);
        out.append(&mut chars);
        cx += 8 * scale;
        i += 1;
    }
    out
}

/// A string drawn at `(px, py)` only stores to pixels of its rows
/// `py..py + 8 * scale`.
pub proof fn lemma_str_on_rows(cfg: FrameConfig, s: Seq<u8>, px: int, py: int, scale: int, n: int)
    requires
        scale >= 0,
    ensures
        on_rows(cfg, str_writes(cfg, s, px, py, scale, n), py, py + 8 * scale - 1),
    decreases n,
{
    if n > 0 {
        lemma_str_on_rows(cfg, s, px, py, scale, n - 1);
        lemma_glyph_on_rows(
            cfg,
            glyph_rows(s[n - 1]),
            packed_rgba(white()),
            packed_rgba(black()),
            px + (n - 1) * (8 * scale),
            py,
            scale,
            8,
        );
        lemma_on_rows_concat(
            cfg,
            str_writes(cfg, s, px, py, scale, n - 1),
            char_writes(cfg, s[n - 1], px + (n - 1) * (8 * scale), py, scale),
            py,
            py + 8 * scale - 1,
        );
    }
}

} // verus!
