//! The framebuffer model shared by both display front ends: the geometry the
//! firmware reports, the stores that drawing produces, and the rasteriser
//! that turns rectangles into row-major sequences of stores.

use vstd::prelude::*;

verus! {

/// A colour in both framebuffer encodings.
#[derive(Clone, Copy)]
pub struct PackedColor {
    /// RGB565, used when a pixel is two bytes wide.
    pub half: u16,
    /// 32-bit encoding, used for every other pixel width.
    pub word: u32,
}

/// Value of the RGB565 encoding of a colour.
pub open spec fn rgb565_value(r: u8, g: u8, b: u8) -> int {
    (r / 8) * 2048 + (g / 4) * 32 + b / 8
}

/// The framebuffer geometry as the firmware reports it.
#[derive(Clone, Copy)]
pub struct FrameConfig {
    /// ARM physical address of the first pixel; 0 when there is no buffer.
    pub buffer: usize,
    /// Size of the buffer in bytes.
    pub size: usize,
    pub width: u32,
    pub height: u32,
    /// Bytes per row.
    pub pitch: u32,
    /// Bits per pixel as requested from the firmware.
    pub depth: u32,
    /// Bytes per pixel, derived from the pitch and the width.
    pub bits_per_pixel: u32,
    pub is_rgb: u32,
}

/// One volatile store into the framebuffer.
#[derive(Clone, Copy, Debug, PartialEq, Eq, Structural)]
#[allow(inconsistent_fields)]
pub enum FramebufferWrite {
    /// A 16-bit store.
    Half { addr: usize, value: u16 },
    /// A 32-bit store.
    Word { addr: usize, value: u32 },
}

impl FrameConfig {
    /// The configuration before the firmware has answered: no buffer, and
    /// four bytes per pixel.
    pub fn new() -> (c: Self)
        ensures
            c.buffer == 0,
            c.size == 0,
            c.width == 0,
            c.height == 0,
            c.pitch == 0,
            c.depth == 0,
            c.bits_per_pixel == 4,
            c.is_rgb == 0,
    {
        FrameConfig {
            buffer: 0,
            size: 0,
            width: 0,
            height: 0,
            pitch: 0,
            depth: 0,
            bits_per_pixel: 4,
            is_rgb: 0,
        }
    }
}

proof fn lemma_u32_product_bound(a: u32, b: u32)
    ensures
        0 <= (a as int) * (b as int) <= 0xffff_ffff * 0xffff_ffff,
{
    assert(0 <= (a as int) * (b as int) <= 0xffff_ffff * 0xffff_ffff) by (nonlinear_arith)
        requires
            a <= 0xffff_ffff,
            b <= 0xffff_ffff,
    ;
}

impl FrameConfig {
    /// Whether computing any pixel address cannot overflow.
    pub fn pixels_addressable(&self) -> (b: bool)
        ensures
            b == pixels_addressable(*self),
    {
        if self.buffer == 0 || self.width == 0 || self.height == 0 {
            return true;
        }
        proof {
            lemma_u32_product_bound((self.height - 1) as u32, self.pitch);
            lemma_u32_product_bound((self.width - 1) as u32, self.bits_per_pixel);
        }
        let rows = (self.height - 1) as u128 * self.pitch as u128;
        let cols = (self.width - 1) as u128 * self.bits_per_pixel as u128;
        let offset = rows + cols;
        offset <= 0xffff_ffff && self.buffer as u128 + offset <= usize::MAX as u128
    }

    /// Whether computing any word address of the buffer cannot overflow.
    pub fn buffer_addressable(&self) -> (b: bool)
        ensures
            b == buffer_addressable(*self),
    {
        if self.buffer == 0 || self.size < 4 {
            return true;
        }
        self.buffer as u128 + ((self.size / 4 - 1) as u128) * 4 <= usize::MAX as u128
    }
}

/// The store that writes colour `c` at address `addr`, sized by the pixel
/// width.
pub open spec fn store(cfg: FrameConfig, addr: int, c: PackedColor) -> FramebufferWrite {
    if cfg.bits_per_pixel == 2 {
        FramebufferWrite::Half { addr: addr as usize, value: c.half }
    } else {
        FramebufferWrite::Word { addr: addr as usize, value: c.word }
    }
}

/// Whether pixel `(x, y)` exists: there is a buffer and the pixel lies on the
/// screen.
pub open spec fn on_screen(cfg: FrameConfig, x: int, y: int) -> bool {
    &&& cfg.buffer != 0
    &&& 0 <= x < cfg.width
    &&& 0 <= y < cfg.height
}

/// Byte offset of pixel `(x, y)` from the start of the buffer.
pub open spec fn pixel_offset(cfg: FrameConfig, x: int, y: int) -> int {
    y * cfg.pitch + x * cfg.bits_per_pixel
}

/// Byte offset of the last pixel of the screen.
pub open spec fn max_pixel_offset(cfg: FrameConfig) -> int {
    pixel_offset(cfg, cfg.width - 1, cfg.height - 1)
}

/// Whether every pixel's offset fits in 32 bits and its address in a
/// `usize`, so that computing a pixel address cannot overflow.
pub open spec fn pixels_addressable(cfg: FrameConfig) -> bool {
    ||| cfg.buffer == 0
    ||| cfg.width == 0
    ||| cfg.height == 0
    ||| (max_pixel_offset(cfg) <= u32::MAX && cfg.buffer + max_pixel_offset(cfg) <= usize::MAX)
}

/// Whether the address of pixel `(x, y)` can be computed: its offset fits
/// in 32 bits and its address in a `usize`.
pub open spec fn pixel_addressable(cfg: FrameConfig, x: int, y: int) -> bool {
    pixel_offset(cfg, x, y) <= u32::MAX && cfg.buffer + pixel_offset(cfg, x, y) <= usize::MAX
}

/// Whether the address of every existing pixel that a scan of columns
/// `xa..=xb` and rows `ya..=yb` selects can be computed.
pub open spec fn region_addressable(
    cfg: FrameConfig,
    ya: int,
    yb: int,
    xa: int,
    xb: int,
    keep: spec_fn(int, int) -> bool,
    signed: bool,
) -> bool {
    forall|x: int, y: int|
        xa <= x <= xb && ya <= y <= yb && keep(x, y) && on_screen(
            cfg,
            coord(x, signed),
            coord(y, signed),
        ) ==> #[trigger] pixel_addressable(cfg, coord(x, signed), coord(y, signed))
}

/// When the last pixel's address can be computed, so can every pixel's.
pub proof fn lemma_addressable_everywhere(cfg: FrameConfig, x: int, y: int)
    requires
        pixels_addressable(cfg),
        on_screen(cfg, x, y),
    ensures
        pixel_addressable(cfg, x, y),
{
    lemma_offset_bounded(cfg, x, y);
}

/// When the last pixel's address can be computed, every scan is
/// addressable.
pub proof fn lemma_region_addressable(
    cfg: FrameConfig,
    ya: int,
    yb: int,
    xa: int,
    xb: int,
    keep: spec_fn(int, int) -> bool,
    signed: bool,
)
    requires
        pixels_addressable(cfg),
    ensures
        region_addressable(cfg, ya, yb, xa, xb, keep, signed),
{
    assert forall|x: int, y: int|
        xa <= x <= xb && ya <= y <= yb && keep(x, y) && on_screen(
            cfg,
            coord(x, signed),
            coord(y, signed),
        ) implies #[trigger] pixel_addressable(cfg, coord(x, signed), coord(y, signed)) by {
        lemma_addressable_everywhere(cfg, coord(x, signed), coord(y, signed));
    }
}

/// A scan of a smaller rectangle than an addressable one is addressable.
pub proof fn lemma_region_addressable_within(
    cfg: FrameConfig,
    ya: int,
    yb: int,
    xa: int,
    xb: int,
    ya2: int,
    yb2: int,
    xa2: int,
    xb2: int,
    signed: bool,
)
    requires
        region_addressable(cfg, ya, yb, xa, xb, all_pixels(), signed),
        ya <= ya2,
        yb2 <= yb,
        xa <= xa2,
        xb2 <= xb,
    ensures
        region_addressable(cfg, ya2, yb2, xa2, xb2, all_pixels(), signed),
{
    assert forall|x: int, y: int|
        xa2 <= x <= xb2 && ya2 <= y <= yb2 && all_pixels()(x, y) && on_screen(
            cfg,
            coord(x, signed),
            coord(y, signed),
        ) implies #[trigger] pixel_addressable(cfg, coord(x, signed), coord(y, signed)) by {
        assert(xa <= x <= xb && ya <= y <= yb && all_pixels()(x, y));
    }
}

/// The store for pixel `(x, y)`, or `None` where the pixel does not exist.
pub open spec fn pixel_write(cfg: FrameConfig, x: int, y: int, c: PackedColor) -> Option<
    FramebufferWrite,
> {
    if on_screen(cfg, x, y) {
        Some(store(cfg, cfg.buffer + pixel_offset(cfg, x, y), c))
    } else {
        None
    }
}

/// `s` followed by the store for pixel `(x, y)`, if that pixel exists.
pub open spec fn plot(s: Seq<FramebufferWrite>, cfg: FrameConfig, x: int, y: int, c: PackedColor) -> Seq<
    FramebufferWrite,
> {
    match pixel_write(cfg, x, y, c) {
        Some(w) => s.push(w),
        None => s,
    }
}

/// A coordinate computed as a `u32`; when `signed`, it is then reinterpreted
/// as an `i32`, so values past `i32::MAX` become negative.
pub open spec fn coord(v: int, signed: bool) -> int {
    if signed && v > i32::MAX {
        v - 0x1_0000_0000
    } else {
        v
    }
}

/// The pixel filter that keeps every pixel.
pub open spec fn all_pixels() -> spec_fn(int, int) -> bool {
    |x: int, y: int| true
}

/// The stores for the pixels `xa..=xb` of row `y` that `keep` selects, left
/// to right.
pub open spec fn span(
    cfg: FrameConfig,
    c: PackedColor,
    y: int,
    xa: int,
    xb: int,
    keep: spec_fn(int, int) -> bool,
    signed: bool,
) -> Seq<FramebufferWrite>
    decreases xb - xa + 1,
{
    if xb < xa {
        Seq::empty()
    } else {
        let prev = span(cfg, c, y, xa, xb - 1, keep, signed);
        if keep(xb, y) {
            plot(prev, cfg, coord(xb, signed), coord(y, signed), c)
        } else {
            prev
        }
    }
}

/// The stores for the pixels of rows `ya..=yb`, columns `xa..=xb`, that
/// `keep` selects, in row-major order.
pub open spec fn rows(
    cfg: FrameConfig,
    c: PackedColor,
    ya: int,
    yb: int,
    xa: int,
    xb: int,
    keep: spec_fn(int, int) -> bool,
    signed: bool,
) -> Seq<FramebufferWrite>
    decreases yb - ya + 1,
{
    if yb < ya {
        Seq::empty()
    } else {
        rows(cfg, c, ya, yb - 1, xa, xb, keep, signed) + span(cfg, c, yb, xa, xb, keep, signed)
    }
}

/// The offset of an on-screen pixel lies between 0 and the offset of the
/// last pixel.
pub proof fn lemma_offset_bounded(cfg: FrameConfig, x: int, y: int)
    requires
        on_screen(cfg, x, y),
    ensures
        0 <= y * cfg.pitch,
        0 <= x * cfg.bits_per_pixel,
        pixel_offset(cfg, x, y) <= max_pixel_offset(cfg),
{
    let w = cfg.width as int;
    let h = cfg.height as int;
    let p = cfg.pitch as int;
    let b = cfg.bits_per_pixel as int;
    assert(0 <= y * p <= (h - 1) * p) by (nonlinear_arith)
        requires
            0 <= y <= h - 1,
            0 <= p,
    ;
    assert(0 <= x * b <= (w - 1) * b) by (nonlinear_arith)
        requires
            0 <= x <= w - 1,
            0 <= b,
    ;
}

/// The store of colour `c` at `addr`, 16 bits wide when pixels are two bytes
/// wide and 32 bits wide otherwise.
pub fn write_color(cfg: &FrameConfig, addr: usize, c: &PackedColor) -> (w: FramebufferWrite)
    ensures
        w == store(*cfg, addr as int, *c),
{
    if cfg.bits_per_pixel == 2 {
        FramebufferWrite::Half { addr, value: c.half }
    } else {
        FramebufferWrite::Word { addr, value: c.word }
    }
}

/// The store for pixel `(x, y)`, or `None` where there is no buffer or the
/// pixel is off the screen.
pub fn pixel_at(cfg: &FrameConfig, x: u32, y: u32, c: &PackedColor) -> (w: Option<FramebufferWrite>)
    requires
        on_screen(*cfg, x as int, y as int) ==> pixel_addressable(*cfg, x as int, y as int),
    ensures
        w == pixel_write(*cfg, x as int, y as int, *c),
{
    if cfg.buffer == 0 || x >= cfg.width || y >= cfg.height {
        return None;
    }
    assert(0 <= y * cfg.pitch && 0 <= x * cfg.bits_per_pixel) by (nonlinear_arith);
    let offset = y * cfg.pitch + x * cfg.bits_per_pixel;
    let addr = cfg.buffer + offset as usize;
    Some(write_color(cfg, addr, c))
}

/// Like [`pixel_at`], with the coordinates reinterpreted as `i32` first when
/// `signed`; a coordinate that becomes negative is off the screen.
pub fn pixel_at_coord(cfg: &FrameConfig, x: u32, y: u32, c: &PackedColor, signed: bool) -> (w:
    Option<FramebufferWrite>)
    requires
        on_screen(*cfg, coord(x as int, signed), coord(y as int, signed)) ==> pixel_addressable(
            *cfg,
            coord(x as int, signed),
            coord(y as int, signed),
        ),
    ensures
        w == pixel_write(*cfg, coord(x as int, signed), coord(y as int, signed), *c),
{
    if signed && (x > 0x7fff_ffff || y > 0x7fff_ffff) {
        return None;
    }
    pixel_at(cfg, x, y, c)
}

/// Appends the stores for every pixel of columns `xa..=xb` of rows
/// `ya..=yb`, row by row.
pub fn fill_rect(
    out: &mut Vec<FramebufferWrite>,
    cfg: &FrameConfig,
    c: &PackedColor,
    xa: u32,
    xb: u32,
    ya: u32,
    yb: u32,
    signed: bool,
)
    requires
        region_addressable(
            *cfg,
            ya as int,
            yb as int,
            xa as int,
            xb as int,
            all_pixels(),
            signed,
        ),
    ensures
        final(out)@ == old(out)@ + rows(
            *cfg,
            *c,
            ya as int,
            yb as int,
            xa as int,
            xb as int,
            all_pixels(),
            signed,
        ),
{
    let ghost start = out@;
    let ghost keep = all_pixels();
    if ya > yb {
        assert(out@ =~= start + rows(*cfg, *c, ya as int, yb as int, xa as int, xb as int, keep, signed));
        return;
    }
    let mut y: u64 = ya as u64;
    while y <= yb as u64
        invariant
            ya <= y <= yb as int + 1,
            ya <= yb,
            region_addressable(*cfg, ya as int, yb as int, xa as int, xb as int, keep, signed),
            keep == all_pixels(),
            out@ == start + rows(*cfg, *c, ya as int, y - 1, xa as int, xb as int, keep, signed),
        decreases yb as int + 1 - y,
    {
        let ghost before_row = out@;
        let mut x: u64 = xa as u64;
        while x <= xb as u64
            invariant
                xa <= x,
                x <= xb as int + 1 || x == xa,
                ya <= y <= yb,
                region_addressable(*cfg, ya as int, yb as int, xa as int, xb as int, keep, signed),
                keep == all_pixels(),
                out@ == before_row + span(*cfg, *c, y as int, xa as int, x - 1, keep, signed),
            decreases xb as int + 1 - x,
        {
            assert(xa <= x <= xb && ya <= y <= yb && keep(x as int, y as int));
            assert(on_screen(*cfg, coord(x as int, signed), coord(y as int, signed))
                ==> pixel_addressable(*cfg, coord(x as int, signed), coord(y as int, signed)));
            match pixel_at_coord(cfg, x as u32, y as u32, c, signed) {
                Some(w) => {
                    out.push(w);
                },
                None => {},
            }
            assert(out@ =~= before_row + span(*cfg, *c, y as int, xa as int, x as int, keep, signed));
            x = x + 1;
        }
        assert(out@ =~= start + rows(*cfg, *c, ya as int, y as int, xa as int, xb as int, keep, signed));
        y = y + 1;
    }
}

/// Whether every word address of the buffer fits in a `usize`, so that
/// clearing it cannot overflow.
pub open spec fn buffer_addressable(cfg: FrameConfig) -> bool {
    ||| cfg.buffer == 0
    ||| cfg.size < 4
    ||| cfg.buffer + (cfg.size / 4 - 1) * 4 <= usize::MAX
}

/// The stores that paint the whole buffer: one per 4-byte word, in address
/// order; none when there is no buffer.
pub open spec fn clear_writes(cfg: FrameConfig, c: PackedColor) -> Seq<FramebufferWrite> {
    if cfg.buffer == 0 || cfg.size == 0 {
        Seq::empty()
    } else {
        Seq::new((cfg.size / 4) as nat, |i: int| store(cfg, cfg.buffer + i * 4, c))
    }
}

/// Paints every 4-byte word of the buffer with colour `c`.
pub fn fill_buffer(cfg: &FrameConfig, c: &PackedColor) -> (out: Vec<FramebufferWrite>)
    requires
        buffer_addressable(*cfg),
    ensures
        out@ == clear_writes(*cfg, *c),
{
    let mut out: Vec<FramebufferWrite> = Vec::new();
    let (base, size) = (cfg.buffer, cfg.size);
    if base == 0 || size == 0 {
        return out;
    }
    let words = size / 4;
    let mut i: usize = 0;
    while i < words
        invariant
            i <= words,
            words == cfg.size / 4,
            base == cfg.buffer,
            base != 0,
            cfg.size != 0,
            buffer_addressable(*cfg),
            out@ == Seq::new(i as nat, |k: int| store(*cfg, cfg.buffer + k * 4, *c)),
        decreases words - i,
    {
        let addr = base + i * 4;
        out.push(write_color(cfg, addr, c));
        i += 1;
        assert(out@ =~= Seq::new(i as nat, |k: int| store(*cfg, cfg.buffer + k * 4, *c)));
    }
    out
}

/// The address a store writes to.
pub open spec fn write_addr(w: FramebufferWrite) -> int {
    match w {
        FramebufferWrite::Half { addr, .. } => addr as int,
        FramebufferWrite::Word { addr, .. } => addr as int,
    }
}

/// Whether a store lands on a pixel of the framebuffer: between the first
/// pixel and the start of the last one.
pub open spec fn within_pixels(cfg: FrameConfig, w: FramebufferWrite) -> bool {
    cfg.buffer != 0 && cfg.buffer <= write_addr(w) <= cfg.buffer + max_pixel_offset(cfg)
}

pub open spec fn all_within_pixels(cfg: FrameConfig, s: Seq<FramebufferWrite>) -> bool {
    forall|i: int| 0 <= i < s.len() ==> within_pixels(cfg, #[trigger] s[i])
}

/// Plotting a pixel onto stores that land on pixels gives stores that land
/// on pixels.
pub proof fn lemma_plot_within_pixels(
    s: Seq<FramebufferWrite>,
    cfg: FrameConfig,
    x: int,
    y: int,
    c: PackedColor,
)
    requires
        on_screen(cfg, x, y) ==> pixel_addressable(cfg, x, y),
        all_within_pixels(cfg, s),
    ensures
        all_within_pixels(cfg, plot(s, cfg, x, y, c)),
{
    if on_screen(cfg, x, y) {
        lemma_offset_bounded(cfg, x, y);
        let t = plot(s, cfg, x, y, c);
        assert forall|i: int| 0 <= i < t.len() implies within_pixels(cfg, #[trigger] t[i]) by {
            if i < s.len() {
                assert(t[i] == s[i]);
            }
        }
    }
}

/// Every store of a span lands on a pixel of the framebuffer.
pub proof fn lemma_span_within_pixels(
    cfg: FrameConfig,
    c: PackedColor,
    y: int,
    xa: int,
    xb: int,
    keep: spec_fn(int, int) -> bool,
    signed: bool,
)
    requires
        region_addressable(cfg, y, y, xa, xb, keep, signed),
    ensures
        all_within_pixels(cfg, span(cfg, c, y, xa, xb, keep, signed)),
    decreases xb - xa + 1,
{
    if xb >= xa {
        assert forall|x: int, y2: int|
            xa <= x <= xb - 1 && y <= y2 <= y && keep(x, y2) && on_screen(
                cfg,
                coord(x, signed),
                coord(y2, signed),
            ) implies #[trigger] pixel_addressable(cfg, coord(x, signed), coord(y2, signed)) by {
            assert(xa <= x <= xb && y <= y2 <= y);
        }
        lemma_span_within_pixels(cfg, c, y, xa, xb - 1, keep, signed);
        if keep(xb, y) {
            assert(xa <= xb <= xb && y <= y <= y && keep(xb, y));
            assert(on_screen(cfg, coord(xb, signed), coord(y, signed)) ==> pixel_addressable(
                cfg,
                coord(xb, signed),
                coord(y, signed),
            ));
            lemma_plot_within_pixels(
                span(cfg, c, y, xa, xb - 1, keep, signed),
                cfg,
                coord(xb, signed),
                coord(y, signed),
                c,
            );
        }
    }
}

/// Drawing stays inside the framebuffer: every store of a rectangle scan
/// lands on a pixel, between the first pixel and the start of the last.
pub proof fn lemma_rows_within_pixels(
    cfg: FrameConfig,
    c: PackedColor,
    ya: int,
    yb: int,
    xa: int,
    xb: int,
    keep: spec_fn(int, int) -> bool,
    signed: bool,
)
    requires
        region_addressable(cfg, ya, yb, xa, xb, keep, signed),
    ensures
        all_within_pixels(cfg, rows(cfg, c, ya, yb, xa, xb, keep, signed)),
    decreases yb - ya + 1,
{
    if yb >= ya {
        assert forall|x: int, y: int|
            xa <= x <= xb && ya <= y <= yb - 1 && keep(x, y) && on_screen(
                cfg,
                coord(x, signed),
                coord(y, signed),
            ) implies #[trigger] pixel_addressable(cfg, coord(x, signed), coord(y, signed)) by {
            assert(xa <= x <= xb && ya <= y <= yb);
        }
        assert forall|x: int, y: int|
            xa <= x <= xb && yb <= y <= yb && keep(x, y) && on_screen(
                cfg,
                coord(x, signed),
                coord(y, signed),
            ) implies #[trigger] pixel_addressable(cfg, coord(x, signed), coord(y, signed)) by {
            assert(xa <= x <= xb && ya <= y <= yb);
        }
        lemma_rows_within_pixels(cfg, c, ya, yb - 1, xa, xb, keep, signed);
        lemma_span_within_pixels(cfg, c, yb, xa, xb, keep, signed);
        lemma_concat_within_pixels(
            cfg,
            rows(cfg, c, ya, yb - 1, xa, xb, keep, signed),
            span(cfg, c, yb, xa, xb, keep, signed),
        );
    }
}

/// Stores that land on pixels, followed by more such stores, all land on
/// pixels.
pub proof fn lemma_concat_within_pixels(
    cfg: FrameConfig,
    a: Seq<FramebufferWrite>,
    b: Seq<FramebufferWrite>,
)
    requires
        all_within_pixels(cfg, a),
        all_within_pixels(cfg, b),
    ensures
        all_within_pixels(cfg, a + b),
{
    assert forall|i: int| 0 <= i < (a + b).len() implies within_pixels(cfg, #[trigger] (a + b)[i]) by {
        if i < a.len() {
            assert((a + b)[i] == a[i]);
        } else {
            assert((a + b)[i] == b[i - a.len()]);
        }
    }
}

/// Clearing stays inside the buffer: the stores go to the words of the
/// buffer in address order, each starting before its end.
pub proof fn lemma_clear_within_buffer(cfg: FrameConfig, c: PackedColor)
    requires
        buffer_addressable(cfg),
    ensures
        forall|i: int|
            0 <= i < clear_writes(cfg, c).len() ==> {
                &&& write_addr(#[trigger] clear_writes(cfg, c)[i]) == cfg.buffer + 4 * i
                &&& cfg.buffer <= write_addr(clear_writes(cfg, c)[i]) <= cfg.buffer + cfg.size - 4
            },
{
    assert forall|i: int| 0 <= i < clear_writes(cfg, c).len() implies {
        &&& write_addr(#[trigger] clear_writes(cfg, c)[i]) == cfg.buffer + 4 * i
        &&& cfg.buffer <= write_addr(clear_writes(cfg, c)[i]) <= cfg.buffer + cfg.size - 4
    } by {
        assert(i <= cfg.size / 4 - 1);
    }
}

/// A span of pixels that all exist gets one store per pixel.
pub proof fn lemma_span_len_on_screen(cfg: FrameConfig, c: PackedColor, y: int, xa: int, xb: int)
    requires
        xa <= xb + 1,
        forall|x: int| xa <= x <= xb ==> #[trigger] on_screen(cfg, x, y),
    ensures
        span(cfg, c, y, xa, xb, all_pixels(), false).len() == xb - xa + 1,
    decreases xb - xa + 1,
{
    if xb >= xa {
        lemma_span_len_on_screen(cfg, c, y, xa, xb - 1);
        assert(on_screen(cfg, xb, y));
    }
}

/// A rectangle of pixels that all exist gets one store per pixel.
pub proof fn lemma_rows_len_on_screen(
    cfg: FrameConfig,
    c: PackedColor,
    ya: int,
    yb: int,
    xa: int,
    xb: int,
)
    requires
        cfg.buffer != 0,
        0 <= xa <= xb < cfg.width,
        0 <= ya <= yb + 1,
        yb < cfg.height,
    ensures
        rows(cfg, c, ya, yb, xa, xb, all_pixels(), false).len() == (xb - xa + 1) * (yb - ya + 1),
    decreases yb - ya + 1,
{
    if yb >= ya {
        lemma_rows_len_on_screen(cfg, c, ya, yb - 1, xa, xb);
        assert forall|x: int| xa <= x <= xb implies #[trigger] on_screen(cfg, x, yb) by {}
        lemma_span_len_on_screen(cfg, c, yb, xa, xb);
        assert((xb - xa + 1) * (yb - 1 - ya + 1) + (xb - xa + 1) == (xb - xa + 1) * (yb - ya + 1))
            by (nonlinear_arith);
    }
}

/// The address of the store for pixel `(x, y)`.
pub open spec fn pixel_address(cfg: FrameConfig, x: int, y: int) -> int {
    ((cfg.buffer + pixel_offset(cfg, x, y)) as usize) as int
}

/// Whether store `w` goes to an existing pixel on one of the rows
/// `ya..=yb`.
pub open spec fn store_on_rows(cfg: FrameConfig, w: FramebufferWrite, ya: int, yb: int) -> bool {
    exists|x: int, y: int|
        #![trigger pixel_address(cfg, x, y)]
        ya <= y <= yb && on_screen(cfg, x, y) && write_addr(w) == pixel_address(cfg, x, y)
}

/// Whether every store of `s` goes to an existing pixel on one of the rows
/// `ya..=yb`.
pub open spec fn on_rows(cfg: FrameConfig, s: Seq<FramebufferWrite>, ya: int, yb: int) -> bool {
    forall|i: int| 0 <= i < s.len() ==> store_on_rows(cfg, #[trigger] s[i], ya, yb)
}

/// Stores on rows `ya..=yb` are on any wider band of rows.
pub proof fn lemma_on_rows_widen(
    cfg: FrameConfig,
    s: Seq<FramebufferWrite>,
    ya: int,
    yb: int,
    ya2: int,
    yb2: int,
)
    requires
        on_rows(cfg, s, ya, yb),
        ya2 <= ya,
        yb <= yb2,
    ensures
        on_rows(cfg, s, ya2, yb2),
{
    assert forall|i: int| 0 <= i < s.len() implies store_on_rows(cfg, #[trigger] s[i], ya2, yb2) by {
        assert(store_on_rows(cfg, s[i], ya, yb));
        let (x, y) = choose|x: int, y: int|
            #![trigger pixel_address(cfg, x, y)]
            ya <= y <= yb && on_screen(cfg, x, y) && write_addr(s[i]) == pixel_address(cfg, x, y);
        assert(ya2 <= y <= yb2 && on_screen(cfg, x, y) && write_addr(s[i]) == pixel_address(cfg, x, y));
    }
}

/// Two sequences of stores on rows `ya..=yb`, one after the other, are on
/// those rows.
pub proof fn lemma_on_rows_concat(
    cfg: FrameConfig,
    a: Seq<FramebufferWrite>,
    b: Seq<FramebufferWrite>,
    ya: int,
    yb: int,
)
    requires
        on_rows(cfg, a, ya, yb),
        on_rows(cfg, b, ya, yb),
    ensures
        on_rows(cfg, a + b, ya, yb),
{
    assert forall|i: int| 0 <= i < (a + b).len() implies store_on_rows(
        cfg,
        #[trigger] (a + b)[i],
        ya,
        yb,
    ) by {
        if i < a.len() {
            assert((a + b)[i] == a[i]);
        } else {
            assert((a + b)[i] == b[i - a.len()]);
        }
    }
}

/// A span of row `y` only stores to pixels of row `y`.
pub proof fn lemma_span_on_row(
    cfg: FrameConfig,
    c: PackedColor,
    y: int,
    xa: int,
    xb: int,
    keep: spec_fn(int, int) -> bool,
)
    ensures
        on_rows(cfg, span(cfg, c, y, xa, xb, keep, false), y, y),
    decreases xb - xa + 1,
{
    if xb >= xa {
        lemma_span_on_row(cfg, c, y, xa, xb - 1, keep);
        let prev = span(cfg, c, y, xa, xb - 1, keep, false);
        let t = span(cfg, c, y, xa, xb, keep, false);
        if keep(xb, y) && on_screen(cfg, xb, y) {
            assert forall|i: int| 0 <= i < t.len() implies store_on_rows(cfg, #[trigger] t[i], y, y) by {
                if i < prev.len() {
                    assert(t[i] == prev[i]);
                } else {
                    assert(write_addr(t[i]) == pixel_address(cfg, xb, y));
                }
            }
        }
    }
}

/// A scan of rows `ya..=yb` only stores to pixels of those rows.
pub proof fn lemma_rows_on_rows(
    cfg: FrameConfig,
    c: PackedColor,
    ya: int,
    yb: int,
    xa: int,
    xb: int,
    keep: spec_fn(int, int) -> bool,
)
    ensures
        on_rows(cfg, rows(cfg, c, ya, yb, xa, xb, keep, false), ya, yb),
    decreases yb - ya + 1,
{
    if yb >= ya {
        lemma_rows_on_rows(cfg, c, ya, yb - 1, xa, xb, keep);
        lemma_span_on_row(cfg, c, yb, xa, xb, keep);
        lemma_on_rows_widen(cfg, rows(cfg, c, ya, yb - 1, xa, xb, keep, false), ya, yb - 1, ya, yb);
        lemma_on_rows_widen(cfg, span(cfg, c, yb, xa, xb, keep, false), yb, yb, ya, yb);
        lemma_on_rows_concat(
            cfg,
            rows(cfg, c, ya, yb - 1, xa, xb, keep, false),
            span(cfg, c, yb, xa, xb, keep, false),
            ya,
            yb,
        );
    }
}

/// The store for pixel `(x, y)` in colour `c`.
pub open spec fn pixel_store(cfg: FrameConfig, x: int, y: int, c: PackedColor) -> FramebufferWrite {
    store(cfg, cfg.buffer + pixel_offset(cfg, x, y), c)
}

/// Whether `w` is the store, in colour `c`, of an existing pixel of
/// columns `xa..=xb` and rows `ya..=yb` that `keep` selects.
pub open spec fn stores_kept_pixel_in(
    cfg: FrameConfig,
    c: PackedColor,
    xa: int,
    xb: int,
    ya: int,
    yb: int,
    keep: spec_fn(int, int) -> bool,
    w: FramebufferWrite,
) -> bool {
    exists|x: int, y: int|
        #![trigger pixel_store(cfg, x, y, c)]
        xa <= x <= xb && ya <= y <= yb && keep(x, y) && on_screen(cfg, x, y) && w == pixel_store(
            cfg,
            x,
            y,
            c,
        )
}

/// Whether `w` is the store, in colour `c`, of an existing pixel of
/// columns `xa..=xb` and rows `ya..=yb`.
pub open spec fn stores_pixel_in(
    cfg: FrameConfig,
    c: PackedColor,
    xa: int,
    xb: int,
    ya: int,
    yb: int,
    w: FramebufferWrite,
) -> bool {
    exists|x: int, y: int|
        #![trigger pixel_store(cfg, x, y, c)]
        xa <= x <= xb && ya <= y <= yb && on_screen(cfg, x, y) && w == pixel_store(cfg, x, y, c)
}

/// A filtered span holds exactly the stores of the existing pixels of its
/// row that the filter selects.
pub proof fn lemma_span_contains_kept(
    cfg: FrameConfig,
    c: PackedColor,
    y: int,
    xa: int,
    xb: int,
    keep: spec_fn(int, int) -> bool,
    w: FramebufferWrite,
)
    ensures
        span(cfg, c, y, xa, xb, keep, false).contains(w) <==> stores_kept_pixel_in(
            cfg,
            c,
            xa,
            xb,
            y,
            y,
            keep,
            w,
        ),
    decreases xb - xa + 1,
{
    if xb >= xa {
        lemma_span_contains_kept(cfg, c, y, xa, xb - 1, keep, w);
        let prev = span(cfg, c, y, xa, xb - 1, keep, false);
        if keep(xb, y) && on_screen(cfg, xb, y) {
            vstd::seq_lib::lemma_seq_contains_after_push(prev, pixel_store(cfg, xb, y, c), w);
        }
        if stores_kept_pixel_in(cfg, c, xa, xb, y, y, keep, w) {
            let (x, y2) = choose|x: int, y2: int|
                #![trigger pixel_store(cfg, x, y2, c)]
                xa <= x <= xb && y <= y2 <= y && keep(x, y2) && on_screen(cfg, x, y2) && w
                    == pixel_store(cfg, x, y2, c);
            if x < xb {
                assert(stores_kept_pixel_in(cfg, c, xa, xb - 1, y, y, keep, w));
            }
        }
        if stores_kept_pixel_in(cfg, c, xa, xb - 1, y, y, keep, w) {
            let (x, y2) = choose|x: int, y2: int|
                #![trigger pixel_store(cfg, x, y2, c)]
                xa <= x <= xb - 1 && y <= y2 <= y && keep(x, y2) && on_screen(cfg, x, y2) && w
                    == pixel_store(cfg, x, y2, c);
            assert(stores_kept_pixel_in(cfg, c, xa, xb, y, y, keep, w));
        }
        if keep(xb, y) && on_screen(cfg, xb, y) && w == pixel_store(cfg, xb, y, c) {
            assert(stores_kept_pixel_in(cfg, c, xa, xb, y, y, keep, w));
        }
    }
}

/// A filtered rectangle scan holds exactly the stores of the existing
/// pixels of the rectangle that the filter selects.
pub proof fn lemma_rows_contains_kept(
    cfg: FrameConfig,
    c: PackedColor,
    ya: int,
    yb: int,
    xa: int,
    xb: int,
    keep: spec_fn(int, int) -> bool,
    w: FramebufferWrite,
)
    ensures
        rows(cfg, c, ya, yb, xa, xb, keep, false).contains(w) <==> stores_kept_pixel_in(
            cfg,
            c,
            xa,
            xb,
            ya,
            yb,
            keep,
            w,
        ),
    decreases yb - ya + 1,
{
    if yb >= ya {
        lemma_rows_contains_kept(cfg, c, ya, yb - 1, xa, xb, keep, w);
        lemma_span_contains_kept(cfg, c, yb, xa, xb, keep, w);
        vstd::seq_lib::lemma_seq_concat_contains_all_elements(
            rows(cfg, c, ya, yb - 1, xa, xb, keep, false),
            span(cfg, c, yb, xa, xb, keep, false),
            w,
        );
        if stores_kept_pixel_in(cfg, c, xa, xb, ya, yb, keep, w) {
            let (x, y) = choose|x: int, y: int|
                #![trigger pixel_store(cfg, x, y, c)]
                xa <= x <= xb && ya <= y <= yb && keep(x, y) && on_screen(cfg, x, y) && w
                    == pixel_store(cfg, x, y, c);
            if y < yb {
                assert(stores_kept_pixel_in(cfg, c, xa, xb, ya, yb - 1, keep, w));
            } else {
                assert(stores_kept_pixel_in(cfg, c, xa, xb, yb, yb, keep, w));
            }
        }
        if stores_kept_pixel_in(cfg, c, xa, xb, ya, yb - 1, keep, w) {
            let (x, y) = choose|x: int, y: int|
                #![trigger pixel_store(cfg, x, y, c)]
                xa <= x <= xb && ya <= y <= yb - 1 && keep(x, y) && on_screen(cfg, x, y) && w
                    == pixel_store(cfg, x, y, c);
            assert(stores_kept_pixel_in(cfg, c, xa, xb, ya, yb, keep, w));
        }
        if stores_kept_pixel_in(cfg, c, xa, xb, yb, yb, keep, w) {
            let (x, y) = choose|x: int, y: int|
                #![trigger pixel_store(cfg, x, y, c)]
                xa <= x <= xb && yb <= y <= yb && keep(x, y) && on_screen(cfg, x, y) && w
                    == pixel_store(cfg, x, y, c);
            assert(stores_kept_pixel_in(cfg, c, xa, xb, ya, yb, keep, w));
        }
    }
}

/// A rectangle scan holds exactly the stores of the existing pixels of the
/// rectangle.
pub proof fn lemma_rows_contains(
    cfg: FrameConfig,
    c: PackedColor,
    ya: int,
    yb: int,
    xa: int,
    xb: int,
    w: FramebufferWrite,
)
    ensures
        rows(cfg, c, ya, yb, xa, xb, all_pixels(), false).contains(w) <==> stores_pixel_in(
            cfg,
            c,
            xa,
            xb,
            ya,
            yb,
            w,
        ),
{
    lemma_rows_contains_kept(cfg, c, ya, yb, xa, xb, all_pixels(), w);
    if stores_kept_pixel_in(cfg, c, xa, xb, ya, yb, all_pixels(), w) {
        let (x, y) = choose|x: int, y: int|
            #![trigger pixel_store(cfg, x, y, c)]
            xa <= x <= xb && ya <= y <= yb && all_pixels()(x, y) && on_screen(cfg, x, y) && w
                == pixel_store(cfg, x, y, c);
        assert(stores_pixel_in(cfg, c, xa, xb, ya, yb, w));
    }
    if stores_pixel_in(cfg, c, xa, xb, ya, yb, w) {
        let (x, y) = choose|x: int, y: int|
            #![trigger pixel_store(cfg, x, y, c)]
            xa <= x <= xb && ya <= y <= yb && on_screen(cfg, x, y) && w == pixel_store(cfg, x, y, c);
        assert(stores_kept_pixel_in(cfg, c, xa, xb, ya, yb, all_pixels(), w));
    }
}

/// Where every coordinate of a scan is at most `i32::MAX`, taking the
/// coordinates as `i32` changes nothing.
pub proof fn lemma_rows_signed_small(
    cfg: FrameConfig,
    c: PackedColor,
    ya: int,
    yb: int,
    xa: int,
    xb: int,
)
    requires
        xb <= i32::MAX,
        yb <= i32::MAX,
    ensures
        rows(cfg, c, ya, yb, xa, xb, all_pixels(), true) == rows(
            cfg,
            c,
            ya,
            yb,
            xa,
            xb,
            all_pixels(),
            false,
        ),
    decreases yb - ya + 1,
{
    if yb >= ya {
        lemma_rows_signed_small(cfg, c, ya, yb - 1, xa, xb);
        lemma_span_signed_small(cfg, c, yb, xa, xb);
    }
}

proof fn lemma_span_signed_small(cfg: FrameConfig, c: PackedColor, y: int, xa: int, xb: int)
    requires
        xb <= i32::MAX,
        y <= i32::MAX,
    ensures
        span(cfg, c, y, xa, xb, all_pixels(), true) == span(cfg, c, y, xa, xb, all_pixels(), false),
    decreases xb - xa + 1,
{
    if xb >= xa {
        lemma_span_signed_small(cfg, c, y, xa, xb - 1);
    }
}

/// Splitting the columns of a rectangle in two splits its pixels' stores.
pub proof fn lemma_stores_split_columns(
    cfg: FrameConfig,
    c: PackedColor,
    xa: int,
    xm: int,
    xb: int,
    ya: int,
    yb: int,
    w: FramebufferWrite,
)
    ensures
        xa <= xm <= xb + 1 ==> (stores_pixel_in(cfg, c, xa, xb, ya, yb, w) <==> (stores_pixel_in(
            cfg,
            c,
            xa,
            xm - 1,
            ya,
            yb,
            w,
        ) || stores_pixel_in(cfg, c, xm, xb, ya, yb, w))),
{
    if xa <= xm <= xb + 1 {
        if stores_pixel_in(cfg, c, xa, xb, ya, yb, w) {
            let (x, y) = choose|x: int, y: int|
                #![trigger pixel_store(cfg, x, y, c)]
                xa <= x <= xb && ya <= y <= yb && on_screen(cfg, x, y) && w == pixel_store(cfg, x, y, c);
            if x < xm {
                assert(stores_pixel_in(cfg, c, xa, xm - 1, ya, yb, w));
            } else {
                assert(stores_pixel_in(cfg, c, xm, xb, ya, yb, w));
            }
        }
        if stores_pixel_in(cfg, c, xa, xm - 1, ya, yb, w) {
            let (x, y) = choose|x: int, y: int|
                #![trigger pixel_store(cfg, x, y, c)]
                xa <= x <= xm - 1 && ya <= y <= yb && on_screen(cfg, x, y) && w == pixel_store(cfg, x, y, c);
            assert(stores_pixel_in(cfg, c, xa, xb, ya, yb, w));
        }
        if stores_pixel_in(cfg, c, xm, xb, ya, yb, w) {
            let (x, y) = choose|x: int, y: int|
                #![trigger pixel_store(cfg, x, y, c)]
                xm <= x <= xb && ya <= y <= yb && on_screen(cfg, x, y) && w == pixel_store(cfg, x, y, c);
            assert(stores_pixel_in(cfg, c, xa, xb, ya, yb, w));
        }
    }
}

/// Splitting the rows of a rectangle in two splits its pixels' stores.
pub proof fn lemma_stores_split_rows(
    cfg: FrameConfig,
    c: PackedColor,
    xa: int,
    xb: int,
    ya: int,
    ym: int,
    yb: int,
    w: FramebufferWrite,
)
    ensures
        ya <= ym <= yb + 1 ==> (stores_pixel_in(cfg, c, xa, xb, ya, yb, w) <==> (stores_pixel_in(
            cfg,
            c,
            xa,
            xb,
            ya,
            ym - 1,
            w,
        ) || stores_pixel_in(cfg, c, xa, xb, ym, yb, w))),
{
    if ya <= ym <= yb + 1 {
        if stores_pixel_in(cfg, c, xa, xb, ya, yb, w) {
            let (x, y) = choose|x: int, y: int|
                #![trigger pixel_store(cfg, x, y, c)]
                xa <= x <= xb && ya <= y <= yb && on_screen(cfg, x, y) && w == pixel_store(cfg, x, y, c);
            if y < ym {
                assert(stores_pixel_in(cfg, c, xa, xb, ya, ym - 1, w));
            } else {
                assert(stores_pixel_in(cfg, c, xa, xb, ym, yb, w));
            }
        }
        if stores_pixel_in(cfg, c, xa, xb, ya, ym - 1, w) {
            let (x, y) = choose|x: int, y: int|
                #![trigger pixel_store(cfg, x, y, c)]
                xa <= x <= xb && ya <= y <= ym - 1 && on_screen(cfg, x, y) && w == pixel_store(cfg, x, y, c);
            assert(stores_pixel_in(cfg, c, xa, xb, ya, yb, w));
        }
        if stores_pixel_in(cfg, c, xa, xb, ym, yb, w) {
            let (x, y) = choose|x: int, y: int|
                #![trigger pixel_store(cfg, x, y, c)]
                xa <= x <= xb && ym <= y <= yb && on_screen(cfg, x, y) && w == pixel_store(cfg, x, y, c);
            assert(stores_pixel_in(cfg, c, xa, xb, ya, yb, w));
        }
    }
}

/// Pixel (0, 0) is at the start of the buffer; one pixel to the right is
/// `bits_per_pixel` bytes further on and one row down is `pitch` bytes
/// further on.
pub proof fn lemma_pixel_offset_steps(cfg: FrameConfig, x: int, y: int)
    ensures
        pixel_offset(cfg, 0, 0) == 0,
        pixel_offset(cfg, x + 1, y) == pixel_offset(cfg, x, y) + cfg.bits_per_pixel,
        pixel_offset(cfg, x, y + 1) == pixel_offset(cfg, x, y) + cfg.pitch,
{
    let (p, b) = (cfg.pitch as int, cfg.bits_per_pixel as int);
    assert(y * p + (x + 1) * b == y * p + x * b + b) by (nonlinear_arith);
    assert((y + 1) * p + x * b == y * p + x * b + p) by (nonlinear_arith);
}

} // verus!
