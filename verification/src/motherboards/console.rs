//! The text console: bytes are drawn as glyphs left to right and top to
//! bottom, wrapping at the right edge and starting over at the top when the
//! screen is full.

use vstd::prelude::*;

use crate::color::ByteOrder;
use crate::font::glyph_addressable;
use crate::framebuffer::{
    lemma_region_addressable, pixels_addressable, FrameConfig, FramebufferWrite,
};
use crate::motherboards::hdmi::{
    char_writes, draw_char, get_screen_dimensions, HdmiBuffer, ScreenDimensions,
};

verus! {

/// Size of a glyph cell in font pixels.
pub const CON_SCALE: u32 = 1;

/// A console cursor: the top-left corner of the next character cell.
#[derive(Clone, Copy)]
pub struct Cursor {
    pub x: u32,
    pub y: u32,
}

/// A character to draw and where.
#[derive(Clone, Copy)]
pub struct Placement {
    pub c: u8,
    pub x: u32,
    pub y: u32,
}

/// The cursor after a line feed: the start of the next line, 10 pixels
/// down, or the top of the screen when that line would not fit.
pub open spec fn newline_cursor(cur: Cursor, height: u32) -> Cursor {
    let y = cur.y + 10;
    Cursor {
        x: 0,
        y: if y + 8 > height {
            0
        } else {
            y as u32
        },
    }
}

/// The byte drawn for `b`: the font is upper-case only, so lower-case
/// letters are folded to upper case.
pub open spec fn folded(b: u8) -> u8 {
    if 97 <= b <= 122 {
        (b - 32) as u8
    } else {
        b
    }
}

/// Where a printable byte is drawn: at the cursor, or at the start of the
/// next line when the cell would cross the right edge.
pub open spec fn cell_cursor(cur: Cursor, dims: ScreenDimensions) -> Cursor {
    if cur.x + 8 > dims.width {
        newline_cursor(cur, dims.height)
    } else {
        cur
    }
}

/// The cursor after byte `b`, and the character drawn for it if any: a line
/// feed moves to the next line, a carriage return to the start of the line,
/// and any other byte is drawn and advances the cursor by one cell.
pub open spec fn put_step(cur: Cursor, b: u8, dims: ScreenDimensions) -> (Cursor, Option<
    Placement,
>) {
    if b == 10 {
        (newline_cursor(cur, dims.height), None)
    } else if b == 13 {
        (Cursor { x: 0, y: cur.y }, None)
    } else {
        let at = cell_cursor(cur, dims);
        (
            Cursor { x: (at.x + 8) as u32, y: at.y },
            Some(Placement { c: folded(b), x: at.x, y: at.y }),
        )
    }
}

/// Whether the step for byte `b` computes without overflow.
pub open spec fn put_fits(cur: Cursor, b: u8, dims: ScreenDimensions) -> bool {
    if b == 10 {
        cur.y + 18 <= u32::MAX
    } else if b == 13 {
        true
    } else {
        &&& cur.x + 8 <= u32::MAX
        &&& cur.x + 8 > dims.width ==> cur.y + 18 <= u32::MAX
        &&& cell_cursor(cur, dims).x + 8 <= u32::MAX
        &&& cell_cursor(cur, dims).y + 7 <= u32::MAX
    }
}

/// The cursor after the bytes `s` and the characters drawn for them, in
/// order.
pub open spec fn run_console(cur: Cursor, s: Seq<u8>, dims: ScreenDimensions) -> (Cursor, Seq<
    Placement,
>)
    decreases s.len(),
{
    if s.len() == 0 {
        (cur, Seq::empty())
    } else {
        let (mid, placed) = run_console(cur, s.drop_last(), dims);
        let (next, p) = put_step(mid, s.last(), dims);
        (
            next,
            match p {
                Some(q) => placed.push(q),
                None => placed,
            },
        )
    }
}

/// Whether every step of writing `s` computes without overflow.
pub open spec fn writes_fit(cur: Cursor, s: Seq<u8>, dims: ScreenDimensions) -> bool
    decreases s.len(),
{
    if s.len() == 0 {
        true
    } else {
        writes_fit(cur, s.drop_last(), dims) && put_fits(
            run_console(cur, s.drop_last(), dims).0,
            s.last(),
            dims,
        )
    }
}

/// Whether the address of every pixel of every character drawn while
/// writing `s` can be computed.
pub open spec fn console_addressable(cfg: FrameConfig, cur: Cursor, s: Seq<u8>, dims: ScreenDimensions) -> bool
    decreases s.len(),
{
    if s.len() == 0 {
        true
    } else {
        &&& console_addressable(cfg, cur, s.drop_last(), dims)
        &&& match put_step(run_console(cur, s.drop_last(), dims).0, s.last(), dims).1 {
            Some(p) => glyph_addressable(cfg, p.x as int, p.y as int, CON_SCALE as int, true),
            None => true,
        }
    }
}

/// If every character of `s` is addressable, so is every character of any
/// prefix of `s`.
pub proof fn lemma_console_addressable_prefix(
    cfg: FrameConfig,
    cur: Cursor,
    s: Seq<u8>,
    dims: ScreenDimensions,
    k: int,
)
    requires
        console_addressable(cfg, cur, s, dims),
        0 <= k <= s.len(),
    ensures
        console_addressable(cfg, cur, s.subrange(0, k), dims),
    decreases s.len(),
{
    if k < s.len() {
        lemma_console_addressable_prefix(cfg, cur, s.drop_last(), dims, k);
        assert(s.drop_last().subrange(0, k) =~= s.subrange(0, k));
    } else {
        assert(s.subrange(0, k) =~= s);
    }
}

/// When the last pixel's address can be computed, every character is
/// addressable.
pub proof fn lemma_console_addressable(cfg: FrameConfig, cur: Cursor, s: Seq<u8>, dims: ScreenDimensions)
    requires
        pixels_addressable(cfg),
    ensures
        console_addressable(cfg, cur, s, dims),
    decreases s.len(),
{
    if s.len() > 0 {
        lemma_console_addressable(cfg, cur, s.drop_last(), dims);
        match put_step(run_console(cur, s.drop_last(), dims).0, s.last(), dims).1 {
            Some(p) => {
                lemma_region_addressable(
                    cfg,
                    p.y as int,
                    p.y + 8 * CON_SCALE - 1,
                    p.x as int,
                    p.x + 8 * CON_SCALE - 1,
                    crate::framebuffer::all_pixels(),
                    true,
                );
            },
            None => {},
        }
    }
}

/// The stores that draw the placed characters, in order.
pub open spec fn placement_writes(cfg: FrameConfig, order: ByteOrder, ps: Seq<Placement>) -> Seq<
    FramebufferWrite,
>
    decreases ps.len(),
{
    if ps.len() == 0 {
        Seq::empty()
    } else {
        placement_writes(cfg, order, ps.drop_last()) + char_writes(
            cfg,
            ps.last().c,
            ps.last().x as int,
            ps.last().y as int,
            CON_SCALE as int,
            order,
        )
    }
}

/// If writing `s` fits, so does writing any prefix of it.
pub proof fn lemma_writes_fit_prefix(cur: Cursor, s: Seq<u8>, dims: ScreenDimensions, k: int)
    requires
        writes_fit(cur, s, dims),
        0 <= k <= s.len(),
    ensures
        writes_fit(cur, s.subrange(0, k), dims),
    decreases s.len(),
{
    if k < s.len() {
        lemma_writes_fit_prefix(cur, s.drop_last(), dims, k);
        assert(s.drop_last().subrange(0, k) =~= s.subrange(0, k));
    } else {
        assert(s.subrange(0, k) =~= s);
    }
}

/// If writing a prefix of `s` does not fit, neither does writing `s`.
pub proof fn lemma_writes_fit_prefix_false(cur: Cursor, s: Seq<u8>, dims: ScreenDimensions, k: int)
    requires
        0 <= k <= s.len(),
        !writes_fit(cur, s.subrange(0, k), dims),
    ensures
        !writes_fit(cur, s, dims),
{
    if writes_fit(cur, s, dims) {
        lemma_writes_fit_prefix(cur, s, dims, k);
    }
}

/// The console writer: it keeps the cursor between writes.
pub struct RaspiWriter {
    x: u32,
    y: u32,
}

impl View for RaspiWriter {
    type V = Cursor;

    closed spec fn view(&self) -> Cursor {
        Cursor { x: self.x, y: self.y }
    }
}

/// The console, with its cursor at the top-left corner of the screen.
pub fn console() -> (w: RaspiWriter)
    ensures
        w@ == (Cursor { x: 0, y: 0 }),
{
    RaspiWriter { x: 0, y: 0 }
}

impl RaspiWriter {
    /// Moves the cursor to the start of the next line, or back to the top
    /// when the next line would not fit on the screen.
    fn con_newline(&mut self, dim: &ScreenDimensions)
        requires
            old(self)@.y + 18 <= u32::MAX,
        ensures
            final(self)@ == newline_cursor(old(self)@, dim.height),
    {
        self.x = 0;
        self.y += 8 * CON_SCALE + 2;
        if self.y + 8 * CON_SCALE > dim.height {
            self.y = 0;
        }
    }

    /// Handles one byte; returns the character to draw, if any.
    pub fn con_put(&mut self, b: u8, dim: &ScreenDimensions) -> (p: Option<Placement>)
        requires
            put_fits(old(self)@, b, *dim),
        ensures
            (final(self)@, p) == put_step(old(self)@, b, *dim),
    {
        let cell = 8 * CON_SCALE;
        if b == 10 {
            // '\n'
            self.con_newline(dim);
            None
        } else if b == 13 {
            // '\r'
            self.x = 0;
            None
        } else {
            if self.x + cell > dim.width {
                self.con_newline(dim);
            }
            // The font is upper-case only; fold lower case so messages stay legible.
            let c = if 97 <= b && b <= 122 {
                b - 32
            } else {
                b
            };
            let placed = Placement { c, x: self.x, y: self.y };
            self.x += cell;
            Some(placed)
        }
    }

    /// Whether writing `s` from the current cursor cannot overflow.
    pub fn fits(&self, buf: &HdmiBuffer, s: &[u8]) -> (b: bool)
        ensures
            b == writes_fit(self@, s@, ScreenDimensions { height: buf@.config.height, width: buf@.config.width }),
    {
        let dim = get_screen_dimensions(buf);
        let mut probe = RaspiWriter { x: self.x, y: self.y };
        let mut i: usize = 0;
        while i < s.len()
            invariant
                i <= s@.len(),
                dim == (ScreenDimensions { height: buf@.config.height, width: buf@.config.width }),
                writes_fit(self@, s@.subrange(0, i as int), dim),
                probe@ == run_console(self@, s@.subrange(0, i as int), dim).0,
            decreases s@.len() - i,
        {
            let ghost next = s@.subrange(0, i as int + 1);
            assert(next.drop_last() =~= s@.subrange(0, i as int));
            if !probe.can_put(s[i], &dim) {
                proof {
                    lemma_writes_fit_prefix_false(self@, s@, dim, i as int + 1);
                }
                return false;
            }
            probe.con_put(s[i], &dim);
            i += 1;
        }
        assert(s@.subrange(0, s@.len() as int) =~= s@);
        true
    }

    /// Whether handling byte `b` cannot overflow.
    pub fn can_put(&self, b: u8, dim: &ScreenDimensions) -> (ok: bool)
        ensures
            ok == put_fits(self@, b, *dim),
    {
        if b == 10 {
            self.y <= u32::MAX - 18
        } else if b == 13 {
            true
        } else {
            if self.x > u32::MAX - 8 {
                return false;
            }
            if self.x + 8 > dim.width {
                if self.y > u32::MAX - 18 {
                    return false;
                }
                let y = self.y + 10;
                let at_y = if y + 8 > dim.height {
                    0
                } else {
                    y
                };
                at_y <= u32::MAX - 7
            } else {
                self.y <= u32::MAX - 7
            }
        }
    }

    /// Writes the bytes of `s` to the console and returns the stores that
    /// draw them.
    pub fn write_str(&mut self, buf: &HdmiBuffer, s: &[u8]) -> (out: Vec<FramebufferWrite>)
        requires
            writes_fit(
                old(self)@,
                s@,
                ScreenDimensions { height: buf@.config.height, width: buf@.config.width },
            ),
            console_addressable(
                buf@.config,
                old(self)@,
                s@,
                ScreenDimensions { height: buf@.config.height, width: buf@.config.width },
            ),
        ensures
            final(self)@ == run_console(
                old(self)@,
                s@,
                ScreenDimensions { height: buf@.config.height, width: buf@.config.width },
            ).0,
            out@ == placement_writes(
                buf@.config,
                buf@.order,
                run_console(
                    old(self)@,
                    s@,
                    ScreenDimensions { height: buf@.config.height, width: buf@.config.width },
                ).1,
            ),
    {
        let cfg = buf.config();
        let order = buf.order();
        let dim = get_screen_dimensions(buf);
        let ghost start = self@;
        let mut out: Vec<FramebufferWrite> = Vec::new();
        let mut i: usize = 0;
        while i < s.len()
            invariant
                i <= s@.len(),
                cfg == buf@.config,
                order == buf@.order,
                dim == (ScreenDimensions { height: buf@.config.height, width: buf@.config.width }),
                writes_fit(start, s@, dim),
                console_addressable(cfg, start, s@, dim),
                self@ == run_console(start, s@.subrange(0, i as int), dim).0,
                out@ == placement_writes(
                    cfg,
                    order,
                    run_console(start, s@.subrange(0, i as int), dim).1,
                ),
            decreases s@.len() - i,
        {
            let ghost prefix = s@.subrange(0, i as int);
            let ghost next = s@.subrange(0, i as int + 1);
            proof {
                lemma_writes_fit_prefix(start, s@, dim, i as int + 1);
                lemma_console_addressable_prefix(cfg, start, s@, dim, i as int + 1);
                assert(next.drop_last() =~= prefix);
                assert(next.last() == s@[i as int]);
            }
            let placed = self.con_put(s[i], &dim);
            match placed {
                Some(p) => {
                    let mut chars = draw_char(&cfg, p.c, p.x, p.y, CON_SCALE, order);
                    out.append(&mut chars);
                    proof {
                        let ps = run_console(start, next, dim).1;
                        assert(ps.drop_last() =~= run_console(start, prefix, dim).1);
                    }
                },
                None => {},
            }
            i += 1;
        }
        assert(s@.subrange(0, s@.len() as int) =~= s@);
        out
    }
}

/// Whether the cursor's row lies on the screen (or is the top row).
pub open spec fn row_on_screen(cur: Cursor, dims: ScreenDimensions) -> bool {
    cur.y == 0 || cur.y + 8 <= dims.height
}

/// Whether a character cell lies on the screen, except where the screen is
/// narrower or lower than one cell and the cell is at the left edge or the
/// top.
pub open spec fn cell_on_screen(p: Placement, dims: ScreenDimensions) -> bool {
    &&& p.x == 0 || p.x + 8 <= dims.width
    &&& p.y == 0 || p.y + 8 <= dims.height
}

/// The console wraps at the right edge and starts over at the top when the
/// screen is full: starting from a row on the screen, every character is
/// drawn in a cell on the screen, and the cursor stays on a row on the
/// screen.
pub proof fn lemma_console_stays_on_screen(cur: Cursor, s: Seq<u8>, dims: ScreenDimensions)
    requires
        row_on_screen(cur, dims),
    ensures
        row_on_screen(run_console(cur, s, dims).0, dims),
        forall|i: int|
            0 <= i < run_console(cur, s, dims).1.len() ==> cell_on_screen(
                #[trigger] run_console(cur, s, dims).1[i],
                dims,
            ),
    decreases s.len(),
{
    if s.len() > 0 {
        lemma_console_stays_on_screen(cur, s.drop_last(), dims);
        let (mid, placed) = run_console(cur, s.drop_last(), dims);
        let ps = run_console(cur, s, dims).1;
        assert forall|i: int| 0 <= i < ps.len() implies cell_on_screen(#[trigger] ps[i], dims) by {
            if i < placed.len() {
                assert(ps[i] == placed[i]);
            }
        }
    }
}

/// Whether the cursor column is a whole number of cells from the left edge
/// and within the width.
pub open spec fn column_aligned(cur: Cursor, dims: ScreenDimensions) -> bool {
    cur.x % 8 == 0 && cur.x <= dims.width
}

/// On a screen at least one cell wide, the console keeps its column a
/// whole number of cells from the left edge and within the width, and never
/// draws a glyph that crosses the right edge.
pub proof fn lemma_console_column(cur: Cursor, s: Seq<u8>, dims: ScreenDimensions)
    requires
        dims.width >= 8,
        column_aligned(cur, dims),
    ensures
        column_aligned(run_console(cur, s, dims).0, dims),
        forall|i: int|
            0 <= i < run_console(cur, s, dims).1.len() ==> #[trigger] run_console(
                cur,
                s,
                dims,
            ).1[i].x + 8 <= dims.width,
    decreases s.len(),
{
    if s.len() > 0 {
        lemma_console_column(cur, s.drop_last(), dims);
        let (mid, placed) = run_console(cur, s.drop_last(), dims);
        let ps = run_console(cur, s, dims).1;
        assert forall|i: int| 0 <= i < ps.len() implies #[trigger] ps[i].x + 8 <= dims.width by {
            if i < placed.len() {
                assert(ps[i] == placed[i]);
            }
        }
    }
}

/// Starting from an aligned column on a row on the screen, writing never
/// overflows on a screen at least one cell wide whose width and height
/// leave room for one more cell and one more line below `u32::MAX`.
pub proof fn lemma_console_fits(cur: Cursor, s: Seq<u8>, dims: ScreenDimensions)
    requires
        dims.width >= 8,
        dims.width + 8 <= u32::MAX,
        dims.height + 10 <= u32::MAX,
        row_on_screen(cur, dims),
        column_aligned(cur, dims),
    ensures
        writes_fit(cur, s, dims),
    decreases s.len(),
{
    if s.len() > 0 {
        lemma_console_fits(cur, s.drop_last(), dims);
        lemma_console_stays_on_screen(cur, s.drop_last(), dims);
        lemma_console_column(cur, s.drop_last(), dims);
    }
}

/// Every byte other than a line feed or a carriage return places exactly
/// one character: a lower-case letter places its upper-case form, 32 below
/// it, and any other byte places itself, so upper-case letters, digits and
/// punctuation are drawn with their own glyphs. Nothing placed is ever a
/// lower-case letter.
pub proof fn lemma_console_places_byte(cur: Cursor, b: u8, dims: ScreenDimensions)
    requires
        b != 10,
        b != 13,
    ensures
        put_step(cur, b, dims).1 is Some,
        ('a' as u8) <= b <= ('z' as u8) ==> put_step(cur, b, dims).1->0.c == b - 32,
        !(('a' as u8) <= b <= ('z' as u8)) ==> put_step(cur, b, dims).1->0.c == b,
        !(('a' as u8) <= put_step(cur, b, dims).1->0.c <= ('z' as u8)),
{
}

/// How the cursor moves: a line feed goes to the start of the line 10
/// pixels down, or back to the top when a glyph would not fit there; a
/// carriage return goes to the start of the line; any other byte is drawn
/// at the cursor when its cell fits in the width, else at the start of the
/// next line, and the cursor then moves one 8-pixel cell right.
pub proof fn lemma_console_moves(cur: Cursor, b: u8, dims: ScreenDimensions)
    requires
        put_fits(cur, b, dims),
    ensures
        b == 10 ==> put_step(cur, b, dims).1 is None && put_step(cur, b, dims).0 == (Cursor {
            x: 0,
            y: if cur.y + 18 <= dims.height {
                (cur.y + 10) as u32
            } else {
                0
            },
        }),
        b == 13 ==> put_step(cur, b, dims).1 is None && put_step(cur, b, dims).0 == (Cursor {
            x: 0,
            y: cur.y,
        }),
        b != 10 && b != 13 && cur.x + 8 <= dims.width ==> put_step(cur, b, dims).1->0.x == cur.x
            && put_step(cur, b, dims).1->0.y == cur.y && put_step(cur, b, dims).0 == (Cursor {
            x: (cur.x + 8) as u32,
            y: cur.y,
        }),
        b != 10 && b != 13 && cur.x + 8 > dims.width ==> put_step(cur, b, dims).1->0.x == 0
            && put_step(cur, b, dims).1->0.y == put_step(cur, 10, dims).0.y && put_step(
            cur,
            b,
            dims,
        ).0 == (Cursor { x: 8, y: put_step(cur, 10, dims).0.y }),
{
}

/// A lower-case letter acts like its upper-case form: the same cursor
/// movement, the same character drawn in the same place, and the same
/// overflow condition.
pub proof fn lemma_console_folds_lower_case(cur: Cursor, b: u8, dims: ScreenDimensions)
    requires
        97 <= b <= 122,
    ensures
        put_step(cur, b, dims) == put_step(cur, (b - 32) as u8, dims),
        put_fits(cur, b, dims) == put_fits(cur, (b - 32) as u8, dims),
{
}

} // verus!
