//! The display interface the kernel draws through, and the display of the
//! board.

use vstd::prelude::*;

use crate::board::mailbox::Mailbox;
use crate::color::{packed_color, ByteOrder, Channels, Color};
use crate::framebuffer::{buffer_addressable, clear_writes, FrameConfig, FramebufferWrite};
use crate::geometry::Point;
use crate::motherboards::hdmi::{
    clear, clip_computable, clipped_rect_writes, debug_dump, draw_rect, draw_triangle,
    rect_addressable, DebugReport, HdmiBuffer,
};
use crate::property::{config_from_reply, reply_accepted};
use crate::raster::{triangle_addressable, triangle_computable, triangle_writes, vertices};
use crate::types::{KernelError, KernelResult};

verus! {

/// A screen that can be cleared and drawn on. Each drawing operation
/// returns the framebuffer stores that carry it out, in order.
pub trait DisplayBuffer {
    /// Whether clearing computes without overflow.
    spec fn can_clear(&self) -> bool;

    /// Whether drawing the rectangle with corners `p1` and `p2` computes
    /// without overflow.
    spec fn can_draw_rect(&self, p1: Point, p2: Point) -> bool;

    /// Whether filling the triangle `p0 p1 p2` computes without overflow.
    spec fn can_draw_triangle(&self, p0: Point, p1: Point, p2: Point) -> bool;

    /// The stores that paint the whole screen in `color`.
    spec fn clear_stores(&self, color: Channels) -> Seq<FramebufferWrite>;

    /// The stores that fill the rectangle with corners `p1` and `p2`.
    spec fn rect_stores(&self, p1: Point, p2: Point, color: Channels) -> Seq<FramebufferWrite>;

    /// The stores that fill the triangle `p0 p1 p2`.
    spec fn triangle_stores(&self, p0: Point, p1: Point, p2: Point, color: Channels) -> Seq<
        FramebufferWrite,
    >;

    /// The framebuffer geometry.
    spec fn geometry(&self) -> FrameConfig;

    fn clear(&self, color: &Color) -> (out: Vec<FramebufferWrite>)
        requires
            self.can_clear(),
        ensures
            out@ == self.clear_stores(color@),
    ;

    fn draw_rect(&self, p1: Point, p2: Point, color: &Color) -> (out: Vec<FramebufferWrite>)
        requires
            self.can_draw_rect(p1, p2),
        ensures
            out@ == self.rect_stores(p1, p2, color@),
    ;

    fn draw_triangle(&self, p0: Point, p1: Point, p2: Point, color: &Color) -> (out: Vec<
        FramebufferWrite,
    >)
        requires
            self.can_draw_triangle(p0, p1, p2),
        ensures
            out@ == self.triangle_stores(p0, p1, p2, color@),
    ;

    /// The geometry to print for debugging.
    fn debug(&self) -> (r: DebugReport)
        ensures
            r.width == self.geometry().width,
            r.height == self.geometry().height,
            r.pitch == self.geometry().pitch,
            r.size == self.geometry().size,
            r.bits_per_pixel == self.geometry().bits_per_pixel,
            r.depth == self.geometry().depth,
    ;
}

impl DisplayBuffer for HdmiBuffer {
    open spec fn can_clear(&self) -> bool {
        buffer_addressable(self@.config)
    }

    open spec fn can_draw_rect(&self, p1: Point, p2: Point) -> bool {
        rect_addressable(self@.config, p1@.0 as int, p1@.1 as int, p2@.0 as int, p2@.1 as int)
            && clip_computable(self@.config)
    }

    open spec fn can_draw_triangle(&self, p0: Point, p1: Point, p2: Point) -> bool {
        let t = vertices(p0@.0, p0@.1, p1@.0, p1@.1, p2@.0, p2@.1);
        triangle_addressable(self@.config, t) && triangle_computable(self@.config, t)
    }

    open spec fn clear_stores(&self, color: Channels) -> Seq<FramebufferWrite> {
        clear_writes(self@.config, packed_color(color, self@.order))
    }

    open spec fn rect_stores(&self, p1: Point, p2: Point, color: Channels) -> Seq<FramebufferWrite> {
        clipped_rect_writes(
            self@.config,
            packed_color(color, self@.order),
            p1@.0 as int,
            p1@.1 as int,
            p2@.0 as int,
            p2@.1 as int,
        )
    }

    open spec fn triangle_stores(&self, p0: Point, p1: Point, p2: Point, color: Channels) -> Seq<
        FramebufferWrite,
    > {
        triangle_writes(
            self@.config,
            packed_color(color, self@.order),
            vertices(p0@.0, p0@.1, p1@.0, p1@.1, p2@.0, p2@.1),
        )
    }

    open spec fn geometry(&self) -> FrameConfig {
        self@.config
    }

    fn clear(&self, color: &Color) -> (out: Vec<FramebufferWrite>) {
        clear(&self.config(), color, self.order())
    }

    fn draw_rect(&self, p1: Point, p2: Point, color: &Color) -> (out: Vec<FramebufferWrite>) {
        draw_rect(&self.config(), p1.x(), p1.y(), p2.x(), p2.y(), color, self.order())
    }

    fn draw_triangle(&self, p0: Point, p1: Point, p2: Point, color: &Color) -> (out: Vec<
        FramebufferWrite,
    >) {
        draw_triangle(
            &self.config(),
            p0.x(),
            p0.y(),
            p1.x(),
            p1.y(),
            p2.x(),
            p2.y(),
            color,
            self.order(),
        )
    }

    fn debug(&self) -> (r: DebugReport) {
        debug_dump(&self.config())
    }
}

/// The board's display, from the answer to the framebuffer request, drawn
/// with 32-bit pixels in byte order `order`.
pub fn display_buffer(call_ok: bool, mbox: &Mailbox, order: ByteOrder) -> (res: KernelResult<
    HdmiBuffer,
>)
    ensures
        match res {
            Ok(buf) => {
                &&& reply_accepted(call_ok, mbox@)
                &&& buf@.config == config_from_reply(mbox@)
                &&& buf@.order == order
            },
            Err(e) => !reply_accepted(call_ok, mbox@) && e == KernelError::BufferInitError,
        },
{
    HdmiBuffer::new(call_ok, mbox, order)
}

} // verus!
