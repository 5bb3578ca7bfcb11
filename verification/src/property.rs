//! The mailbox property request that asks the firmware for a framebuffer,
//! and the decoding of its answer into a framebuffer configuration.

use vstd::prelude::*;

use crate::board::mailbox::{mbox_get, mbox_set, Mailbox};
use crate::framebuffer::FrameConfig;

verus! {

/// Mailbox channel of the property interface.
pub const MBOX_CH_PROP: u32 = 8;

/// Word 1 of a request.
pub const MBOX_REQUEST: u32 = 0;

/// The tag that ends a property list.
pub const MBOX_TAG_LAST: u32 = 0;

pub const PHYSICAL_SIZE_TAG: u32 = 0x0004_8003;

pub const VIRTUAL_SIZE_TAG: u32 = 0x0004_8004;

pub const VIRTUAL_OFFSET_TAG: u32 = 0x0004_8009;

pub const DEPTH_TAG: u32 = 0x0004_8005;

pub const PIXEL_ORDER_TAG: u32 = 0x0004_8006;

pub const FRAME_BUFFER_TAG: u32 = 0x0004_0001;

pub const PITCH_TAG: u32 = 0x0004_0008;

/// Size in bytes of the request: 35 words.
pub const BUFFER_SIZE: u32 = 140;

/// The 35 words of the request: physical and virtual size `width` x
/// `height`, offset (0, 0), 32 bits per pixel, RGB pixel order, a
/// 4096-byte aligned framebuffer, and the pitch; the answers come back in
/// place (framebuffer address in word 28, its size in word 29, the pitch in
/// word 33).
pub open spec fn framebuffer_request(width: u32, height: u32) -> Seq<u32> {
    seq![
        BUFFER_SIZE, MBOX_REQUEST,
        PHYSICAL_SIZE_TAG, 8, 8, width, height,
        VIRTUAL_SIZE_TAG, 8, 8, width, height,
        VIRTUAL_OFFSET_TAG, 8, 8, 0, 0,
        DEPTH_TAG, 4, 4, 32,
        PIXEL_ORDER_TAG, 4, 4, 1,
        FRAME_BUFFER_TAG, 8, 8, 4096, 0,
        PITCH_TAG, 4, 4, 0,
        MBOX_TAG_LAST,
    ]
}

/// Fills the message buffer with the framebuffer request; the last word of
/// the buffer is left as it was.
pub fn write_framebuffer_request(mbox: &mut Mailbox, width: u32, height: u32)
    ensures
        final(mbox)@ == framebuffer_request(width, height).push(old(mbox)@[35]),
{
    proof {
        old(mbox).lemma_len();
    }
    mbox_set(mbox, 0, BUFFER_SIZE);
    mbox_set(mbox, 1, MBOX_REQUEST);

    mbox_set(mbox, 2, PHYSICAL_SIZE_TAG);
    mbox_set(mbox, 3, 8);
    mbox_set(mbox, 4, 8);
    mbox_set(mbox, 5, width);
    mbox_set(mbox, 6, height);

    mbox_set(mbox, 7, VIRTUAL_SIZE_TAG);
    mbox_set(mbox, 8, 8);
    mbox_set(mbox, 9, 8);
    mbox_set(mbox, 10, width);
    mbox_set(mbox, 11, height);

    mbox_set(mbox, 12, VIRTUAL_OFFSET_TAG);
    mbox_set(mbox, 13, 8);
    mbox_set(mbox, 14, 8);
    mbox_set(mbox, 15, 0);
    mbox_set(mbox, 16, 0);

    mbox_set(mbox, 17, DEPTH_TAG);
    mbox_set(mbox, 18, 4);
    mbox_set(mbox, 19, 4);
    mbox_set(mbox, 20, 32);

    mbox_set(mbox, 21, PIXEL_ORDER_TAG);
    mbox_set(mbox, 22, 4);
    mbox_set(mbox, 23, 4);
    mbox_set(mbox, 24, 1);  // 1 = RGB

    mbox_set(mbox, 25, FRAME_BUFFER_TAG);
    mbox_set(mbox, 26, 8);
    mbox_set(mbox, 27, 8);
    mbox_set(mbox, 28, 4096);  // requested alignment; the framebuffer address comes back here
    mbox_set(mbox, 29, 0);  // the framebuffer size comes back here

    mbox_set(mbox, 30, PITCH_TAG);
    mbox_set(mbox, 31, 4);
    mbox_set(mbox, 32, 4);
    mbox_set(mbox, 33, 0);  // the pitch comes back here

    mbox_set(mbox, 34, MBOX_TAG_LAST);
    assert(mbox@ =~= framebuffer_request(width, height).push(old(mbox)@[35]));
}

/// Whether the firmware granted the framebuffer: the call succeeded, the
/// depth came back as 32 and the framebuffer address is not 0.
pub open spec fn reply_accepted(call_ok: bool, m: Seq<u32>) -> bool {
    call_ok && m[20] == 32 && m[28] != 0
}

/// The configuration described by an answer. The GPU bus address is turned
/// into an ARM physical address by clearing its top two bits; the bytes per
/// pixel are the pitch divided by the width, or 4 for a zero width.
pub open spec fn config_from_reply(m: Seq<u32>) -> FrameConfig {
    FrameConfig {
        buffer: (m[28] & 0x3FFF_FFFFu32) as usize,
        size: m[29] as usize,
        width: m[5],
        height: m[6],
        pitch: m[33],
        depth: m[20],
        bits_per_pixel: if m[5] != 0 {
            (m[33] / m[5]) as u32
        } else {
            4
        },
        is_rgb: m[24],
    }
}

/// Decodes the answer to the framebuffer request: the configuration when
/// the firmware granted a framebuffer, `None` otherwise.
pub fn decode_framebuffer_reply(call_ok: bool, mbox: &Mailbox) -> (cfg: Option<FrameConfig>)
    ensures
        cfg == if reply_accepted(call_ok, mbox@) {
            Some(config_from_reply(mbox@))
        } else {
            None
        },
{
    proof {
        mbox.lemma_len();
    }
    if call_ok && mbox_get(mbox, 20) == 32 && mbox_get(mbox, 28) != 0 {
        let width = mbox_get(mbox, 5);
        let pitch = mbox_get(mbox, 33);
        let bits_per_pixel = if width != 0 {
            pitch / width
        } else {
            4
        };
        Some(
            FrameConfig {
                buffer: (mbox_get(mbox, 28) & 0x3FFF_FFFF) as usize,
                size: mbox_get(mbox, 29) as usize,
                width,
                height: mbox_get(mbox, 6),
                pitch,
                depth: mbox_get(mbox, 20),
                bits_per_pixel,
                is_rgb: mbox_get(mbox, 24),
            },
        )
    } else {
        None
    }
}

/// The framebuffer address of an accepted answer is an ARM physical address
/// below 1 GiB and keeps the low 30 bits of the GPU bus address.
pub proof fn lemma_reply_buffer_below_1g(m: Seq<u32>)
    requires
        m.len() == 36,
    ensures
        config_from_reply(m).buffer < 0x4000_0000,
        config_from_reply(m).buffer as int == m[28] as int % 0x4000_0000,
{
    let a = m[28];
    assert((a & 0x3FFF_FFFFu32) < 0x4000_0000 && (a & 0x3FFF_FFFFu32) == a % 0x4000_0000) by (bit_vector);
}

/// The geometry of an answer: the width, height, depth, pitch, buffer
/// size and pixel order come from reply words 5, 6, 20, 33, 29 and 24, and
/// the bytes per pixel is the pitch divided by the width, rounded down (a
/// padded pitch does not count as an extra byte), or 4 for a zero width.
pub proof fn lemma_reply_geometry(m: Seq<u32>)
    requires
        m.len() == 36,
    ensures
        config_from_reply(m).width == m[5],
        config_from_reply(m).height == m[6],
        config_from_reply(m).depth == m[20],
        config_from_reply(m).pitch == m[33],
        config_from_reply(m).size == m[29],
        config_from_reply(m).is_rgb == m[24],
        m[5] != 0 ==> config_from_reply(m).bits_per_pixel * m[5] <= m[33],
        m[5] != 0 ==> m[33] < (config_from_reply(m).bits_per_pixel + 1) * m[5],
        m[5] == 0 ==> config_from_reply(m).bits_per_pixel == 4,
{
    if m[5] != 0 {
        let w = m[5] as int;
        let p = m[33] as int;
        let q = p / w;
        assert(q * w <= p < (q + 1) * w) by (nonlinear_arith)
            requires
                w > 0,
                p >= 0,
                q == p / w,
        ;
        assert(0 <= q <= p) by (nonlinear_arith)
            requires
                w > 0,
                p >= 0,
                q == p / w,
        ;
        assert(config_from_reply(m).bits_per_pixel == q);
    }
}

/// An answer is accepted exactly when the call succeeded, the firmware
/// granted 32 bits per pixel and returned a non-zero buffer address.
pub proof fn lemma_reply_accepted(call_ok: bool, m: Seq<u32>)
    ensures
        reply_accepted(call_ok, m) <==> call_ok && m[20] == 32 && m[28] != 0,
{
}

} // verus!
