# Raspberry Pi framebuffer graphics, verified

A Verus library for the display side of a small Raspberry Pi kernel: colour
packing (32-bit and RGB565), the VideoCore mailbox protocol that asks the
firmware for a framebuffer, rasterisation of pixels, clipped rectangles and
half-space triangles, an 8x8 bitmap font, on-screen debug logging and a text
console.

Drawing does not touch memory: each operation returns the exact list of
framebuffer stores (address, 16- or 32-bit value) in the order the hardware
must see them, and its contract states that list. The mailbox handshake is a
state machine that tells the caller which register to read or write next.

Layout:

- `src/` — the verified library.
  - `color.rs`, `board/color.rs` — colours; the display takes either
    byte order of 32-bit pixels (`ByteOrder`).
  - `framebuffer.rs` — framebuffer geometry, stores, rectangle scans.
  - `raster.rs` — triangles.
  - `font.rs` — glyphs and their rendering.
  - `property.rs` — the framebuffer property request and its answer.
  - `board/` — the board driver: mailbox, screen, debug log.
  - `motherboards/` — the HDMI display, the display interface, the console.
- `tests/` — tests on concrete values.
- `app/` — the kernel itself: MMIO, the mailbox buffer shared with the GPU,
  volatile framebuffer stores, and the main routine.
