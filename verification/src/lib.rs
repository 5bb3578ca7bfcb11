//! A framebuffer graphics and console library for the Raspberry Pi's
//! VideoCore display: colour packing, the mailbox property protocol that sets
//! up a framebuffer, pixel/rectangle/triangle rasterisation, an 8x8 bitmap font
//! and a text console.
//!
//! Drawing never touches memory itself: every drawing operation returns the
//! exact sequence of framebuffer stores (address, width, value) that the
//! hardware must see, so the caller performs them with volatile writes.

pub mod color;
pub mod framebuffer;
pub mod raster;
pub mod font;
pub mod board;
pub mod property;
pub mod geometry;
pub mod types;
pub mod motherboards;
