//! The display and console of the supported motherboards, drawn through
//! an HDMI framebuffer with `i32` coordinates and clipping.

pub mod console;
pub mod display;
pub mod hdmi;
