//! The screen driver of the board support package: its own colour packing,
//! the mailbox, framebuffer drawing and on-screen debug logging.

pub mod debug;
pub mod mailbox;
pub mod color;
pub mod screen;
