//! Kernel errors.

use vstd::prelude::*;

verus! {

#[derive(Clone, Copy, Debug, PartialEq, Eq, Structural)]
pub enum KernelError {
    /// The firmware did not set up a framebuffer.
    BufferInitError,
}

pub type KernelResult<T> = Result<T, KernelError>;

} // verus!
