//! The host's framebuffer.

pub mod fb;
pub mod probe;
