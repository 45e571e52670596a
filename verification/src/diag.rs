//! Diagnostics: what is collected of a guest that has stopped or misbehaves.

pub mod blit_timing;
pub mod heap_check;
pub mod off;
pub mod stall;
pub mod tracer;
pub mod trap_diag;
