//! Architecture mechanism: banked-register mapping, instruction decode and emit.

pub mod aarch32_emit;
pub mod arm_decode;
pub mod banked;
pub mod trap_context;
