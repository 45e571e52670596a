//! The flag bits of an object header.

use vstd::prelude::*;

verus! {

/// The object has slots: it is an array or a frame.
pub const KOBJ_SLOTTED: u8 = 0x01;

/// The slots are a frame's.
pub const KOBJ_FRAME: u8 = 0x02;

/// The bit that every header has.
pub const HEADER_BASE: u8 = 0x40;

} // verus!
