//! The backend that keeps nothing.

use vstd::prelude::*;

verus! {

/// A store that never loads or saves.
pub struct NullBackend;

impl NullBackend {
    /// Loads nothing: the flash stays as it is.
    pub fn try_load(&self, flash: &mut Vec<u8>)
        ensures
            final(flash)@ == old(flash)@,
    {
    }

    /// Keeps no account of changes: there is never a block to save.
    pub fn mark_dirty(&self, off: usize, len: usize) -> (blocks: usize)
        ensures
            blocks == 0,
    {
        0
    }

    /// Never saves.
    pub fn maybe_save(&self) -> (saved: bool)
        ensures
            !saved,
    {
        false
    }

    /// A constant, so that every snapshot matches.
    pub fn fingerprint(&self) -> (f: u32)
        ensures
            f == 0,
    {
        0
    }
}

} // verus!
