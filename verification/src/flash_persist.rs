//! Keeping the guest's flash across power cycles.

pub mod null;
pub mod sd;
