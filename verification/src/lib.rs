//! A verified core for a Newton guest hypervisor and its boot loader.

pub mod alrt_capture;
pub mod arch;
pub mod audio;
pub mod bitmap;
pub mod cpu;
pub mod diag;
pub mod diag_util;
pub mod display;
pub mod dosend_ring;
pub mod fb_dump;
pub mod flash_persist;
pub mod g1_capture;
pub mod guest;
pub mod guest_bp;
pub mod guest_endian;
pub mod guest_mem;
pub mod guest_trampolines;
pub mod heap_check;
pub mod mem_dump;
pub mod newton_objects;
pub mod nhboot;
pub mod ref_printer;
pub mod rom_loader;
pub mod stage1;
pub mod text;
pub mod words;
