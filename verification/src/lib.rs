//! Core of a small kernel: the physical frame allocator, the heap growth
//! policy, the user address-space builder, and a virtual file-system tree
//! over pluggable file systems with an in-memory reference file system.
//!
//! Everything here works on plain values, so that each part can be built
//! and exercised on its own; the surrounding kernel binds it to hardware.

pub mod config;
pub mod drivers;
pub mod errno;
pub mod fs;
pub mod mem;
pub mod task;
pub mod utils;
