//! File systems: the interfaces and types that every file system shares,
//! the tree that mounts file systems and resolves paths, and the
//! in-memory file system.

pub mod base;
pub mod pager;
pub mod path;
pub mod ramfs;
pub mod tree;
