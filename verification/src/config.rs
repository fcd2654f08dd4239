//! Sizes and addresses shared by the memory and task layers.

use vstd::prelude::*;

verus! {

/// The size of the last level page.
pub const PAGE_SIZE: usize = 4096;

/// Default heap size: the static arena used before any frame is available.
pub const DEFAULT_HEAP_SIZE: usize = 0x20_0000;

/// Size of the user stack. A multiple of the page size.
pub const DEFAULT_USER_STACK_SIZE: u64 = 0x8000;

/// Default stack top address for the user stack.
pub const DEFAULT_USER_STACK_TOP: u64 = 0x1_0000_0000;

/// Default alignment for the user stack and memory: one machine word.
pub const ALIGN_SIZE: u64 = 8;

/// Number of slack pages the heap asks for beyond the request when it grows.
pub const HEAP_GROWTH_MARGIN_PAGES: usize = 10;

} // verus!
