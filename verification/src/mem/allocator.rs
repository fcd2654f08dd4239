//! The growth of the kernel heap.
//!
//! The heap starts on a static arena and grows by whole frames: when a
//! request leaves too little headroom, a block of frames is taken from
//! the frame table and handed to the heap. What the heap was given it
//! keeps; nothing goes back to the frame table.
//!
//! The heap itself, which carves the requests out of what it was given,
//! is not kept here: this module decides, for each request, what the
//! heap must be given first, and takes the frames for it.

use vstd::prelude::*;

use crate::config::{DEFAULT_HEAP_SIZE, HEAP_GROWTH_MARGIN_PAGES, PAGE_SIZE};
use crate::mem::frames::{
    alloc_pages_raw, block_at, dealloc_pages_raw, lemma_block_frames_bounds, FrameRange,
    FrameTable, MAX_BLOCK_FRAMES,
};

verus! {

/// What the heap needs before it serves a request.
#[derive(Clone, Copy, Debug, PartialEq, Eq, Structural)]
pub enum HeapNeed {
    /// The heap holds nothing yet: it needs the static arena, of `size`
    /// bytes.
    Seed { size: usize },
    /// Headroom is low: it needs `pages` more pages.
    Grow { pages: usize },
    /// Headroom suffices: it needs nothing.
    Nothing,
}

/// What the heap must be given before it serves a request.
#[derive(Clone, Copy, Debug, PartialEq, Eq, Structural)]
pub enum HeapStep {
    /// The heap holds nothing yet: give it the static arena, of `size`
    /// bytes.
    Seed { size: usize },
    /// Headroom is low: give it the memory from the virtual address
    /// `start` up to `end`, which the frames from `first_frame` on back.
    Extend { start: usize, end: usize, first_frame: usize, pages: usize },
    /// Headroom suffices: nothing.
    Serve,
    /// Headroom is low and no memory can be had: the request fails.
    Fail,
}

/// The bytes that the heap can still hand out.
pub open spec fn headroom(total: usize, actual: usize) -> int {
    if actual <= total {
        total - actual
    } else {
        0
    }
}

/// Whether a request for `size` bytes leaves too little headroom: less
/// than the request and one page of slack.
pub open spec fn must_grow(total: usize, actual: usize, size: usize) -> bool {
    headroom(total, actual) < size + PAGE_SIZE
}

/// The pages by which the heap grows for a request of `size` bytes: the
/// request and a margin of ten pages, rounded down to whole pages.
pub open spec fn growth_pages(size: usize) -> int {
    (size + HEAP_GROWTH_MARGIN_PAGES * PAGE_SIZE - 1) / (PAGE_SIZE as int)
}

/// What a heap that holds `total` bytes, of which `actual` are handed
/// out, needs before it serves a request for `size` bytes. A heap that
/// holds nothing needs the static arena. A heap whose headroom is less
/// than the request and one page of slack needs [`growth_pages`] pages,
/// or as many as can be counted.
pub open spec fn need_for(total: usize, actual: usize, size: usize) -> HeapNeed {
    if total == 0 {
        HeapNeed::Seed { size: DEFAULT_HEAP_SIZE }
    } else if !must_grow(total, actual, size) {
        HeapNeed::Nothing
    } else if growth_pages(size) * PAGE_SIZE <= usize::MAX {
        HeapNeed::Grow { pages: growth_pages(size) as usize }
    } else {
        HeapNeed::Grow { pages: usize::MAX / PAGE_SIZE }
    }
}

/// Computes [`need_for`].
pub fn heap_need(total: usize, actual: usize, size: usize) -> (need: HeapNeed)
    ensures
        need == need_for(total, actual, size),
{
    if total == 0 {
        return HeapNeed::Seed { size: DEFAULT_HEAP_SIZE };
    }
    let room = if actual <= total {
        total - actual
    } else {
        0
    };
    let enough = match size.checked_add(PAGE_SIZE) {
        Some(wanted) => room >= wanted,
        None => false,
    };
    if enough {
        return HeapNeed::Nothing;
    }
    match size.checked_add(HEAP_GROWTH_MARGIN_PAGES * PAGE_SIZE - 1) {
        Some(bytes) => HeapNeed::Grow { pages: bytes / PAGE_SIZE },
        None => HeapNeed::Grow { pages: usize::MAX / PAGE_SIZE },
    }
}

/// Whether the `pages` pages from the frame `first_frame` on have
/// virtual addresses: the start of the frame, with the bits of
/// `virt_offset` set, and the end behind it fit in `usize`.
pub open spec fn addressable(first_frame: usize, pages: int, virt_offset: usize) -> bool {
    &&& first_frame * PAGE_SIZE <= usize::MAX
    &&& (((first_frame * PAGE_SIZE) as usize) | virt_offset) + pages * PAGE_SIZE <= usize::MAX
}

/// Whether the heap is extended by `pages` pages when the frame table
/// names the block `picked` for them: a block is named, and its pages
/// have virtual addresses at the offset `virt_offset`.
pub open spec fn extends(picked: Option<usize>, pages: usize, virt_offset: usize) -> bool {
    picked matches Some(first_frame) && addressable(first_frame, pages as int, virt_offset)
}

/// The virtual addresses of the `pages` pages from the frame
/// `first_frame` on, from the first up to the one behind the last, where
/// they have any.
pub fn extension_range(first_frame: usize, pages: usize, virt_offset: usize) -> (range: Option<
    (usize, usize),
>)
    ensures
        range is Some <==> addressable(first_frame, pages as int, virt_offset),
        range matches Some((start, end)) ==> start == ((first_frame * PAGE_SIZE) as usize)
            | virt_offset && end == start + pages * PAGE_SIZE,
{
    match first_frame.checked_mul(PAGE_SIZE) {
        Some(phys) => {
            let start = phys | virt_offset;
            match pages.checked_mul(PAGE_SIZE) {
                Some(bytes) => match start.checked_add(bytes) {
                    Some(end) => Some((start, end)),
                    None => None,
                },
                None => None,
            }
        },
        None => None,
    }
}

/// The heap's memory: whether it was seeded with the static arena, and
/// the blocks of frames it was extended by.
pub struct HeapArena {
    seeded: bool,
    extensions: Vec<FrameRange>,
    virt_offset: usize,
}

impl HeapArena {
    /// Whether the heap was given the static arena.
    pub closed spec fn seeded(&self) -> bool {
        self.seeded
    }

    /// The blocks of frames that the heap was extended by, in order.
    pub closed spec fn extensions(&self) -> Seq<FrameRange> {
        self.extensions@
    }

    /// The bits by which a virtual address of physical memory differs
    /// from the physical one.
    pub closed spec fn virt_offset(&self) -> usize {
        self.virt_offset
    }

    /// A heap that was given nothing yet.
    pub fn new(virt_offset: usize) -> (arena: HeapArena)
        ensures
            !arena.seeded(),
            arena.extensions() == Seq::<FrameRange>::empty(),
            arena.virt_offset() == virt_offset,
    {
        HeapArena { seeded: false, extensions: Vec::new(), virt_offset }
    }

    /// The number of blocks that the heap was extended by.
    pub fn extension_count(&self) -> (count: usize)
        ensures
            count == self.extensions().len(),
    {
        self.extensions.len()
    }

    /// The blocks of frames that the heap was extended by, in order.
    pub fn extension_list(&self) -> (list: Vec<FrameRange>)
        ensures
            list@ == self.extensions(),
    {
        self.extensions.clone()
    }

    /// Records that the heap was given the static arena.
    pub fn seed(&mut self) -> (step: HeapStep)
        ensures
            step == (HeapStep::Seed { size: DEFAULT_HEAP_SIZE }),
            final(self).seeded(),
            final(self).extensions() == old(self).extensions(),
            final(self).virt_offset() == old(self).virt_offset(),
    {
        self.seeded = true;
        HeapStep::Seed { size: DEFAULT_HEAP_SIZE }
    }

    /// Takes a block of `pages` pages from `table` for the heap. The
    /// block is recorded as an extension and stays outstanding in the
    /// table. Where no block is had, or the block has no virtual
    /// addresses, the step fails and table and heap stay as they were.
    ///
    /// The heap is extended exactly when the table names a block for
    /// `pages` frames, as [`FrameTable::pick`] says, and the block has
    /// virtual addresses. None is named when no frame is free or `pages`
    /// is larger than any block.
    pub fn extend(&mut self, table: &mut FrameTable, pages: usize) -> (step: HeapStep)
        requires
            old(table).wf(),
        ensures
            final(table).wf(),
            final(table).regions() == old(table).regions(),
            final(self).virt_offset() == old(self).virt_offset(),
            final(self).seeded() == old(self).seeded(),
            step is Extend || step is Fail,
            step is Extend <==> extends(old(table).pick(pages), pages, old(self).virt_offset()),
            pages > MAX_BLOCK_FRAMES ==> step is Fail,
            !old(table).has_free() ==> step is Fail,
            pages <= 1 && old(table).has_free() && (forall|f: usize|
                old(table).free().contains(f as int) ==> addressable(
                    f,
                    pages as int,
                    old(self).virt_offset(),
                )) ==> step is Extend,
            match step {
                HeapStep::Extend { start, end, first_frame, pages: granted } => {
                    &&& granted == pages
                    &&& old(table).pick(pages) == Some(first_frame)
                    &&& addressable(first_frame, pages as int, old(self).virt_offset())
                    &&& start == ((first_frame * PAGE_SIZE) as usize) | old(self).virt_offset()
                    &&& end == start + pages * PAGE_SIZE
                    &&& block_at(first_frame, pages).frames().subset_of(old(table).free())
                    &&& final(table).reserved() == old(table).reserved().union(
                        block_at(first_frame, pages).frames(),
                    )
                    &&& final(table).outstanding() == old(table).outstanding().push(
                        block_at(first_frame, pages),
                    )
                    &&& final(self).extensions() == old(self).extensions().push(
                        FrameRange { start: first_frame, count: pages },
                    )
                },
                _ => {
                    &&& final(table).free() == old(table).free()
                    &&& final(table).reserved() == old(table).reserved()
                    &&& final(self).extensions() == old(self).extensions()
                },
            },
    {
        let first_frame = match alloc_pages_raw(table, pages) {
            Some(first_frame) => first_frame,
            None => {
                return HeapStep::Fail;
            },
        };
        proof {
            lemma_block_frames_bounds(pages as nat);
            assert(block_at(first_frame, pages).contains(first_frame as int));
            assert(old(table).free().contains(first_frame as int));
        }
        match extension_range(first_frame, pages, self.virt_offset) {
            Some((start, end)) => {
                self.extensions.push(FrameRange { start: first_frame, count: pages });
                HeapStep::Extend { start, end, first_frame, pages }
            },
            None => {
                proof {
                    lemma_block_frames_bounds(pages as nat);
                    let block = block_at(first_frame, pages);
                    let runs = old(table).outstanding().push(block);
                    assert(runs[runs.len() - 1].covers(block));
                }
                dealloc_pages_raw(table, first_frame, pages);
                proof {
                    old(table).lemma_free_is_managed_less_reserved();
                    assert(table.free() =~= old(table).free());
                    assert(table.reserved() =~= old(table).reserved());
                }
                HeapStep::Fail
            },
        }
    }

    /// Decides what the heap must be given before it serves a request for
    /// `size` bytes, when it holds `total` bytes of which `actual` are
    /// handed out, and takes the frames for it: what [`need_for`] says is
    /// needed is seeded, left alone, or taken from `table` as
    /// [`HeapArena::extend`] says.
    pub fn prepare(
        &mut self,
        table: &mut FrameTable,
        total: usize,
        actual: usize,
        size: usize,
    ) -> (step: HeapStep)
        requires
            old(table).wf(),
        ensures
            final(table).wf(),
            final(table).regions() == old(table).regions(),
            final(self).virt_offset() == old(self).virt_offset(),
            final(self).seeded() == (old(self).seeded() || step is Seed),
            match need_for(total, actual, size) {
                HeapNeed::Seed { size } => step == (HeapStep::Seed { size }),
                HeapNeed::Nothing => step == HeapStep::Serve,
                HeapNeed::Grow { pages } => {
                    &&& step is Extend || step is Fail
                    &&& step is Extend <==> extends(
                        old(table).pick(pages),
                        pages,
                        old(self).virt_offset(),
                    )
                    &&& pages > MAX_BLOCK_FRAMES ==> step is Fail
                    &&& !old(table).has_free() ==> step is Fail
                    &&& step matches HeapStep::Extend { pages: granted, .. } ==> granted == pages
                },
            },
            match step {
                HeapStep::Extend { start, end, first_frame, pages } => {
                    &&& addressable(first_frame, pages as int, old(self).virt_offset())
                    &&& start == ((first_frame * PAGE_SIZE) as usize) | old(self).virt_offset()
                    &&& end == start + pages * PAGE_SIZE
                    &&& block_at(first_frame, pages).frames().subset_of(old(table).free())
                    &&& final(table).reserved() == old(table).reserved().union(
                        block_at(first_frame, pages).frames(),
                    )
                    &&& final(table).outstanding() == old(table).outstanding().push(
                        block_at(first_frame, pages),
                    )
                    &&& final(self).extensions() == old(self).extensions().push(
                        FrameRange { start: first_frame, count: pages },
                    )
                },
                _ => {
                    &&& final(table).free() == old(table).free()
                    &&& final(table).reserved() == old(table).reserved()
                    &&& final(self).extensions() == old(self).extensions()
                },
            },
    {
        match heap_need(total, actual, size) {
            HeapNeed::Seed { size: _ } => self.seed(),
            HeapNeed::Nothing => HeapStep::Serve,
            HeapNeed::Grow { pages } => self.extend(table, pages),
        }
    }
}

} // verus!
