//! Memory: the frame allocator and the heap growth policy.

use vstd::prelude::*;

use crate::config::PAGE_SIZE;
use crate::mem::frames::{FrameRange, FrameTable};

pub mod allocator;
pub mod frames;
pub mod runs;

verus! {

/// The end of the kernel image, rounded up to a page boundary.
pub open spec fn kernel_image_end(kernel_end: int) -> int {
    (kernel_end + PAGE_SIZE - 1) / (PAGE_SIZE as int) * PAGE_SIZE
}

/// The part of the memory area `(start, size)` that is free for use, as a
/// physical start address and a size.
///
/// The area is given by the addresses at which the kernel sees it, which
/// lie `virt_offset` above the physical ones. Where the kernel image ends
/// within the area, the area up to that end is taken by the image and
/// left out.
pub open spec fn usable_window(start: int, size: int, kernel_end: int, virt_offset: int) -> (
    int,
    int,
) {
    let image_end = kernel_image_end(kernel_end);
    if start <= image_end <= start + size {
        (image_end - virt_offset, size - (image_end - start))
    } else {
        (start - virt_offset, size)
    }
}

/// The page frames of the usable part of a memory area: from the frame
/// that holds its first byte up to, and without, the frame that holds the
/// byte after its last. Nothing where the area does not fit the address
/// space, lies below `virt_offset`, or holds no such frame.
pub open spec fn window_frames(area: (usize, usize), kernel_end: usize, virt_offset: usize)
    -> Option<FrameRange> {
    let (base, len) = usable_window(area.0 as int, area.1 as int, kernel_end as int,
        virt_offset as int);
    let first = base / (PAGE_SIZE as int);
    let last = (base + len) / (PAGE_SIZE as int);
    if area.0 + area.1 <= usize::MAX && kernel_end + PAGE_SIZE - 1 <= usize::MAX && base >= 0
        && first < last {
        Some(FrameRange { start: first as usize, count: (last - first) as usize })
    } else {
        None
    }
}

/// Computes [`window_frames`].
pub fn frames_in_window(area: (usize, usize), kernel_end: usize, virt_offset: usize) -> (r: Option<
    FrameRange,
>)
    ensures
        r == window_frames(area, kernel_end, virt_offset),
        r matches Some(run) ==> run.valid(),
{
    let (start, size) = area;
    let area_end = match start.checked_add(size) {
        Some(e) => e,
        None => {
            return None;
        },
    };
    let image_end = match kernel_end.checked_add(PAGE_SIZE - 1) {
        Some(e) => e / PAGE_SIZE * PAGE_SIZE,
        None => {
            return None;
        },
    };
    let (seen, len) = if start <= image_end && image_end <= area_end {
        (image_end, size - (image_end - start))
    } else {
        (start, size)
    };
    if seen < virt_offset {
        return None;
    }
    let base = seen - virt_offset;
    let first = base / PAGE_SIZE;
    let last = (base + len) / PAGE_SIZE;
    if first < last {
        Some(FrameRange { start: first, count: last - first })
    } else {
        None
    }
}

/// The windows of frames that a table holds after it was given the memory
/// areas `areas` one after the other: each area's frames are added unless
/// the table refuses them (see [`FrameTable::add_region`]).
pub open spec fn init_regions(areas: Seq<(usize, usize)>, kernel_end: usize, virt_offset: usize)
    -> Seq<FrameRange>
    decreases areas.len(),
{
    if areas.len() == 0 {
        Seq::empty()
    } else {
        let before = init_regions(areas.drop_last(), kernel_end, virt_offset);
        match window_frames(areas.last(), kernel_end, virt_offset) {
            Some(run) => if FrameTable::can_add(before, run) {
                before.push(run)
            } else {
                before
            },
            None => before,
        }
    }
}

/// Initialize the memory subsystem: a frame table that holds, as free
/// frames, the usable part of each memory area that the platform
/// reported, with the kernel image left out. Nothing is outstanding.
///
/// The caller zero-fills the windows of the table before it hands the
/// table on.
pub fn init(areas: &[(usize, usize)], kernel_end: usize, virt_offset: usize) -> (table: FrameTable)
    ensures
        table.wf(),
        table.regions() == init_regions(areas@, kernel_end, virt_offset),
        table.outstanding() == Seq::<FrameRange>::empty(),
        table.free() == table.managed(),
{
    let mut table = FrameTable::new();
    let mut i: usize = 0;
    while i < areas.len()
        invariant
            i <= areas@.len(),
            table.wf(),
            table.regions() == init_regions(areas@.subrange(0, i as int), kernel_end, virt_offset),
            table.outstanding() == Seq::<FrameRange>::empty(),
        decreases areas@.len() - i,
    {
        let area = areas[i];
        proof {
            let upto = areas@.subrange(0, i + 1);
            assert(upto.drop_last() =~= areas@.subrange(0, i as int));
            assert(upto.last() == area);
        }
        match frames_in_window(area, kernel_end, virt_offset) {
            Some(run) => {
                let _ = table.add_region(run.start, run.start + run.count);
            },
            None => {},
        }
        i = i + 1;
    }
    proof {
        assert(areas@.subrange(0, i as int) =~= areas@);
        table.lemma_free_is_managed_less_reserved();
        assert(table.reserved() =~= Set::<int>::empty());
        assert(table.free() =~= table.managed());
    }
    table
}

} // verus!
