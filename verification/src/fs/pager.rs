//! The source of file pages that the kernel binds file systems to: the
//! frame allocator.

use vstd::prelude::*;

use crate::config::PAGE_SIZE;
use crate::fs::base::{FSPage, FSTrait};
use crate::mem::frames::{
    alloc_pages_raw, block_at, dealloc_pages_raw, lemma_block_frames_bounds,
    lemma_block_of_one, FrameTable,
};

verus! {

/// Hands the frames of a frame table out as file pages.
pub struct FSTraitImpl {
    table: FrameTable,
    virt_offset: usize,
}

impl FSTraitImpl {
    /// The frame table behind the source, for contracts.
    pub closed spec fn table_spec(&self) -> FrameTable {
        self.table
    }

    /// The bits by which a virtual address of physical memory differs
    /// from the physical one, for contracts.
    pub closed spec fn offset_spec(&self) -> usize {
        self.virt_offset
    }

    /// A source of pages that takes its frames from `table`. Physical
    /// memory is seen at the addresses that have the bits of
    /// `virt_offset` set.
    pub fn new(table: FrameTable, virt_offset: usize) -> (source: FSTraitImpl)
        requires
            table.wf(),
        ensures
            source.wf(),
            source.table_spec() == table,
            source.offset_spec() == virt_offset,
    {
        FSTraitImpl { table, virt_offset }
    }

    /// The frame table behind the source.
    pub fn table(&self) -> (table: &FrameTable)
        ensures
            *table == self.table_spec(),
    {
        &self.table
    }

    /// Gives the frame table back.
    pub fn into_table(self) -> (table: FrameTable)
        ensures
            table == self.table_spec(),
    {
        self.table
    }
}

impl FSTrait for FSTraitImpl {
    closed spec fn wf(&self) -> bool {
        self.table.wf()
    }

    /// A single page is served when the frame table names a frame for
    /// it whose address fits in `usize`.
    open spec fn serves_page(&self) -> bool {
        self.table_spec().pick(1) matches Some(start) && start * PAGE_SIZE <= usize::MAX
    }

    /// A page is handed out while the frame that holds its address is
    /// outstanding in the frame table.
    open spec fn lent(&self, addr: usize) -> bool {
        self.table_spec().reserved().contains((addr / PAGE_SIZE) as int)
    }

    /// The pages are a block of the frame table; the address is that of
    /// the block's first frame. They are handed out exactly when the
    /// table names a block for them, as [`FrameTable::pick`] says, and
    /// the address of its first frame fits in `usize`; so a single page
    /// is handed out when a frame is free and the address of every free
    /// frame fits. None is handed out when no frame is free. Where
    /// nothing is handed out the table is left as it was.
    fn alloc_page(&mut self, count: usize) -> (r: Option<FSPage>)
        ensures
            final(self).table_spec().regions() == old(self).table_spec().regions(),
            r is Some <==> (old(self).table_spec().pick(count) matches Some(start) && start
                * PAGE_SIZE <= usize::MAX),
            !old(self).table_spec().has_free() ==> r is None,
            count <= 1 && old(self).table_spec().has_free() && (forall|f: int|
                old(self).table_spec().free().contains(f) ==> f * PAGE_SIZE <= usize::MAX)
                ==> r is Some,
            match r {
                Some(page) => {
                    let start = (page.addr_spec() / PAGE_SIZE) as usize;
                    &&& page.addr_spec() == start * PAGE_SIZE
                    &&& old(self).table_spec().pick(count) == Some(start)
                    &&& block_at(start, count).frames().subset_of(old(self).table_spec().free())
                    &&& final(self).table_spec().free()
                        == old(self).table_spec().free().difference(block_at(start, count).frames())
                    &&& final(self).table_spec().reserved()
                        == old(self).table_spec().reserved().union(block_at(start, count).frames())
                    &&& final(self).table_spec().outstanding()
                        == old(self).table_spec().outstanding().push(block_at(start, count))
                },
                None => {
                    &&& final(self).table_spec().free() == old(self).table_spec().free()
                    &&& final(self).table_spec().reserved() == old(self).table_spec().reserved()
                },
            },
    {
        match alloc_pages_raw(&mut self.table, count) {
            Some(start) => match start.checked_mul(PAGE_SIZE) {
                Some(addr) => {
                    proof {
                        assert((start * PAGE_SIZE) / PAGE_SIZE as int == start);
                        lemma_block_frames_bounds(count as nat);
                        old(self).table.lemma_free_is_managed_less_reserved();
                        assert(block_at(start, count).contains(start as int));
                        assert(block_at(start, count).frames().contains(start as int));
                        assert(old(self).table.free().contains(start as int));
                        assert(self.table.reserved().contains(start as int));
                    }
                    Some(FSPage::new(addr, count))
                },
                None => {
                    proof {
                        lemma_block_frames_bounds(count as nat);
                        let block = block_at(start, count);
                        let runs = old(self).table.outstanding().push(block);
                        assert(runs[runs.len() - 1].covers(block));
                    }
                    dealloc_pages_raw(&mut self.table, start, count);
                    proof {
                        let block = block_at(start, count);
                        old(self).table.lemma_free_is_managed_less_reserved();
                        assert(self.table.free() =~= old(self).table.free());
                        assert(self.table.reserved() =~= old(self).table.reserved());
                        assert(block.contains(start as int));
                        assert(old(self).table.free().contains(start as int));
                    }
                    None
                },
            },
            None => None,
        }
    }

    /// The block of `count` pages whose first frame holds `addr` goes
    /// back to the frame table: where one outstanding run holds it, its
    /// frames are free again and outstanding no more; where none does,
    /// nothing changes.
    fn dealloc_page(&mut self, addr: usize, count: usize)
        ensures
            final(self).table_spec().regions() == old(self).table_spec().regions(),
            if old(self).table_spec().holds_block((addr / PAGE_SIZE) as usize, count) {
                &&& final(self).table_spec().reserved()
                    == old(self).table_spec().reserved().difference(
                    block_at((addr / PAGE_SIZE) as usize, count).frames(),
                )
                &&& final(self).table_spec().free() == old(self).table_spec().free().union(
                    block_at((addr / PAGE_SIZE) as usize, count).frames(),
                )
            } else {
                &&& final(self).table_spec().outstanding() == old(self).table_spec().outstanding()
                &&& final(self).table_spec().free() == old(self).table_spec().free()
            },
    {
        let released = self.table.deallocate(addr / PAGE_SIZE, count);
        proof {
            let frame = (addr / PAGE_SIZE) as usize;
            let runs = old(self).table.outstanding();
            old(self).table.lemma_free_is_managed_less_reserved();
            self.table.lemma_free_is_managed_less_reserved();
            if count == 1 {
                lemma_block_of_one(frame);
                if released is Err && old(self).table.reserved().contains(frame as int) {
                    let i = choose|i: int|
                        0 <= i < runs.len() && #[trigger] runs[i].contains(frame as int);
                    assert(runs[i].covers(block_at(frame, 1)));
                }
            }
            if released is Err {
                assert(self.table.reserved() =~= old(self).table.reserved());
            }
        }
    }

    fn phys_to_virt(&self, phys: usize) -> (virt: usize)
        ensures
            virt == phys | self.offset_spec(),
    {
        phys | self.virt_offset
    }

    fn virt_to_phys(&self, virt: usize) -> (phys: usize)
        ensures
            phys == virt & !self.offset_spec(),
    {
        virt & !self.virt_offset
    }
}

} // verus!
