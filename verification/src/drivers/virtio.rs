//! What the virtio drivers ask of the kernel: memory for their queues
//! and the translation of addresses.

use std::marker::PhantomData;
use vstd::prelude::*;

use crate::drivers::base::DAlloc;

verus! {

/// Serves the virtio drivers from a driver page allocator.
pub struct HalImpl<D: DAlloc>(pub PhantomData<D>);

impl<D: DAlloc> HalImpl<D> {
    /// Allocates `pages` pages for a queue: their physical address, which
    /// the driver page allocator picks, and the virtual address at which
    /// the kernel sees them. Nothing where that virtual address is null;
    /// so where no physical address is seen at the null address, the
    /// pages are always had.
    pub fn dma_alloc(pages: usize) -> (r: Option<(usize, usize)>)
        ensures
            r matches Some((paddr, vaddr)) ==> vaddr == D::virt_of(paddr) && vaddr != 0,
            (forall|paddr: usize| #[trigger] D::virt_of(paddr) != 0) ==> r is Some,
    {
        let paddr = D::alloc_pages(pages);
        let vaddr = D::phys_to_virt(paddr);
        if vaddr == 0 {
            None
        } else {
            Some((paddr, vaddr))
        }
    }

    /// Gives the `pages` pages at the physical address `paddr` back.
    pub fn dma_dealloc(paddr: usize, pages: usize) -> i32 {
        D::dealloc(paddr, pages)
    }

    /// The virtual address of the device registers at the physical
    /// address `paddr`. Nothing where it is null.
    pub fn mmio_phys_to_virt(paddr: usize) -> (r: Option<usize>)
        ensures
            r == (if D::virt_of(paddr) != 0 {
                Some(D::virt_of(paddr))
            } else {
                None
            }),
    {
        let vaddr = D::phys_to_virt(paddr);
        if vaddr == 0 {
            None
        } else {
            Some(vaddr)
        }
    }

    /// The physical address under which a device reaches the buffer at
    /// the virtual address `vaddr`.
    pub fn share(vaddr: usize) -> (paddr: usize)
        ensures
            paddr == D::phys_of(vaddr),
    {
        D::virt_to_phys(vaddr)
    }
}

} // verus!
