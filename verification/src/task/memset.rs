//! The resident set of a user task: which virtual pages are mapped, to
//! which frames, and what the pages hold.

use std::collections::BTreeMap;
use vstd::prelude::*;

use crate::config::PAGE_SIZE;
use crate::mem::frames::{alloc_page, all_zero, FrameTable, FrameTracker};

verus! {

/// A page of zeros with `data` laid over it from `offset` on.
pub open spec fn filled_page(offset: int, data: Seq<u8>) -> Seq<u8> {
    Seq::new(
        PAGE_SIZE as nat,
        |i: int|
            if offset <= i < offset + data.len() {
                data[i - offset]
            } else {
                0u8
            },
    )
}

/// Puts `page` at `vpn`, and returns the page that was there.
fn put_page(pages: &mut BTreeMap<u64, FrameTracker>, vpn: u64, page: FrameTracker) -> (replaced:
    Option<FrameTracker>)
    ensures
        final(pages)@ == old(pages)@.insert(vpn, page),
        match replaced {
            Some(p) => old(pages)@.contains_key(vpn) && p == old(pages)@[vpn],
            None => !old(pages)@.contains_key(vpn),
        },
{
    broadcast use vstd::laws_cmp::group_laws_cmp;

    pages.insert(vpn, page)
}

/// The page at `vpn`.
fn get_page(pages: &BTreeMap<u64, FrameTracker>, vpn: u64) -> (found: Option<&FrameTracker>)
    ensures
        match found {
            Some(p) => pages@.contains_key(vpn) && *p == pages@[vpn],
            None => !pages@.contains_key(vpn),
        },
{
    broadcast use vstd::laws_cmp::group_laws_cmp;

    pages.get(&vpn)
}

/// Takes the page at `vpn` out, if there is one.
fn take_page(pages: &mut BTreeMap<u64, FrameTracker>, vpn: u64) -> (taken: Option<FrameTracker>)
    ensures
        final(pages)@ == old(pages)@.remove(vpn),
        match taken {
            Some(p) => old(pages)@.contains_key(vpn) && p == old(pages)@[vpn],
            None => !old(pages)@.contains_key(vpn),
        },
{
    broadcast use vstd::laws_cmp::group_laws_cmp;

    pages.remove(&vpn)
}

/// User task memory manager: the owned page of each mapped virtual page.
pub struct MemSet {
    pages: BTreeMap<u64, FrameTracker>,
    /// Every virtual page number that was ever mapped.
    vpns: Vec<u64>,
}

impl MemSet {
    /// The page of each mapped virtual page number.
    pub closed spec fn pages(&self) -> Map<u64, FrameTracker> {
        self.pages@
    }

    /// Whether the virtual page `vpn` is mapped.
    pub open spec fn mapped(&self, vpn: u64) -> bool {
        self.pages().contains_key(vpn)
    }

    /// The frame that the virtual page `vpn` is mapped to.
    pub open spec fn frame(&self, vpn: u64) -> usize {
        self.pages()[vpn].frame()
    }

    /// The bytes of the virtual page `vpn`.
    pub open spec fn bytes(&self, vpn: u64) -> Seq<u8> {
        self.pages()[vpn]@
    }

    /// The bytes of each mapped virtual page.
    pub open spec fn image(&self) -> Map<u64, Seq<u8>> {
        Map::new(|vpn: u64| self.mapped(vpn), |vpn: u64| self.bytes(vpn))
    }

    /// The frames that back the mapped pages.
    pub open spec fn frames(&self) -> Set<int> {
        Set::new(|f: int| exists|vpn: u64| self.mapped(vpn) && #[trigger] self.frame(vpn) == f)
    }

    /// Whether each mapped page has its full size.
    pub open spec fn wf(&self) -> bool {
        &&& forall|vpn: u64| self.mapped(vpn) ==> (#[trigger] self.pages()[vpn]).wf()
        &&& forall|vpn: u64| #[trigger] self.mapped(vpn) ==> self.known().contains(vpn)
    }

    /// The virtual page numbers that the set keeps track of: every one
    /// that was mapped since the set was last emptied.
    pub closed spec fn known(&self) -> Seq<u64> {
        self.vpns@
    }

    /// Whether `table` accounts for the set: each mapped page's frame is
    /// outstanding there, and no frame backs two pages.
    pub open spec fn backed_by(&self, table: &FrameTable) -> bool {
        &&& forall|vpn: u64|
            self.mapped(vpn) ==> table.reserved().contains(#[trigger] self.frame(vpn) as int)
        &&& forall|a: u64, b: u64|
            self.mapped(a) && self.mapped(b) && a != b ==> #[trigger] self.frame(a)
                != #[trigger] self.frame(b)
    }

    /// Create a new memset, with nothing mapped.
    pub fn new() -> (set: MemSet)
        ensures
            set.wf(),
            set.pages() == Map::<u64, FrameTracker>::empty(),
    {
        MemSet { pages: BTreeMap::new(), vpns: Vec::new() }
    }

    /// Maps the virtual page `vpn` to a fresh frame of `table` that holds
    /// zeros with `data` laid over them from `offset` on, and returns the
    /// frame's number. A page that was mapped at `vpn` before is replaced
    /// and its frame given back. A frame is had exactly when one is free,
    /// also where a page is replaced; when none is had, nothing changes.
    pub fn map_filled(&mut self, table: &mut FrameTable, vpn: u64, offset: usize,
        data: &[u8]) -> (r:
        Option<usize>)
        requires
            old(self).wf(),
            old(table).wf(),
            old(self).backed_by(old(table)),
            offset + data@.len() <= PAGE_SIZE,
        ensures
            final(self).wf(),
            final(table).wf(),
            final(self).backed_by(final(table)),
            final(table).regions() == old(table).regions(),
            r is Some <==> old(table).has_free(),
            match r {
                Some(ppn) => {
                    &&& old(table).free().contains(ppn as int)
                    &&& final(self).mapped(vpn)
                    &&& final(self).frame(vpn) == ppn
                    &&& final(self).bytes(vpn) == filled_page(offset as int, data@)
                    &&& final(self).pages() == old(self).pages().insert(
                        vpn,
                        final(self).pages()[vpn],
                    )
                    &&& final(table).reserved() == if old(self).mapped(vpn) {
                        old(table).reserved().insert(ppn as int).remove(
                            old(self).frame(vpn) as int,
                        )
                    } else {
                        old(table).reserved().insert(ppn as int)
                    }
                },
                None => {
                    &&& final(self).pages() == old(self).pages()
                    &&& final(table).outstanding() == old(table).outstanding()
                    &&& final(table).free() == old(table).free()
                },
            },
            final(table).reserved().difference(final(self).frames()) ==
                old(table).reserved().difference(old(self).frames()),
    {
        let mut page = match alloc_page(table) {
            Some(page) => page,
            None => {
                return None;
            },
        };
        page.write(offset, data);
        let ppn = page.ppn();
        proof {
            assert(page@ =~= filled_page(offset as int, data@));
            old(table).lemma_free_is_managed_less_reserved();
        }
        let ghost mid_reserved = table.reserved();
        let replaced = put_page(&mut self.pages, vpn, page);
        self.vpns.push(vpn);
        proof {
            assert(self.vpns@[self.vpns@.len() - 1] == vpn);
            assert forall|v: u64| #[trigger] self.mapped(v) implies self.known().contains(v) by {
                if v != vpn {
                    assert(old(self).mapped(v));
                    let k = choose|k: int|
                        0 <= k < old(self).vpns@.len() && old(self).vpns@[k] == v;
                    assert(self.vpns@[k] == v);
                }
            }
        }
        match replaced {
            Some(old_page) => {
                proof {
                    assert(old(self).mapped(vpn));
                    assert(old_page.frame() == old(self).frame(vpn));
                    assert(mid_reserved.contains(old_page.frame() as int));
                }
                let released = old_page.release(table);
                assert(released is Ok);
            },
            None => {},
        }
        proof {
            assert forall|v: u64| self.mapped(v) implies table.reserved().contains(
                #[trigger] self.frame(v) as int,
            ) by {
                if v != vpn {
                    assert(old(self).mapped(v));
                    assert(old(self).frame(v) == self.frame(v));
                }
            }
            assert forall|a: u64, b: u64|
                self.mapped(a) && self.mapped(b) && a != b implies #[trigger] self.frame(a)
                != #[trigger] self.frame(b) by {
                if a != vpn {
                    assert(old(self).mapped(a));
                    assert(old(self).frame(a) == self.frame(a));
                }
                if b != vpn {
                    assert(old(self).mapped(b));
                    assert(old(self).frame(b) == self.frame(b));
                }
            }
            assert(self.pages() =~= old(self).pages().insert(vpn, self.pages()[vpn]));
            assert(table.reserved().difference(self.frames()) =~=
                old(table).reserved().difference(old(self).frames())) by {
                assert(!old(table).reserved().contains(ppn as int));
                assert(self.frame(vpn) == ppn);
                assert forall|f: int|
                    table.reserved().difference(self.frames()).contains(f) <==>
                        old(table).reserved().difference(old(self).frames()).contains(f) by {
                    if f == ppn {
                        assert(self.mapped(vpn) && self.frame(vpn) == f);
                    } else if old(self).mapped(vpn) && f == old(self).frame(vpn) {
                        assert(old(self).frames().contains(f));
                    } else {
                        if self.frames().contains(f) {
                            let v = choose|v: u64| self.mapped(v) && #[trigger] self.frame(v) == f;
                            assert(v != vpn);
                            assert(old(self).mapped(v) && old(self).frame(v) == f);
                        }
                        if old(self).frames().contains(f) {
                            let v = choose|v: u64|
                                old(self).mapped(v) && #[trigger] old(self).frame(v) == f;
                            assert(v != vpn);
                            assert(self.mapped(v) && self.frame(v) == f);
                        }
                    }
                }
            }
        }
        Some(ppn)
    }

    /// Map a page to the specified virtual page: a fresh, zero-filled
    /// frame of `table`, whose number is returned. A page that was mapped
    /// there before is replaced and its frame given back. A frame is had
    /// exactly when one is free, also where a page is replaced; when none
    /// is had, nothing changes.
    pub fn map_page(&mut self, table: &mut FrameTable, vpn: u64) -> (r: Option<usize>)
        requires
            old(self).wf(),
            old(table).wf(),
            old(self).backed_by(old(table)),
        ensures
            final(self).wf(),
            final(table).wf(),
            final(self).backed_by(final(table)),
            final(table).regions() == old(table).regions(),
            r is Some <==> old(table).has_free(),
            match r {
                Some(ppn) => {
                    &&& old(table).free().contains(ppn as int)
                    &&& final(self).mapped(vpn)
                    &&& final(self).frame(vpn) == ppn
                    &&& final(self).bytes(vpn).len() == PAGE_SIZE
                    &&& all_zero(final(self).bytes(vpn))
                    &&& final(self).pages() == old(self).pages().insert(
                        vpn,
                        final(self).pages()[vpn],
                    )
                    &&& final(table).reserved() == if old(self).mapped(vpn) {
                        old(table).reserved().insert(ppn as int).remove(
                            old(self).frame(vpn) as int,
                        )
                    } else {
                        old(table).reserved().insert(ppn as int)
                    }
                },
                None => {
                    &&& final(self).pages() == old(self).pages()
                    &&& final(table).outstanding() == old(table).outstanding()
                    &&& final(table).free() == old(table).free()
                },
            },
            final(table).reserved().difference(final(self).frames()) ==
                old(table).reserved().difference(old(self).frames()),
    {
        let empty: Vec<u8> = Vec::new();
        self.map_filled(table, vpn, 0, empty.as_slice())
    }

    /// Unmaps every page and gives its frame back to `table`: nothing
    /// is mapped afterwards, and of the table's frames exactly those that
    /// backed the pages are outstanding no more.
    pub fn release_all(&mut self, table: &mut FrameTable)
        requires
            old(self).wf(),
            old(table).wf(),
            old(self).backed_by(old(table)),
        ensures
            final(self).wf(),
            final(table).wf(),
            final(self).backed_by(final(table)),
            final(self).pages() == Map::<u64, FrameTracker>::empty(),
            final(table).regions() == old(table).regions(),
            final(table).reserved() == old(table).reserved().difference(old(self).frames()),
    {
        while self.vpns.len() > 0
            invariant
                self.wf(),
                table.wf(),
                self.backed_by(table),
                table.regions() == old(table).regions(),
                table.reserved().difference(self.frames()) == old(table).reserved().difference(
                    old(self).frames(),
                ),
            decreases self.vpns@.len(),
        {
            let ghost before = *self;
            let ghost before_table = *table;
            let vpn = match self.vpns.pop() {
                Some(vpn) => vpn,
                None => 0,
            };
            match take_page(&mut self.pages, vpn) {
                Some(page) => {
                    proof {
                        assert(before.mapped(vpn));
                        assert(page.frame() == before.frame(vpn));
                    }
                    let released = page.release(table);
                    proof {
                        assert(released is Ok);
                        let f = page.frame() as int;
                        assert forall|v: u64| self.mapped(v) implies table.reserved().contains(
                            #[trigger] self.frame(v) as int,
                        ) by {
                            assert(before.mapped(v) && v != vpn);
                            assert(before.frame(v) == self.frame(v));
                        }
                        assert forall|a: u64, b: u64|
                            self.mapped(a) && self.mapped(b) && a != b implies
                                #[trigger] self.frame(
                            a,
                        ) != #[trigger] self.frame(b) by {
                            assert(before.mapped(a) && before.mapped(b));
                            assert(before.frame(a) == self.frame(a));
                            assert(before.frame(b) == self.frame(b));
                        }
                        assert(table.reserved().difference(self.frames())
                            =~= before_table.reserved().difference(before.frames())) by {
                            assert forall|g: int|
                                table.reserved().difference(self.frames()).contains(g)
                                    <==> before_table.reserved().difference(
                                    before.frames(),
                                ).contains(g) by {
                                if g == f {
                                    assert(before.mapped(vpn) && before.frame(vpn) == g);
                                } else {
                                    if self.frames().contains(g) {
                                        let v = choose|v: u64|
                                            self.mapped(v) && #[trigger] self.frame(v) == g;
                                        assert(before.mapped(v) && before.frame(v) == g);
                                    }
                                    if before.frames().contains(g) {
                                        let v = choose|v: u64|
                                            before.mapped(v) && #[trigger] before.frame(v) == g;
                                        assert(v != vpn);
                                        assert(self.mapped(v) && self.frame(v) == g);
                                    }
                                }
                            }
                        }
                    }
                },
                None => {
                    proof {
                        assert(self.pages() =~= before.pages());
                        assert forall|v: u64| self.mapped(v) == before.mapped(v) by {}
                        assert forall|v: u64| self.mapped(v) implies self.frame(v) == before.frame(
                            v,
                        ) by {}
                        assert forall|v: u64| self.mapped(v) implies table.reserved().contains(
                            #[trigger] self.frame(v) as int,
                        ) by {
                            assert(before.mapped(v));
                            assert(before_table.reserved().contains(before.frame(v) as int));
                        }
                        assert forall|a: u64, b: u64|
                            self.mapped(a) && self.mapped(b) && a != b implies
                                #[trigger] self.frame(
                            a,
                        ) != #[trigger] self.frame(b) by {
                            assert(before.mapped(a) && before.mapped(b));
                            assert(before.frame(a) != before.frame(b));
                        }
                        assert(self.frames() =~= before.frames()) by {
                            assert forall|g: int| self.frames().contains(g)
                                <==> before.frames().contains(g) by {
                                if self.frames().contains(g) {
                                    let v = choose|v: u64|
                                        self.mapped(v) && #[trigger] self.frame(v) == g;
                                    assert(before.mapped(v) && before.frame(v) == g);
                                }
                                if before.frames().contains(g) {
                                    let v = choose|v: u64|
                                        before.mapped(v) && #[trigger] before.frame(v) == g;
                                    assert(self.mapped(v) && self.frame(v) == g);
                                }
                            }
                        }
                    }
                },
            }
            proof {
                assert forall|v: u64| #[trigger] self.mapped(v) implies self.known().contains(
                    v,
                ) by {
                    assert(before.mapped(v) && v != vpn);
                    let k = choose|k: int| 0 <= k < before.vpns@.len() && before.vpns@[k] == v;
                    assert(k < self.vpns@.len());
                    assert(self.vpns@[k] == v);
                }
            }
        }
        proof {
            assert(self.known().len() == 0);
            assert forall|v: u64| !(#[trigger] self.pages().contains_key(v)) by {
                if self.mapped(v) {
                    assert(self.known().contains(v));
                    let k = choose|k: int| 0 <= k < self.known().len() && self.known()[k] == v;
                    assert(false);
                }
            }
            assert(self.pages() =~= Map::<u64, FrameTracker>::empty());
            assert(self.frames() =~= Set::<int>::empty());
            assert(table.reserved().difference(self.frames()) =~= table.reserved());
        }
    }

    /// The virtual page numbers that the set keeps track of. Every
    /// mapped page is among them; a number may occur more than once, and
    /// its page may have been replaced since.
    pub fn known_vpns(&self) -> (vpns: Vec<u64>)
        ensures
            vpns@ == self.known(),
    {
        self.vpns.clone()
    }

    /// Get the physical page for the given virtual page, if it is mapped.
    pub fn vpn_to_ppn(&self, vpn: u64) -> (r: Option<usize>)
        ensures
            r == (if self.mapped(vpn) {
                Some(self.frame(vpn))
            } else {
                None
            }),
    {
        match get_page(&self.pages, vpn) {
            Some(page) => Some(page.ppn()),
            None => None,
        }
    }

    /// Get the physical address for the given virtual address: the start
    /// of the frame that its page is mapped to, plus its offset in the
    /// page. Nothing where the page is not mapped or the address does not
    /// fit in `usize`.
    pub fn vaddr_to_paddr(&self, vaddr: u64) -> (r: Option<usize>)
        ensures
            r == (if self.mapped(vaddr / 4096) && self.frame(vaddr / 4096) * PAGE_SIZE + vaddr
                % 4096 <= usize::MAX {
                Some((self.frame(vaddr / 4096) * PAGE_SIZE + vaddr % 4096) as usize)
            } else {
                None
            }),
    {
        match self.vpn_to_ppn(vaddr / 4096) {
            Some(ppn) => match ppn.checked_mul(PAGE_SIZE) {
                Some(base) => base.checked_add((vaddr % 4096) as usize),
                None => None,
            },
            None => None,
        }
    }

    /// The bytes of the virtual page `vpn`, if it is mapped.
    pub fn page_bytes(&self, vpn: u64) -> (r: Option<&[u8]>)
        ensures
            match r {
                Some(bytes) => self.mapped(vpn) && bytes@ == self.bytes(vpn),
                None => !self.mapped(vpn),
            },
    {
        match get_page(&self.pages, vpn) {
            Some(page) => Some(page.get_buffer()),
            None => None,
        }
    }
}

} // verus!
