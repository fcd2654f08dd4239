//! The content of a file: its pages, the bytes they hold one after the
//! other, and how the bytes are read, written, cut and grown.

use vstd::prelude::*;

use crate::config::PAGE_SIZE;
use crate::fs::base::{FSPage, FSTrait, TimeSpec};
use crate::fs::ramfs::model::NodeModel;
use crate::fs::ramfs::{FileContainer, RamFileInner};
use crate::mem::frames::all_zero;
use crate::utils::{overlay, zeros};

verus! {

/// The bytes of `pages`, one page after the other.
pub open spec fn pages_storage(pages: Seq<FSPage>) -> Seq<u8> {
    Seq::new(
        pages.len() * PAGE_SIZE as nat,
        |i: int| pages[i / (PAGE_SIZE as int)]@[i % (PAGE_SIZE as int)],
    )
}

/// The addresses of `pages`, in their order.
pub open spec fn page_addrs(pages: Seq<FSPage>) -> Seq<usize> {
    Seq::new(pages.len(), |k: int| pages[k].addr_spec())
}

/// Whether each of `pages` is a single page.
pub open spec fn single_pages(pages: Seq<FSPage>) -> bool {
    forall|k: int| 0 <= k < pages.len() ==> (#[trigger] pages[k]).page_count_spec() == 1
}

/// Laying bytes over one page lays them over the storage at the page's
/// place.
pub proof fn lemma_storage_overlay(
    pages: Seq<FSPage>,
    changed: Seq<FSPage>,
    index: int,
    offset: int,
    data: Seq<u8>,
)
    requires
        0 <= index < pages.len(),
        changed.len() == pages.len(),
        forall|k: int| 0 <= k < pages.len() ==> (#[trigger] pages[k]).wf(),
        forall|k: int| 0 <= k < pages.len() && k != index ==> changed[k]@ == pages[k]@,
        0 <= offset,
        offset + data.len() <= PAGE_SIZE,
        changed[index]@ == overlay(pages[index]@, offset, data),
    ensures
        pages_storage(changed) == overlay(
            pages_storage(pages),
            index * PAGE_SIZE + offset,
            data,
        ),
{
    let target = overlay(pages_storage(pages), index * PAGE_SIZE + offset, data);
    let source = pages_storage(changed);
    assert forall|i: int| 0 <= i < pages.len() * PAGE_SIZE implies #[trigger] source[i]
        == target[i] by {
        let p = i / (PAGE_SIZE as int);
        let r = i % (PAGE_SIZE as int);
        assert(i == p * PAGE_SIZE + r);
        assert(0 <= p < pages.len());
        if p != index {
            assert(changed[p]@ == pages[p]@);
        }
    }
    assert(pages_storage(changed) =~= target);
}

/// The bytes of a range that lies within one page are bytes of the page.
pub proof fn lemma_storage_page(pages: Seq<FSPage>, index: int, offset: int, count: int)
    requires
        0 <= index < pages.len(),
        forall|k: int| 0 <= k < pages.len() ==> (#[trigger] pages[k]).wf(),
        0 <= offset,
        0 <= count,
        offset + count <= PAGE_SIZE,
    ensures
        pages_storage(pages).subrange(
            index * PAGE_SIZE + offset,
            index * PAGE_SIZE + offset + count,
        ) == pages[index]@.subrange(offset, offset + count),
{
    let whole = pages_storage(pages);
    let from = index * PAGE_SIZE + offset;
    assert(from + count <= pages.len() * PAGE_SIZE) by (nonlinear_arith)
        requires
            index < pages.len(),
            from == index * PAGE_SIZE + offset,
            offset + count <= PAGE_SIZE,
    ;
    let left = whole.subrange(from, from + count);
    let right = pages[index]@.subrange(offset, offset + count);
    assert forall|j: int| 0 <= j < count implies #[trigger] left[j] == right[j] by {
        let i = from + j;
        assert(i / (PAGE_SIZE as int) == index);
        assert(i % (PAGE_SIZE as int) == offset + j);
    }
    assert(whole.subrange(from, from + count) =~= pages[index]@.subrange(offset, offset + count));
}

/// Zero pages behind the pages add zero bytes behind the storage.
pub proof fn lemma_storage_grow(pages: Seq<FSPage>, fresh: Seq<FSPage>)
    requires
        forall|k: int| 0 <= k < fresh.len() ==> (#[trigger] fresh[k]).wf() && all_zero(fresh[k]@),
    ensures
        pages_storage(pages + fresh) == pages_storage(pages) + zeros(
            (fresh.len() * PAGE_SIZE) as nat,
        ),
{
    let all = pages + fresh;
    let target = pages_storage(pages) + zeros((fresh.len() * PAGE_SIZE) as nat);
    assert(all.len() * PAGE_SIZE == pages.len() * PAGE_SIZE + fresh.len() * PAGE_SIZE)
        by (nonlinear_arith)
        requires
            all.len() == pages.len() + fresh.len(),
    ;
    let source = pages_storage(all);
    assert forall|i: int| 0 <= i < all.len() * PAGE_SIZE implies #[trigger] source[i]
        == target[i] by {
        let p = i / (PAGE_SIZE as int);
        let r = i % (PAGE_SIZE as int);
        assert(i == p * PAGE_SIZE + r);
        if p >= pages.len() {
            assert(all[p] == fresh[p - pages.len()]);
            assert(fresh[p - pages.len()].wf());
        } else {
            assert(all[p] == pages[p]);
        }
    }
    assert(pages_storage(all) =~= target);
}

/// The first pages hold the first bytes of the storage.
pub proof fn lemma_storage_take(pages: Seq<FSPage>, count: int)
    requires
        0 <= count <= pages.len(),
    ensures
        pages_storage(pages.take(count)) == pages_storage(pages).subrange(0, count * PAGE_SIZE),
{
    assert(count * PAGE_SIZE <= pages.len() * PAGE_SIZE) by (nonlinear_arith)
        requires
            0 <= count <= pages.len(),
    ;
    let source = pages_storage(pages.take(count));
    let target = pages_storage(pages).subrange(0, count * PAGE_SIZE);
    assert forall|i: int| 0 <= i < count * PAGE_SIZE implies #[trigger] source[i]
        == target[i] by {
        let p = i / (PAGE_SIZE as int);
        assert(0 <= p < count);
    }
    assert(pages_storage(pages.take(count)) =~= pages_storage(pages).subrange(
        0,
        count * PAGE_SIZE,
    ));
}

impl RamFileInner {
    /// The bytes of the file's pages, one page after the other.
    pub(super) open spec fn storage(&self) -> Seq<u8> {
        pages_storage(self.pages@)
    }

    /// The addresses of the file's pages, in their order.
    pub(super) open spec fn addrs(&self) -> Seq<usize> {
        page_addrs(self.pages@)
    }

    /// Whether the file's pages are whole, each a page of its own, cover
    /// the file's length, and can be counted in bytes.
    pub(super) open spec fn wf(&self) -> bool {
        &&& forall|k: int| 0 <= k < self.pages@.len() ==> (#[trigger] self.pages@[k]).wf()
        &&& single_pages(self.pages@)
        &&& self.len <= self.pages@.len() * PAGE_SIZE
        &&& self.pages@.len() * PAGE_SIZE <= usize::MAX
    }

    /// Copies the `count` bytes of the storage from `offset` on to the
    /// start of `buffer`, page by page.
    pub(super) fn read_into(&self, offset: usize, buffer: &mut [u8], count: usize)
        requires
            self.wf(),
            offset + count <= self.storage().len(),
            count <= old(buffer)@.len(),
        ensures
            final(buffer)@ == overlay(
                old(buffer)@,
                0,
                self.storage().subrange(offset as int, offset + count),
            ),
    {
        let mut at: usize = offset;
        let mut done: usize = 0;
        let mut left: usize = count;
        proof {
            assert(buffer@ =~= overlay(
                old(buffer)@,
                0,
                self.storage().subrange(offset as int, offset as int),
            ));
        }
        loop
            invariant
                self.wf(),
                offset + count <= self.storage().len(),
                count <= old(buffer)@.len(),
                buffer@.len() == old(buffer)@.len(),
                done + left == count,
                at == offset + done,
                buffer@ == overlay(
                    old(buffer)@,
                    0,
                    self.storage().subrange(offset as int, offset + done),
                ),
            ensures
                done == count,
                buffer@ == overlay(
                    old(buffer)@,
                    0,
                    self.storage().subrange(offset as int, offset + done),
                ),
            decreases left,
        {
            let page_offset = at % PAGE_SIZE;
            let curr_size = if PAGE_SIZE - page_offset < left {
                PAGE_SIZE - page_offset
            } else {
                left
            };
            if curr_size == 0 {
                break ;
            }
            let index = at / PAGE_SIZE;
            let ghost before = buffer@;
            proof {
                assert(index < self.pages@.len()) by {
                    assert(at < self.pages@.len() * PAGE_SIZE);
                }
                lemma_storage_page(
                    self.pages@,
                    index as int,
                    page_offset as int,
                    curr_size as int,
                );
                assert(index * PAGE_SIZE + page_offset == at);
            }
            self.pages[index].read(page_offset, buffer, done, curr_size);
            proof {
                let chunk = self.storage().subrange(at as int, at + curr_size);
                assert(buffer@ == overlay(before, done as int, chunk));
                assert(buffer@ =~= overlay(
                    old(buffer)@,
                    0,
                    self.storage().subrange(offset as int, offset + done + curr_size),
                ));
            }
            at = at + curr_size;
            left = left - curr_size;
            done = done + curr_size;
        }
    }

    /// Lays `buffer` over the storage from `offset` on, page by page.
    pub(super) fn write_from(&mut self, offset: usize, buffer: &[u8])
        requires
            old(self).wf(),
            offset + buffer@.len() <= old(self).storage().len(),
        ensures
            final(self).wf(),
            final(self).name == old(self).name,
            final(self).len == old(self).len,
            final(self).times == old(self).times,
            final(self).pages@.len() == old(self).pages@.len(),
            final(self).addrs() == old(self).addrs(),
            final(self).storage() == overlay(old(self).storage(), offset as int, buffer@),
    {
        let count = buffer.len();
        let mut at: usize = offset;
        let mut done: usize = 0;
        let mut left: usize = count;
        proof {
            assert(self.storage() =~= overlay(
                old(self).storage(),
                offset as int,
                buffer@.subrange(0, 0),
            ));
        }
        loop
            invariant
                self.wf(),
                self.name == old(self).name,
                self.len == old(self).len,
                self.times == old(self).times,
                self.pages@.len() == old(self).pages@.len(),
                self.addrs() == old(self).addrs(),
                count == buffer@.len(),
                offset + count <= self.storage().len(),
                self.storage().len() == old(self).storage().len(),
                done + left == count,
                at == offset + done,
                self.storage() == overlay(
                    old(self).storage(),
                    offset as int,
                    buffer@.subrange(0, done as int),
                ),
            ensures
                done == count,
                self.wf(),
                self.name == old(self).name,
                self.len == old(self).len,
                self.times == old(self).times,
                self.pages@.len() == old(self).pages@.len(),
                self.addrs() == old(self).addrs(),
                self.storage() == overlay(
                    old(self).storage(),
                    offset as int,
                    buffer@.subrange(0, done as int),
                ),
            decreases left,
        {
            let page_offset = at % PAGE_SIZE;
            let curr_size = if PAGE_SIZE - page_offset < left {
                PAGE_SIZE - page_offset
            } else {
                left
            };
            if curr_size == 0 {
                break ;
            }
            let index = at / PAGE_SIZE;
            let ghost before = self.pages@;
            proof {
                assert(index < self.pages@.len()) by {
                    assert(at < self.pages@.len() * PAGE_SIZE);
                }
                assert(index * PAGE_SIZE + page_offset == at);
            }
            self.pages[index].write(page_offset, buffer, done, curr_size);
            proof {
                let chunk = buffer@.subrange(done as int, done + curr_size);
                lemma_storage_overlay(before, self.pages@, index as int, page_offset as int, chunk);
                assert(self.addrs() =~= page_addrs(before));
                assert(self.storage() =~= overlay(
                    old(self).storage(),
                    offset as int,
                    buffer@.subrange(0, done + curr_size),
                ));
            }
            at = at + curr_size;
            left = left - curr_size;
            done = done + curr_size;
        }
        proof {
            assert(buffer@.subrange(0, done as int) =~= buffer@);
        }
    }
}

impl RamFileInner {
    /// A file without content.
    pub(super) fn empty(name: &str) -> (file: RamFileInner)
        ensures
            file.wf(),
            FileContainer::File(file)@ == NodeModel::empty_file(name@),
    {
        let file = RamFileInner {
            name: name.to_owned(),
            len: 0,
            pages: Vec::new(),
            times: [TimeSpec::zero(), TimeSpec::zero(), TimeSpec::zero()],
        };
        proof {
            assert(file.storage() =~= Seq::<u8>::empty());
            assert(file.times@ =~= seq![
                TimeSpec { sec: 0, nsec: 0 },
                TimeSpec { sec: 0, nsec: 0 },
                TimeSpec { sec: 0, nsec: 0 },
            ]);
        }
        file
    }

    /// Adds the zero pages `fresh` behind the file's pages.
    pub(super) fn extend(&mut self, fresh: Vec<FSPage>)
        requires
            old(self).wf(),
            forall|k: int|
                0 <= k < fresh@.len() ==> (#[trigger] fresh@[k]).wf() && all_zero(fresh@[k]@),
            single_pages(fresh@),
            (old(self).pages@.len() + fresh@.len()) * PAGE_SIZE <= usize::MAX,
        ensures
            final(self).wf(),
            final(self).name == old(self).name,
            final(self).len == old(self).len,
            final(self).times == old(self).times,
            final(self).pages@.len() == old(self).pages@.len() + fresh@.len(),
            final(self).addrs() == old(self).addrs() + page_addrs(fresh@),
            final(self).storage() == old(self).storage() + zeros(
                (fresh@.len() * PAGE_SIZE) as nat,
            ),
    {
        let mut fresh = fresh;
        proof {
            lemma_storage_grow(self.pages@, fresh@);
            assert(self.pages@.len() * PAGE_SIZE <= (self.pages@.len() + fresh@.len())
                * PAGE_SIZE) by (nonlinear_arith);
        }
        let ghost added = fresh@;
        self.pages.append(&mut fresh);
        proof {
            assert(self.addrs() =~= old(self).addrs() + page_addrs(added));
        }
    }

    /// Drops the file's pages beyond the first `target` and hands them
    /// out. The length is cut down to what the pages left can hold.
    pub(super) fn cut(&mut self, target: usize) -> (dropped: Vec<FSPage>)
        requires
            old(self).wf(),
            target <= old(self).pages@.len(),
        ensures
            final(self).wf(),
            final(self).name == old(self).name,
            final(self).times == old(self).times,
            final(self).len == (if old(self).len <= target * PAGE_SIZE {
                old(self).len
            } else {
                (target * PAGE_SIZE) as usize
            }),
            final(self).pages@.len() == target,
            final(self).storage() == old(self).storage().subrange(0, target * PAGE_SIZE),
            final(self).addrs() == old(self).addrs().take(target as int),
            page_addrs(dropped@) == old(self).addrs().skip(target as int),
            single_pages(dropped@),
    {
        proof {
            lemma_storage_take(self.pages@, target as int);
            assert(target * PAGE_SIZE <= self.pages@.len() * PAGE_SIZE) by (nonlinear_arith)
                requires
                    target <= self.pages@.len(),
            ;
        }
        let dropped = self.pages.split_off(target);
        if self.len > target * PAGE_SIZE {
            self.len = target * PAGE_SIZE;
        }
        proof {
            assert(self.pages@ =~= old(self).pages@.take(target as int));
            assert(self.addrs() =~= old(self).addrs().take(target as int));
            assert(page_addrs(dropped@) =~= old(self).addrs().skip(target as int));
        }
        dropped
    }

    /// Fills the file's last page with zeros from the byte at `size` on,
    /// where `size` lies in that page.
    pub(super) fn zero_tail(&mut self, size: usize)
        requires
            old(self).wf(),
            old(self).pages@.len() >= 1,
            (old(self).pages@.len() - 1) * PAGE_SIZE <= size <= old(self).pages@.len() * PAGE_SIZE,
        ensures
            final(self).wf(),
            final(self).name == old(self).name,
            final(self).len == old(self).len,
            final(self).times == old(self).times,
            final(self).pages@.len() == old(self).pages@.len(),
            final(self).addrs() == old(self).addrs(),
            final(self).storage() == old(self).storage().subrange(0, size as int) + zeros(
                (old(self).pages@.len() * PAGE_SIZE - size) as nat,
            ),
    {
        let last = self.pages.len() - 1;
        let offset = size - last * PAGE_SIZE;
        let ghost before = self.pages@;
        self.pages[last].zero_from(offset);
        proof {
            let filler = zeros((PAGE_SIZE - offset) as nat);
            assert(self.pages@[last as int]@ =~= overlay(before[last as int]@, offset as int,
                filler));
            lemma_storage_overlay(before, self.pages@, last as int, offset as int, filler);
            assert(self.addrs() =~= page_addrs(before));
            assert(self.storage() =~= old(self).storage().subrange(0, size as int) + zeros(
                (old(self).pages@.len() * PAGE_SIZE - size) as nat,
            ));
        }
    }
}

/// Gets `count` zero pages from `pager`, one by one, all or none: where
/// one cannot be had, those that were got are given back. Whether a page
/// can be had lies with `pager`: where none is asked for, none is needed;
/// where `pager` serves no page, none is had; and one page is had exactly
/// when `pager` serves one. The pages that are handed over are single
/// pages that `pager` had not handed out before and has handed out now,
/// and what it had handed out stays so.
pub(super) fn fresh_pages<F: FSTrait>(pager: &mut F, count: usize) -> (r: Option<Vec<FSPage>>)
    requires
        old(pager).wf(),
    ensures
        final(pager).wf(),
        count == 0 ==> r is Some,
        count >= 1 && !old(pager).serves_page() ==> r is None,
        count == 1 && old(pager).serves_page() ==> r is Some,
        r matches Some(pages) ==> {
            &&& pages@.len() == count
            &&& single_pages(pages@)
            &&& forall|k: int|
                0 <= k < count ==> (#[trigger] pages@[k]).wf() && all_zero(pages@[k]@)
            &&& forall|k: int|
                0 <= k < count ==> final(pager).lent(#[trigger] pages@[k].addr_spec())
                    && !old(pager).lent(pages@[k].addr_spec())
            &&& forall|addr: usize| old(pager).lent(addr) ==> #[trigger] final(pager).lent(addr)
        },
{
    let mut pages: Vec<FSPage> = Vec::new();
    while pages.len() < count
        invariant
            pager.wf(),
            pages@.len() <= count,
            single_pages(pages@),
            forall|k: int|
                0 <= k < pages@.len() ==> (#[trigger] pages@[k]).wf() && all_zero(pages@[k]@),
            forall|k: int|
                0 <= k < pages@.len() ==> pager.lent(#[trigger] pages@[k].addr_spec())
                    && !old(pager).lent(pages@[k].addr_spec()),
            forall|addr: usize| old(pager).lent(addr) ==> #[trigger] pager.lent(addr),
            pages@.len() == 0 ==> pager.serves_page() == old(pager).serves_page(),
            pages@.len() >= 1 ==> old(pager).serves_page(),
        decreases count - pages@.len(),
    {
        let ghost got = pages@;
        match pager.alloc_page(1) {
            Some(page) => {
                pages.push(page);
                proof {
                    assert forall|k: int| 0 <= k < pages@.len() implies pager.lent(
                        #[trigger] pages@[k].addr_spec(),
                    ) && !old(pager).lent(pages@[k].addr_spec()) by {
                        if k < got.len() {
                            assert(pages@[k] == got[k]);
                        }
                    }
                }
            },
            None => {
                give_back(pager, pages);
                return None;
            },
        }
    }
    Some(pages)
}

/// Gives `pages` back to `pager`, each by its address and the number of
/// its pages: afterwards `pager` has none of the single pages among them
/// handed out, and nothing more than before.
pub(super) fn give_back<F: FSTrait>(pager: &mut F, pages: Vec<FSPage>)
    requires
        old(pager).wf(),
    ensures
        final(pager).wf(),
        forall|k: int|
            0 <= k < pages@.len() && pages@[k].page_count_spec() == 1 ==> !final(pager).lent(
                #[trigger] pages@[k].addr_spec(),
            ),
        forall|addr: usize| #[trigger] final(pager).lent(addr) ==> old(pager).lent(addr),
{
    let ghost all = pages@;
    let mut pages = pages;
    while pages.len() > 0
        invariant
            pager.wf(),
            pages@.len() <= all.len(),
            pages@ == all.take(pages@.len() as int),
            forall|k: int|
                pages@.len() <= k < all.len() && all[k].page_count_spec() == 1 ==> !pager.lent(
                    #[trigger] all[k].addr_spec(),
                ),
            forall|addr: usize| #[trigger] pager.lent(addr) ==> old(pager).lent(addr),
        decreases pages@.len(),
    {
        let ghost left = pages@;
        match pages.pop() {
            Some(page) => {
                assert(page == all[left.len() - 1]);
                pager.dealloc_page(page.addr(), page.page_count());
                assert(pages@ =~= all.take(pages@.len() as int));
            },
            None => {},
        }
    }
}

} // verus!
