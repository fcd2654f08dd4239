//! Physical frame allocator.
//!
//! A [`FrameTable`] owns the set of free physical page numbers. It hands
//! contiguous runs of frames out and takes them back, and it keeps a record
//! of every run that is outstanding, so that a release of frames that were
//! never handed out, or were already released, is refused instead of
//! corrupting the free set.
//!
//! The free set itself is kept by a buddy system, which works in blocks of
//! a power of two: a request for `n` frames reserves the smallest power of
//! two that is at least `n`.

use buddy_system_allocator::FrameAllocator;
use vstd::arithmetic::power2::pow2;
use vstd::prelude::*;
use vstd::set::axiom_set_contains_len;
use vstd::set_lib::lemma_set_subset_finite;

use crate::config::PAGE_SIZE;
pub use crate::mem::runs::{
    all_valid, block_at, block_frames, block_frames_for, carve, frames_of,
    lemma_block_frames_bounds, lemma_block_of_one, lemma_carve, lemma_frames_of_finite,
    lemma_frames_of_push, lemma_release_undoes_grant, lemma_total_frames_at,
    pairwise_disjoint, total_frames, FrameRange, MAX_BLOCK_FRAMES,
};

verus! {

/// The frame allocator of the `buddy_system_allocator` crate. It is
/// carried as it is; what it holds is spoken of through [`buddy_free`],
/// [`buddy_lists`], [`buddy_handed_out`] and [`buddy_given`].
#[verifier::external_type_specification]
#[verifier::external_body]
pub struct ExFrameAllocator<const ORDER: usize>(FrameAllocator<ORDER>);

/// The frames that the buddy system holds as free: the frames of the
/// blocks in its free lists.
pub uninterp spec fn buddy_free(a: FrameAllocator<32>) -> Set<int>;

/// The free lists of the buddy system: at index `i`, for `i` below 32,
/// the first frames of its free blocks of `2^i` frames.
pub uninterp spec fn buddy_lists(a: FrameAllocator<32>) -> Seq<Set<usize>>;

/// The number of frames that the buddy system counts as handed out: its
/// statistic of the sizes of the blocks handed out and not given back.
pub uninterp spec fn buddy_handed_out(a: FrameAllocator<32>) -> nat;

/// The number of frames that the buddy system counts as its own: its
/// statistic of the sizes of the ranges it was given.
pub uninterp spec fn buddy_given(a: FrameAllocator<32>) -> nat;

/// Whether the set holds a frame.
pub open spec fn holds_a_frame(frames: Set<int>) -> bool {
    exists|f: int| frames.contains(f)
}

/// Whether the free list `i` of `lists` can serve a block of `frames`
/// frames: its blocks are large enough, and it holds one.
pub open spec fn list_serves(lists: Seq<Set<usize>>, i: int, frames: nat) -> bool {
    0 <= i < 32 && pow2(i as nat) >= frames && exists|start: usize| lists[i].contains(start)
}

/// The first free list of `lists`, from the list `from` on, that can
/// serve a block of `frames` frames; 32 where none can.
pub open spec fn serving_list(lists: Seq<Set<usize>>, from: int, frames: nat) -> int
    decreases 32 - from,
{
    if from >= 32 {
        32
    } else if list_serves(lists, from, frames) {
        from
    } else {
        serving_list(lists, from + 1, frames)
    }
}

/// The lowest of `starts`.
pub open spec fn lowest(starts: Set<usize>) -> usize {
    choose|low: usize|
        starts.contains(low) && forall|start: usize| starts.contains(start) ==> low <= start
}

/// The first frame of the block that a buddy system with the free lists
/// `lists` serves a request for `count` frames with: the lowest block of
/// the first list whose blocks are large enough and that holds one.
/// Nothing where no list does.
pub open spec fn buddy_pick(lists: Seq<Set<usize>>, count: usize) -> Option<usize> {
    let i = serving_list(lists, 0, block_frames(count as nat));
    if i < 32 {
        Some(lowest(lists[i]))
    } else {
        None
    }
}

/// `FrameAllocator::new`: a buddy system that holds no frame and has
/// handed none out.
#[verifier::external_body]
fn buddy_new() -> (a: FrameAllocator<32>)
    ensures
        buddy_free(a) == Set::<int>::empty(),
        buddy_handed_out(a) == 0,
        buddy_given(a) == 0,
{
    FrameAllocator::new()
}

/// `FrameAllocator::add_frame`: gives the frames `[start, end)` to the
/// buddy system. They must not be free already, and the count of frames
/// given, to which the call adds, must stay within `usize`. Afterwards
/// they are free as well; nothing else changes.
#[verifier::external_body]
fn buddy_add(a: &mut FrameAllocator<32>, start: usize, end: usize)
    requires
        start <= end,
        buddy_given(*old(a)) + (end - start) <= usize::MAX,
        forall|f: int| start <= f < end ==> !buddy_free(*old(a)).contains(f),
    ensures
        buddy_free(*final(a)) == buddy_free(*old(a)).union(
            Set::new(|f: int| start <= f < end),
        ),
        buddy_handed_out(*final(a)) == buddy_handed_out(*old(a)),
        buddy_given(*final(a)) == buddy_given(*old(a)) + (end - start),
{
    a.add_frame(start, end)
}

/// `FrameAllocator::alloc`: asks the buddy system for a block of
/// `block_frames(count)` frames. It goes through its free lists from the
/// one whose blocks have that size upwards, takes the lowest block of
/// the first list that holds one, and splits it down to the size asked
/// for, keeping the lower half each time: so it answers with what
/// [`buddy_pick`] says of its free lists. A block of one frame is found
/// exactly when a frame is free. When it answers with a start frame, every
/// frame of the block was free and none of them is any more, and the
/// count of frames handed out has grown by the block's size. When it
/// answers with nothing, nothing has changed.
#[verifier::external_body]
fn buddy_alloc(a: &mut FrameAllocator<32>, count: usize) -> (r: Option<usize>)
    requires
        count <= MAX_BLOCK_FRAMES,
    ensures
        match r {
            Some(start) => {
                &&& block_at(start, count).frames().subset_of(buddy_free(*old(a)))
                &&& buddy_free(*final(a)) == buddy_free(*old(a)).difference(
                    block_at(start, count).frames(),
                )
                &&& buddy_handed_out(*final(a)) == buddy_handed_out(*old(a)) + block_frames(
                    count as nat,
                )
            },
            None => {
                &&& buddy_free(*final(a)) == buddy_free(*old(a))
                &&& buddy_handed_out(*final(a)) == buddy_handed_out(*old(a))
            },
        },
        buddy_given(*final(a)) == buddy_given(*old(a)),
        count <= 1 ==> (r is Some <==> holds_a_frame(buddy_free(*old(a)))),
        r == buddy_pick(buddy_lists(*old(a)), count),
{
    a.alloc(count)
}

/// `FrameAllocator::dealloc`: gives the block of `block_frames(count)`
/// frames at `start` back to the buddy system. None of its frames may be
/// free, and at least that many frames must be counted as handed out,
/// from which the call subtracts. Afterwards the block's frames are free
/// as well, and the count of frames handed out has dropped by the block's
/// size.
#[verifier::external_body]
fn buddy_dealloc(a: &mut FrameAllocator<32>, start: usize, count: usize)
    requires
        count <= MAX_BLOCK_FRAMES,
        start + block_frames(count as nat) <= usize::MAX,
        buddy_handed_out(*old(a)) >= block_frames(count as nat),
        block_at(start, count).frames().disjoint(buddy_free(*old(a))),
    ensures
        buddy_free(*final(a)) == buddy_free(*old(a)).union(block_at(start, count).frames()),
        buddy_handed_out(*final(a)) == buddy_handed_out(*old(a)) - block_frames(count as nat),
        buddy_given(*final(a)) == buddy_given(*old(a)),
{
    a.dealloc(start, count)
}

/// Why a release of frames was refused.
#[derive(Clone, Copy, Debug, PartialEq, Eq, Structural)]
pub enum FrameError {
    /// The frames do not lie within one outstanding run: they were never
    /// handed out, or were released before.
    NotAllocated,
    /// The count is larger than any block the table hands out.
    TooLarge,
}

/// The frame allocator: the free set, the windows of memory it was given,
/// and the runs that are outstanding.
pub struct FrameTable {
    buddy: FrameAllocator<32>,
    regions: Vec<FrameRange>,
    outstanding: Vec<FrameRange>,
    total: usize,
}

impl FrameTable {
    /// The windows of frames that the table was given, in the order given.
    pub closed spec fn regions(&self) -> Seq<FrameRange> {
        self.regions@
    }

    /// The runs that are handed out and not yet returned. A release carves
    /// its block out of the run that holds it.
    pub closed spec fn outstanding(&self) -> Seq<FrameRange> {
        self.outstanding@
    }

    /// The frames that can be handed out.
    pub closed spec fn free(&self) -> Set<int> {
        buddy_free(self.buddy)
    }

    /// Whether the block for `count` frames at `start` can be taken back:
    /// it is no larger than the largest block, and one outstanding run
    /// holds it.
    pub open spec fn holds_block(&self, start: usize, count: usize) -> bool {
        count <= MAX_BLOCK_FRAMES && exists|i: int|
            0 <= i < self.outstanding().len() && #[trigger] self.outstanding()[i].covers(
                block_at(start, count),
            )
    }

    /// The first frame of the block that a request for `count` frames is
    /// served with, and nothing where none is: what [`buddy_pick`] says
    /// of the free lists of the buddy system, for a request that is no
    /// larger than the largest block.
    pub closed spec fn pick(&self, count: usize) -> Option<usize> {
        if count <= MAX_BLOCK_FRAMES {
            buddy_pick(buddy_lists(self.buddy), count)
        } else {
            None
        }
    }

    /// Whether a frame can be handed out.
    pub open spec fn has_free(&self) -> bool {
        holds_a_frame(self.free())
    }

    /// Every frame the table was ever given.
    pub open spec fn managed(&self) -> Set<int> {
        frames_of(self.regions())
    }

    /// The frames that are handed out and not yet returned.
    pub open spec fn reserved(&self) -> Set<int> {
        frames_of(self.outstanding())
    }

    /// The table's invariant: the free set is what was given less what is
    /// outstanding, no frame is outstanding twice, and the bookkeeping of
    /// the buddy system agrees with the table's own.
    pub closed spec fn wf(&self) -> bool {
        &&& self.free() =~= self.managed().difference(self.reserved())
        &&& self.reserved().subset_of(self.managed())
        &&& all_valid(self.regions@)
        &&& pairwise_disjoint(self.regions@)
        &&& all_valid(self.outstanding@)
        &&& pairwise_disjoint(self.outstanding@)
        &&& buddy_handed_out(self.buddy) == total_frames(self.outstanding@)
        &&& buddy_given(self.buddy) == self.total
        &&& self.total == total_frames(self.regions@)
    }

    /// Whether the window `run` can be added to a table that was given
    /// `regions`: it is a valid run, shares no frame with them, and the
    /// total stays within `usize`.
    pub open spec fn can_add(regions: Seq<FrameRange>, run: FrameRange) -> bool {
        &&& run.valid()
        &&& forall|i: int| 0 <= i < regions.len() ==> !(#[trigger] regions[i]).overlaps(run)
        &&& total_frames(regions) + run.count <= usize::MAX
    }

    /// In a well-formed table no frame is lost and none is counted twice:
    /// the free frames are exactly the frames that were given less the
    /// frames outstanding, and every outstanding frame was given.
    pub proof fn lemma_free_is_managed_less_reserved(&self)
        requires
            self.wf(),
        ensures
            self.free() == self.managed().difference(self.reserved()),
            self.reserved().subset_of(self.managed()),
            self.free().disjoint(self.reserved()),
            self.free().union(self.reserved()) == self.managed(),
            pairwise_disjoint(self.outstanding()),
            all_valid(self.outstanding()),
            pairwise_disjoint(self.regions()),
            all_valid(self.regions()),
    {
        assert(self.free().union(self.reserved()) =~= self.managed());
    }

    /// The number of frames that can be handed out.
    pub open spec fn free_count(&self) -> nat {
        self.free().len()
    }

    /// The free frames of a well-formed table are finitely many, and one
    /// can be handed out exactly when their number is not zero.
    pub proof fn lemma_free_count(&self)
        requires
            self.wf(),
        ensures
            self.free().finite(),
            self.has_free() <==> self.free_count() > 0,
    {
        self.lemma_free_is_managed_less_reserved();
        lemma_frames_of_finite(self.regions());
        lemma_set_subset_finite(self.managed(), self.free());
        if self.has_free() {
            let f = choose|f: int| self.free().contains(f);
            axiom_set_contains_len(self.free(), f);
        } else {
            assert(self.free() =~= Set::<int>::empty());
        }
    }

    /// When a table hands out the free frame `taken` and nothing else
    /// changes, one frame fewer is free; when it takes the outstanding
    /// frame `given` back at the same time, as many are free as before.
    pub proof fn lemma_free_count_step(
        before: &FrameTable,
        after: &FrameTable,
        taken: int,
        given: Option<int>,
    )
        requires
            before.wf(),
            after.wf(),
            after.regions() == before.regions(),
            before.free().contains(taken),
            match given {
                Some(frame) => before.reserved().contains(frame) && after.reserved()
                    == before.reserved().insert(taken).remove(frame),
                None => after.reserved() == before.reserved().insert(taken),
            },
        ensures
            after.free_count() == before.free_count() - (if given is Some {
                0int
            } else {
                1int
            }),
    {
        before.lemma_free_is_managed_less_reserved();
        after.lemma_free_is_managed_less_reserved();
        before.lemma_free_count();
        after.lemma_free_count();
        axiom_set_contains_len(before.free(), taken);
        match given {
            Some(frame) => {
                assert(frame != taken);
                assert(after.free() =~= before.free().remove(taken).insert(frame));
            },
            None => {
                assert(after.free() =~= before.free().remove(taken));
            },
        }
    }

    /// Whatever was handed out and taken back between two states of a
    /// table that was given no further window, no frame was lost and none
    /// came twice: the frames that are free afterwards are those that were
    /// free or outstanding before, less those that are outstanding
    /// afterwards.
    pub proof fn lemma_no_frame_lost(before: &FrameTable, after: &FrameTable)
        requires
            before.wf(),
            after.wf(),
            after.regions() == before.regions(),
        ensures
            after.free() == before.free().union(before.reserved()).difference(after.reserved()),
            after.free().union(after.reserved()) == before.free().union(before.reserved()),
            after.reserved() == before.reserved() ==> after.free() == before.free(),
    {
        before.lemma_free_is_managed_less_reserved();
        after.lemma_free_is_managed_less_reserved();
        assert(after.free() =~= before.free().union(before.reserved()).difference(
            after.reserved(),
        ));
        assert(after.free().union(after.reserved()) =~= before.free().union(before.reserved()));
        if after.reserved() == before.reserved() {
            assert(after.free() =~= before.free());
        }
    }

    /// An empty table: no frame given, none outstanding.
    pub fn new() -> (table: FrameTable)
        ensures
            table.wf(),
            table.regions() == Seq::<FrameRange>::empty(),
            table.outstanding() == Seq::<FrameRange>::empty(),
    {
        FrameTable { buddy: buddy_new(), regions: Vec::new(), outstanding: Vec::new(), total: 0 }
    }

    /// The windows of frames that the table was given, in the order given.
    pub fn region_list(&self) -> (list: Vec<FrameRange>)
        ensures
            list@ == self.regions(),
    {
        self.regions.clone()
    }

    /// The runs that are handed out and not yet returned.
    pub fn outstanding_list(&self) -> (list: Vec<FrameRange>)
        ensures
            list@ == self.outstanding(),
    {
        self.outstanding.clone()
    }

    /// Whether the frame `frame` lies in one of `runs`.
    fn in_runs(runs: &Vec<FrameRange>, frame: usize) -> (r: bool)
        requires
            all_valid(runs@),
        ensures
            r == frames_of(runs@).contains(frame as int),
    {
        let mut i: usize = 0;
        while i < runs.len()
            invariant
                i <= runs@.len(),
                all_valid(runs@),
                forall|k: int| 0 <= k < i ==> !(#[trigger] runs@[k]).contains(frame as int),
            decreases runs@.len() - i,
        {
            let run = runs[i];
            proof {
                assert(runs@[i as int].valid());
            }
            if run.start <= frame && frame - run.start < run.count {
                assert(runs@[i as int].contains(frame as int));
                return true;
            }
            i = i + 1;
        }
        false
    }

    /// Whether the frame `frame` is outstanding.
    pub fn is_reserved(&self, frame: usize) -> (r: bool)
        requires
            self.wf(),
        ensures
            r == self.reserved().contains(frame as int),
    {
        Self::in_runs(&self.outstanding, frame)
    }

    /// Whether the frame `frame` can be handed out.
    pub fn is_free(&self, frame: usize) -> (r: bool)
        requires
            self.wf(),
        ensures
            r == self.free().contains(frame as int),
    {
        Self::in_runs(&self.regions, frame) && !Self::in_runs(&self.outstanding, frame)
    }

    /// Gives the window of frames `[start, end)` to the table, as free
    /// frames. The window is refused, and nothing changes, when it is
    /// empty, shares a frame with a window given before, or would take the
    /// count of frames beyond `usize`.
    pub fn add_region(&mut self, start: usize, end: usize) -> (added: bool)
        requires
            old(self).wf(),
        ensures
            final(self).wf(),
            final(self).outstanding() == old(self).outstanding(),
            added == (start < end && Self::can_add(
                old(self).regions(),
                FrameRange { start, count: (end - start) as usize },
            )),
            added ==> final(self).regions() == old(self).regions().push(
                FrameRange { start, count: (end - start) as usize },
            ),
            !added ==> final(self).regions() == old(self).regions(),
            !added ==> final(self).free() == old(self).free(),
    {
        if start >= end {
            return false;
        }
        let run = FrameRange { start, count: end - start };
        let mut i: usize = 0;
        while i < self.regions.len()
            invariant
                *self == *old(self),
                self.wf(),
                i <= self.regions.len(),
                run.start == start,
                run.count == end - start,
                start < end,
                forall|j: int| 0 <= j < i ==> !(#[trigger] self.regions@[j]).overlaps(run),
            decreases self.regions.len() - i,
        {
            let r = self.regions[i];
            proof {
                assert(all_valid(self.regions@));
                assert(self.regions@[i as int].valid());
            }
            if r.start < end && start < r.start + r.count {
                assert(self.regions@[i as int].overlaps(run));
                return false;
            }
            i = i + 1;
        }
        let total = match self.total.checked_add(run.count) {
            Some(t) => t,
            None => {
                return false;
            },
        };
        proof {
            assert forall|f: int| start <= f < end implies !buddy_free(self.buddy).contains(
                f,
            ) by {
                if buddy_free(self.buddy).contains(f) {
                    assert(self.managed().contains(f));
                    let j = choose|j: int|
                        0 <= j < self.regions@.len() && #[trigger] self.regions@[j].contains(f);
                    assert(self.regions@[j].overlaps(run));
                }
            }
        }
        buddy_add(&mut self.buddy, start, end);
        self.regions.push(run);
        self.total = total;
        proof {
            let old_regions = old(self).regions@;
            assert(self.regions@.drop_last() =~= old_regions);
            assert(self.regions@.last() == run);
            lemma_frames_of_push(old_regions, run);
            assert(run.frames() =~= Set::new(|f: int| start <= f < end));
            assert(run.frames().disjoint(old(self).managed())) by {
                assert forall|f: int| run.frames().contains(f) implies
                    !old(self).managed().contains(f) by {
                    if old(self).managed().contains(f) {
                        let j = choose|j: int|
                            0 <= j < old_regions.len() && #[trigger] old_regions[j].contains(f);
                        assert(old_regions[j].overlaps(run));
                    }
                }
            }
            assert(self.free() =~= self.managed().difference(self.reserved()));
            assert(pairwise_disjoint(self.regions@)) by {
                assert forall|a: int, b: int|
                    0 <= a < self.regions@.len() && 0 <= b < self.regions@.len() && a
                        != b implies !(#[trigger] self.regions@[a]).overlaps(
                    #[trigger] self.regions@[b],
                ) by {
                    if a < old_regions.len() && b < old_regions.len() {
                        assert(!old_regions[a].overlaps(old_regions[b]));
                    } else if a < old_regions.len() {
                        assert(!old_regions[a].overlaps(run));
                    } else {
                        assert(!old_regions[b].overlaps(run));
                    }
                }
            }
        }
        true
    }

    /// Reserves a block for `count` contiguous frames and hands out its
    /// first `count` frames. The block has `block_frames(count)` frames,
    /// all of them free before and outstanding afterwards. It is the
    /// block that [`FrameTable::pick`] names, and none is found exactly
    /// where that names none. A block of one frame is found exactly when
    /// a frame is free; none is found when no frame is free or `count` is
    /// larger than any block. When none is found, nothing changes.
    pub fn allocate(&mut self, count: usize) -> (r: Option<FrameRange>)
        requires
            old(self).wf(),
        ensures
            final(self).wf(),
            final(self).regions() == old(self).regions(),
            r is Some <==> old(self).pick(count) is Some,
            r matches Some(run) ==> old(self).pick(count) == Some(run.start),
            count > MAX_BLOCK_FRAMES ==> r is None,
            !old(self).has_free() ==> r is None,
            count <= 1 ==> (r is Some <==> old(self).has_free()),
            match r {
                Some(run) => {
                    &&& run.count == count
                    &&& block_at(run.start, count).valid()
                    &&& block_at(run.start, count).frames().subset_of(old(self).free())
                    &&& final(self).free() == old(self).free().difference(
                        block_at(run.start, count).frames(),
                    )
                    &&& final(self).outstanding() == old(self).outstanding().push(
                        block_at(run.start, count),
                    )
                    &&& final(self).reserved() == old(self).reserved().union(
                        block_at(run.start, count).frames(),
                    )
                },
                None => {
                    &&& final(self).outstanding() == old(self).outstanding()
                    &&& final(self).free() == old(self).free()
                },
            },
    {
        if count > MAX_BLOCK_FRAMES {
            return None;
        }
        let size = block_frames_for(count);
        match buddy_alloc(&mut self.buddy, count) {
            None => None,
            Some(start) => {
                let ghost block = block_at(start, count);
                proof {
                    assert(block.count == size);
                    // The block's last frame was free, hence managed, hence
                    // within a valid window.
                    let last = start + size - 1;
                    assert(block.contains(last));
                    assert(block.frames().contains(last));
                    assert(old(self).free().contains(last));
                    assert(old(self).managed().contains(last));
                    let j = choose|j: int|
                        0 <= j < self.regions@.len() && #[trigger] self.regions@[j].contains(last);
                    assert(self.regions@[j].valid());
                }
                self.outstanding.push(FrameRange { start, count: size });
                proof {
                    let old_runs = old(self).outstanding@;
                    assert(self.outstanding@ == old_runs.push(block));
                    assert(self.outstanding@.drop_last() =~= old_runs);
                    lemma_frames_of_push(old_runs, block);
                    assert(self.free() =~= self.managed().difference(self.reserved()));
                    assert(pairwise_disjoint(self.outstanding@)) by {
                        assert forall|a: int, b: int|
                            0 <= a < self.outstanding@.len() && 0 <= b < self.outstanding@.len()
                                && a != b implies !(#[trigger] self.outstanding@[a]).overlaps(
                            #[trigger] self.outstanding@[b],
                        ) by {
                            if a < old_runs.len() && b < old_runs.len() {
                                assert(!old_runs[a].overlaps(old_runs[b]));
                            } else {
                                let c = if a < old_runs.len() {
                                    a
                                } else {
                                    b
                                };
                                if old_runs[c].overlaps(block) {
                                    let f = if old_runs[c].start >= block.start {
                                        old_runs[c].start as int
                                    } else {
                                        block.start as int
                                    };
                                    assert(old_runs[c].valid());
                                    assert(old_runs[c].contains(f));
                                    assert(block.frames().contains(f));
                                    assert(old(self).reserved().contains(f));
                                    assert(old(self).free().contains(f));
                                }
                            }
                        }
                    }
                }
                Some(FrameRange { start, count })
            },
        }
    }

    /// Computes [`FrameTable::holds_block`].
    pub fn holds(&self, start: usize, count: usize) -> (r: bool)
        requires
            self.wf(),
        ensures
            r == self.holds_block(start, count),
    {
        if count > MAX_BLOCK_FRAMES {
            return false;
        }
        let size = block_frames_for(count);
        let mut i: usize = 0;
        while i < self.outstanding.len()
            invariant
                self.wf(),
                i <= self.outstanding.len(),
                count <= MAX_BLOCK_FRAMES,
                size == block_frames(count as nat),
                1 <= size <= MAX_BLOCK_FRAMES,
                forall|j: int|
                    0 <= j < i ==> !(#[trigger] self.outstanding@[j]).covers(
                        block_at(start, count),
                    ),
            decreases self.outstanding.len() - i,
        {
            let run = self.outstanding[i];
            proof {
                assert(self.outstanding@[i as int].valid());
            }
            if run.start <= start && start - run.start <= run.count && size <= run.count - (start
                - run.start) {
                assert(self.outstanding()[i as int].covers(block_at(start, count)));
                return true;
            }
            i = i + 1;
        }
        false
    }

    /// Takes the block for `count` frames at `start` back: the
    /// `block_frames(count)` frames from `start` on. The release is
    /// accepted exactly when one outstanding run holds the whole block;
    /// the block is then carved out of that run and its frames are free
    /// again. A release of frames that are not outstanding is refused and
    /// changes nothing.
    pub fn deallocate(&mut self, start: usize, count: usize) -> (r: Result<(), FrameError>)
        requires
            old(self).wf(),
        ensures
            final(self).wf(),
            final(self).regions() == old(self).regions(),
            match r {
                Ok(()) => {
                    &&& count <= MAX_BLOCK_FRAMES
                    &&& exists|i: int|
                        0 <= i < old(self).outstanding().len() &&
                            #[trigger] old(self).outstanding()[i].covers(block_at(start, count))
                            && final(self).outstanding() == carve(
                            old(self).outstanding(),
                            i,
                            block_at(start, count),
                        )
                    &&& final(self).reserved() == old(self).reserved().difference(
                        block_at(start, count).frames(),
                    )
                    &&& final(self).free() == old(self).free().union(
                        block_at(start, count).frames(),
                    )
                },
                Err(e) => {
                    &&& final(self).outstanding() == old(self).outstanding()
                    &&& final(self).free() == old(self).free()
                    &&& e == FrameError::TooLarge <==> count > MAX_BLOCK_FRAMES
                    &&& e == FrameError::NotAllocated <==> count <= MAX_BLOCK_FRAMES
                    &&& count <= MAX_BLOCK_FRAMES ==> forall|i: int|
                        0 <= i < old(self).outstanding().len() ==>
                            !(#[trigger] old(self).outstanding()[i]).covers(block_at(start, count))
                },
            },
    {
        if count > MAX_BLOCK_FRAMES {
            return Err(FrameError::TooLarge);
        }
        let size = block_frames_for(count);
        let ghost block = block_at(start, count);
        let mut i: usize = 0;
        while i < self.outstanding.len()
            invariant
                *self == *old(self),
                self.wf(),
                i <= self.outstanding.len(),
                block == block_at(start, count),
                block.count == size,
                block.start == start,
                1 <= size <= MAX_BLOCK_FRAMES,
                forall|j: int| 0 <= j < i ==> !(#[trigger] self.outstanding@[j]).covers(block),
            ensures
                i < self.outstanding.len() ==> self.outstanding@[i as int].covers(block),
            decreases self.outstanding.len() - i,
        {
            let run = self.outstanding[i];
            proof {
                assert(self.outstanding@[i as int].valid());
            }
            if run.start <= start && start - run.start <= run.count && size <= run.count - (start
                - run.start) {
                break ;
            }
            i = i + 1;
        }
        if i >= self.outstanding.len() {
            return Err(FrameError::NotAllocated);
        }
        let run = self.outstanding[i];
        let ghost old_runs = self.outstanding@;
        proof {
            assert(old_runs[i as int].valid());
            assert(old_runs[i as int].covers(block));
            lemma_total_frames_at(old_runs, i as int);
            assert(block.frames().disjoint(buddy_free(self.buddy))) by {
                assert forall|f: int| block.frames().contains(f) implies !buddy_free(
                    self.buddy,
                ).contains(f) by {
                    assert(old_runs[i as int].contains(f));
                    assert(self.reserved().contains(f));
                }
            }
        }
        let left = start - run.start;
        let right = run.count - left - size;
        buddy_dealloc(&mut self.buddy, start, count);
        if left > 0 && right > 0 {
            self.outstanding.set(i, FrameRange { start: run.start, count: left });
            self.outstanding.push(FrameRange { start: start + size, count: right });
        } else if left > 0 {
            self.outstanding.set(i, FrameRange { start: run.start, count: left });
        } else if right > 0 {
            self.outstanding.set(i, FrameRange { start: start + size, count: right });
        } else {
            self.outstanding.remove(i);
        }
        proof {
            assert(self.outstanding@ =~= carve(old_runs, i as int, block));
            lemma_carve(old_runs, i as int, block);
            assert(old(self).free() =~= old(self).managed().difference(old(self).reserved()));
            assert(self.managed() == old(self).managed());
            assert(self.reserved() == old(self).reserved().difference(block.frames()));
            assert(self.free() == old(self).free().union(block.frames()));
            assert(block.frames().subset_of(old(self).reserved())) by {
                assert forall|f: int| block.frames().contains(f) implies
                    old(self).reserved().contains(f) by {
                    assert(old_runs[i as int].contains(f));
                }
            }
            assert(self.free() =~= self.managed().difference(self.reserved()));
        }
        Ok(())
    }
}

/// Whether every byte of `bytes` is zero.
pub open spec fn all_zero(bytes: Seq<u8>) -> bool {
    forall|i: int| 0 <= i < bytes.len() ==> bytes[i] == 0u8
}

/// A page of zero bytes.
pub fn zero_page() -> (bytes: Vec<u8>)
    ensures
        bytes@.len() == PAGE_SIZE,
        all_zero(bytes@),
{
    vec![0u8; PAGE_SIZE]
}

/// An owned physical page: the number of its frame, and its bytes.
///
/// Exactly one tracker stands for an outstanding frame. A page comes out
/// of the table zero-filled, whatever was released before; giving the
/// tracker back returns the frame to the free set and ends the content.
pub struct FrameTracker {
    ppn: usize,
    bytes: Vec<u8>,
}

impl View for FrameTracker {
    type V = Seq<u8>;

    closed spec fn view(&self) -> Seq<u8> {
        self.bytes@
    }
}

impl FrameTracker {
    /// The number of the frame, for contracts.
    pub closed spec fn frame(&self) -> usize {
        self.ppn
    }

    /// Whether the page has its full size.
    pub open spec fn wf(&self) -> bool {
        self@.len() == PAGE_SIZE
    }

    /// The number of the frame.
    pub fn ppn(&self) -> (ppn: usize)
        ensures
            ppn == self.frame(),
    {
        self.ppn
    }

    /// The physical address of the page's first byte, where it fits in
    /// `usize`.
    pub fn to_addr(&self) -> (addr: Option<usize>)
        ensures
            addr == (if self.frame() * PAGE_SIZE <= usize::MAX {
                Some((self.frame() * PAGE_SIZE) as usize)
            } else {
                None
            }),
    {
        self.ppn.checked_mul(PAGE_SIZE)
    }

    /// The bytes of the page.
    pub fn get_buffer(&self) -> (bytes: &[u8])
        ensures
            bytes@ == self@,
    {
        self.bytes.as_slice()
    }

    /// Copies `data` into the page from `offset` on.
    pub fn write(&mut self, offset: usize, data: &[u8])
        requires
            old(self).wf(),
            offset + data@.len() <= PAGE_SIZE,
        ensures
            final(self).wf(),
            final(self).frame() == old(self).frame(),
            final(self)@ == old(self)@.subrange(0, offset as int) + data@ + old(self)@.subrange(
                offset + data@.len(),
                PAGE_SIZE as int,
            ),
    {
        let mut i: usize = 0;
        while i < data.len()
            invariant
                i <= data@.len(),
                offset + data@.len() <= PAGE_SIZE,
                self.bytes@.len() == PAGE_SIZE,
                self.ppn == old(self).ppn,
                forall|k: int| 0 <= k < offset ==> self.bytes@[k] == old(self).bytes@[k],
                forall|k: int| offset <= k < offset + i ==> self.bytes@[k] == data@[k - offset],
                forall|k: int|
                    offset + i <= k < PAGE_SIZE ==> self.bytes@[k] == old(self).bytes@[k],
            decreases data@.len() - i,
        {
            self.bytes.set(offset + i, data[i]);
            i = i + 1;
        }
        assert(self@ =~= old(self)@.subrange(0, offset as int) + data@ + old(self)@.subrange(
            offset + data@.len(),
            PAGE_SIZE as int,
        ));
    }

    /// Gives the frame back to `table`. It is refused when the frame is
    /// not outstanding there.
    pub fn release(self, table: &mut FrameTable) -> (r: Result<(), FrameError>)
        requires
            old(table).wf(),
        ensures
            final(table).wf(),
            final(table).regions() == old(table).regions(),
            r is Ok <==> old(table).reserved().contains(self.frame() as int),
            r is Ok ==> final(table).reserved() == old(table).reserved().remove(
                self.frame() as int,
            ) && final(table).free() == old(table).free().insert(self.frame() as int),
            r is Err ==> final(table).outstanding() == old(table).outstanding() &&
                final(table).free() == old(table).free(),
    {
        let r = table.deallocate(self.ppn, 1);
        proof {
            lemma_block_of_one(self.ppn);
            let runs = old(table).outstanding();
            let frame = self.ppn as int;
            if old(table).reserved().contains(frame) {
                let i = choose|i: int| 0 <= i < runs.len() && #[trigger] runs[i].contains(frame);
                assert(runs[i].covers(block_at(self.ppn, 1)));
            }
            if r is Ok {
                let i = choose|i: int|
                    0 <= i < runs.len() && #[trigger] runs[i].covers(block_at(self.ppn, 1));
                assert(runs[i].contains(frame));
                let held = old(table).reserved();
                assert(held.difference(set![frame]) =~= held.remove(frame));
                assert(old(table).free().union(set![frame]) =~= old(table).free().insert(frame));
            }
        }
        r
    }
}

/// Allocate one physical page from `table`, as a bare frame number. The
/// caller has to give the frame back by hand. A page is had exactly when
/// a frame is free.
pub fn alloc_page_raw(table: &mut FrameTable) -> (r: Option<usize>)
    requires
        old(table).wf(),
    ensures
        final(table).wf(),
        final(table).regions() == old(table).regions(),
        r is Some <==> old(table).has_free(),
        r == old(table).pick(1),
        match r {
            Some(ppn) => {
                &&& old(table).free().contains(ppn as int)
                &&& final(table).free() == old(table).free().remove(ppn as int)
                &&& final(table).outstanding() == old(table).outstanding().push(
                    FrameRange { start: ppn, count: 1 },
                )
                &&& final(table).reserved() == old(table).reserved().insert(ppn as int)
            },
            None => {
                &&& final(table).outstanding() == old(table).outstanding()
                &&& final(table).free() == old(table).free()
            },
        },
{
    match table.allocate(1) {
        Some(run) => {
            proof {
                lemma_block_of_one(run.start);
                assert(old(table).reserved().union(set![run.start as int]) =~=
                    old(table).reserved().insert(run.start as int));
                assert(set![run.start as int].contains(run.start as int));
                assert(old(table).free().difference(set![run.start as int]) =~=
                    old(table).free().remove(run.start as int));
            }
            Some(run.start)
        },
        None => None,
    }
}

/// Allocate `count` contiguous physical pages from `table`, as the number
/// of the first frame. The caller has to give the frames back by hand.
/// The block is the one that [`FrameTable::pick`] names, and none is had
/// exactly where that names none. A block of one frame is had exactly
/// when a frame is free; none is had when no frame is free or `count` is
/// larger than any block.
pub fn alloc_pages_raw(table: &mut FrameTable, count: usize) -> (r: Option<usize>)
    requires
        old(table).wf(),
    ensures
        final(table).wf(),
        final(table).regions() == old(table).regions(),
        r == old(table).pick(count),
        count > MAX_BLOCK_FRAMES ==> r is None,
        !old(table).has_free() ==> r is None,
        count <= 1 ==> (r is Some <==> old(table).has_free()),
        match r {
            Some(start) => {
                &&& block_at(start, count).valid()
                &&& block_at(start, count).frames().subset_of(old(table).free())
                &&& final(table).free() == old(table).free().difference(
                    block_at(start, count).frames(),
                )
                &&& final(table).outstanding() == old(table).outstanding().push(
                    block_at(start, count),
                )
                &&& final(table).reserved() == old(table).reserved().union(
                    block_at(start, count).frames(),
                )
            },
            None => {
                &&& final(table).outstanding() == old(table).outstanding()
                &&& final(table).free() == old(table).free()
            },
        },
{
    match table.allocate(count) {
        Some(run) => Some(run.start),
        None => None,
    }
}

/// Give the block for `count` pages at frame `start` back to `table`. The
/// content of the pages ends here: the next owner finds them zero-filled.
/// The block must be held by an outstanding run: to give back what was
/// not handed out, or was given back already, is an error of the caller.
/// [`FrameTable::deallocate`] refuses such a block instead.
pub fn dealloc_pages_raw(table: &mut FrameTable, start: usize, count: usize)
    requires
        old(table).wf(),
        old(table).holds_block(start, count),
    ensures
        final(table).wf(),
        final(table).regions() == old(table).regions(),
        final(table).reserved() == old(table).reserved().difference(
            block_at(start, count).frames(),
        ),
        final(table).free() == old(table).free().union(block_at(start, count).frames()),
        exists|i: int|
            0 <= i < old(table).outstanding().len() && old(table).outstanding()[i].covers(
                block_at(start, count),
            ) && final(table).outstanding() == carve(
                old(table).outstanding(),
                i,
                block_at(start, count),
            ),
{
    let released = table.deallocate(start, count);
    assert(released is Ok);
}

/// Allocate a page from `table`: an owned, zero-filled page. A page is
/// had exactly when a frame is free.
pub fn alloc_page(table: &mut FrameTable) -> (r: Option<FrameTracker>)
    requires
        old(table).wf(),
    ensures
        final(table).wf(),
        final(table).regions() == old(table).regions(),
        r is Some <==> old(table).has_free(),
        match r {
            Some(page) => {
                &&& page.wf()
                &&& all_zero(page@)
                &&& old(table).pick(1) == Some(page.frame())
                &&& old(table).free().contains(page.frame() as int)
                &&& final(table).free() == old(table).free().remove(page.frame() as int)
                &&& final(table).outstanding() == old(table).outstanding().push(
                    FrameRange { start: page.frame(), count: 1 },
                )
                &&& final(table).reserved() == old(table).reserved().insert(
                    page.frame() as int,
                )
            },
            None => {
                &&& final(table).outstanding() == old(table).outstanding()
                &&& final(table).free() == old(table).free()
            },
        },
{
    match alloc_page_raw(table) {
        Some(ppn) => Some(FrameTracker { ppn, bytes: zero_page() }),
        None => None,
    }
}

/// Allocate `count` contiguous pages from `table`: one owned, zero-filled
/// page for each of the frames `start .. start + count`, in that order.
/// The block is the one that [`FrameTable::pick`] names, and none is had
/// exactly where that names none. A block of one frame is had exactly
/// when a frame is free; none is had when no frame is free or `count` is
/// larger than any block.
pub fn alloc_pages(table: &mut FrameTable, count: usize) -> (r: Option<Vec<FrameTracker>>)
    requires
        old(table).wf(),
    ensures
        final(table).wf(),
        final(table).regions() == old(table).regions(),
        r is Some <==> old(table).pick(count) is Some,
        count > MAX_BLOCK_FRAMES ==> r is None,
        !old(table).has_free() ==> r is None,
        count <= 1 ==> (r is Some <==> old(table).has_free()),
        match r {
            Some(pages) => {
                &&& pages@.len() == count
                &&& exists|start: usize|
                    {
                        &&& old(table).pick(count) == Some(start)
                        &&& block_at(start, count).valid()
                        &&& block_at(start, count).frames().subset_of(old(table).free())
                        &&& final(table).free() == old(table).free().difference(
                            block_at(start, count).frames(),
                        )
                        &&& final(table).outstanding() == old(table).outstanding().push(
                            block_at(start, count),
                        )
                        &&& forall|k: int|
                            0 <= k < count ==> (#[trigger] pages@[k]).frame() == start + k
                    }
                &&& forall|k: int|
                    0 <= k < count ==> (#[trigger] pages@[k]).wf() && all_zero(pages@[k]@)
            },
            None => {
                &&& final(table).outstanding() == old(table).outstanding()
                &&& final(table).free() == old(table).free()
            },
        },
{
    match table.allocate(count) {
        None => None,
        Some(run) => {
            proof {
                lemma_block_frames_bounds(count as nat);
            }
            let mut pages: Vec<FrameTracker> = Vec::new();
            let mut k: usize = 0;
            while k < count
                invariant
                    k <= count,
                    run.count == count,
                    count <= block_frames(count as nat),
                    run.start + block_frames(count as nat) <= usize::MAX,
                    pages@.len() == k,
                    forall|j: int| 0 <= j < k ==> (#[trigger] pages@[j]).frame() == run.start + j,
                    forall|j: int| 0 <= j < k ==> (#[trigger] pages@[j]).wf() &&
                        all_zero(pages@[j]@),
                decreases count - k,
            {
                pages.push(FrameTracker { ppn: run.start + k, bytes: zero_page() });
                k = k + 1;
            }
            Some(pages)
        },
    }
}

} // verus!
