//! Runs of frames: contiguous ranges of physical frame numbers, the sets
//! of frames they make up, and the blocks of a power of two in which
//! frames are reserved.

use vstd::arithmetic::power2::{lemma2_to64, lemma_pow2_strictly_increases, pow2};
use vstd::prelude::*;
use vstd::set_lib::{lemma_int_range, set_int_range};

verus! {

/// The largest block, in frames, that the table hands out at once.
pub const MAX_BLOCK_FRAMES: usize = 0x8000_0000;

/// A contiguous run of physical frames `[start, start + count)`.
#[derive(Clone, Copy, Debug, PartialEq, Eq, Structural)]
pub struct FrameRange {
    pub start: usize,
    pub count: usize,
}

impl FrameRange {
    /// First frame after the run.
    pub open spec fn end(self) -> int {
        self.start + self.count
    }

    /// Whether frame `f` lies in the run.
    pub open spec fn contains(self, f: int) -> bool {
        self.start <= f < self.start + self.count
    }

    /// The frames of the run, as a set.
    pub open spec fn frames(self) -> Set<int> {
        Set::new(|f: int| self.contains(f))
    }

    /// Whether the run is non-empty and ends within the range of frame numbers.
    pub open spec fn valid(self) -> bool {
        self.count >= 1 && self.start + self.count <= usize::MAX
    }

    /// Whether every frame of `other` lies in this run.
    pub open spec fn covers(self, other: FrameRange) -> bool {
        self.start <= other.start && other.start + other.count <= self.start + self.count
    }

    /// Whether the two runs share a frame.
    pub open spec fn overlaps(self, other: FrameRange) -> bool {
        self.start < other.start + other.count && other.start < self.start + self.count
    }
}

/// The frames that lie in any of `runs`.
pub open spec fn frames_of(runs: Seq<FrameRange>) -> Set<int> {
    Set::new(|f: int| exists|i: int| 0 <= i < runs.len() && #[trigger] runs[i].contains(f))
}

/// Whether no two of `runs` share a frame.
pub open spec fn pairwise_disjoint(runs: Seq<FrameRange>) -> bool {
    forall|i: int, j: int|
        0 <= i < runs.len() && 0 <= j < runs.len() && i != j ==> !(#[trigger] runs[i]).overlaps(
            #[trigger] runs[j],
        )
}

/// Whether every one of `runs` is valid.
pub open spec fn all_valid(runs: Seq<FrameRange>) -> bool {
    forall|i: int| 0 <= i < runs.len() ==> (#[trigger] runs[i]).valid()
}

/// The number of frames in `runs`, counted run by run.
pub open spec fn total_frames(runs: Seq<FrameRange>) -> nat
    decreases runs.len(),
{
    if runs.len() == 0 {
        0
    } else {
        total_frames(runs.drop_last()) + runs.last().count as nat
    }
}

/// The first power of two, doubling from `p`, that is at least `n`.
pub open spec fn pow2_ceil_from(p: nat, n: nat) -> nat
    decreases
            (if p < n {
                n - p
            } else {
                0
            }),
{
    if p == 0 || p >= n {
        p
    } else {
        pow2_ceil_from(2 * p, n)
    }
}

/// The number of frames that a request for `count` frames reserves: the
/// smallest power of two that is at least `count` (one frame for a request
/// of none).
pub open spec fn block_frames(count: nat) -> nat {
    pow2_ceil_from(1, count)
}

/// The block that a request for `count` frames reserves when it is placed
/// at frame `start`.
pub open spec fn block_at(start: usize, count: usize) -> FrameRange {
    FrameRange { start, count: block_frames(count as nat) as usize }
}

/// Doubling from a power of two that is at most `2^31` ends at a power
/// of two that is at least `n` and, for `n` up to `2^31`, at most `2^31`.
pub proof fn lemma_pow2_ceil_bounds(k: nat, n: nat)
    requires
        k <= 31,
        n <= MAX_BLOCK_FRAMES,
    ensures
        pow2_ceil_from(pow2(k), n) >= n,
        pow2_ceil_from(pow2(k), n) >= pow2(k),
        pow2_ceil_from(pow2(k), n) <= MAX_BLOCK_FRAMES,
    decreases 31 - k,
{
    lemma2_to64();
    if k < 31 {
        lemma_pow2_strictly_increases(k, 31);
    }
    vstd::arithmetic::power2::lemma_pow2_pos(k);
    if pow2(k) < n {
        vstd::arithmetic::power2::lemma_pow2_unfold(k + 1);
        lemma_pow2_ceil_bounds(k + 1, n);
    }
}

/// A block is at least as large as the request, at least one frame, and
/// no larger than the largest block.
pub proof fn lemma_block_frames_bounds(count: nat)
    requires
        count <= MAX_BLOCK_FRAMES,
    ensures
        count <= block_frames(count) <= MAX_BLOCK_FRAMES,
        1 <= block_frames(count),
{
    lemma2_to64();
    lemma_pow2_ceil_bounds(0, count);
}

/// Computes [`block_frames`].
pub fn block_frames_for(count: usize) -> (size: usize)
    requires
        count <= MAX_BLOCK_FRAMES,
    ensures
        size == block_frames(count as nat),
        1 <= size <= MAX_BLOCK_FRAMES,
        count <= size,
{
    let mut p: usize = 1;
    let ghost mut k: nat = 0;
    proof {
        lemma2_to64();
    }
    while p < count
        invariant
            count <= MAX_BLOCK_FRAMES,
            k <= 31,
            p == pow2(k),
            1 <= p <= MAX_BLOCK_FRAMES,
            pow2_ceil_from(p as nat, count as nat) == block_frames(count as nat),
        decreases 31 - k,
    {
        proof {
            lemma2_to64();
            if k == 31 {
                assert(p == 0x8000_0000);
            }
            lemma_pow2_strictly_increases(k, k + 1);
            vstd::arithmetic::power2::lemma_pow2_unfold(k + 1);
            if k + 1 < 31 {
                lemma_pow2_strictly_increases(k + 1, 31);
            }
        }
        p = p * 2;
        proof {
            k = k + 1;
        }
    }
    p
}

/// What is left of `runs` when `block`, which `runs[i]` holds, is taken out
/// of it: the part of `runs[i]` before the block stays in its place, or
/// else the part after it; where both are left, the part after it goes to
/// the end; where nothing is left, the run is removed.
pub open spec fn carve(runs: Seq<FrameRange>, i: int, block: FrameRange) -> Seq<FrameRange> {
    let run = runs[i];
    let left = FrameRange { start: run.start, count: (block.start - run.start) as usize };
    let right = FrameRange {
        start: (block.start + block.count) as usize,
        count: (run.end() - block.end()) as usize,
    };
    if left.count > 0 && right.count > 0 {
        runs.update(i, left).push(right)
    } else if left.count > 0 {
        runs.update(i, left)
    } else if right.count > 0 {
        runs.update(i, right)
    } else {
        runs.remove(i)
    }
}

/// The count of one run is part of the total.
pub proof fn lemma_total_frames_at(runs: Seq<FrameRange>, i: int)
    requires
        0 <= i < runs.len(),
    ensures
        total_frames(runs) >= runs[i].count,
    decreases runs.len(),
{
    if i < runs.len() - 1 {
        lemma_total_frames_at(runs.drop_last(), i);
    }
}

/// Replacing one run changes the total by the difference of the counts.
pub proof fn lemma_total_frames_update(runs: Seq<FrameRange>, i: int, run: FrameRange)
    requires
        0 <= i < runs.len(),
    ensures
        total_frames(runs.update(i, run)) == total_frames(runs) - runs[i].count + run.count,
    decreases runs.len(),
{
    let updated = runs.update(i, run);
    if i < runs.len() - 1 {
        assert(updated.drop_last() =~= runs.drop_last().update(i, run));
        lemma_total_frames_update(runs.drop_last(), i, run);
    } else {
        assert(updated.drop_last() =~= runs.drop_last());
    }
}

/// Removing one run lowers the total by its count.
pub proof fn lemma_total_frames_remove(runs: Seq<FrameRange>, i: int)
    requires
        0 <= i < runs.len(),
    ensures
        total_frames(runs.remove(i)) == total_frames(runs) - runs[i].count,
    decreases runs.len(),
{
    let removed = runs.remove(i);
    if i < runs.len() - 1 {
        assert(removed.drop_last() =~= runs.drop_last().remove(i));
        assert(removed.last() == runs.last());
        lemma_total_frames_remove(runs.drop_last(), i);
    } else {
        assert(removed =~= runs.drop_last());
    }
}

/// Carving a block out of the run that holds it removes exactly the
/// block's frames, keeps the runs valid and apart, and lowers the total by
/// the block's size.
pub proof fn lemma_carve(runs: Seq<FrameRange>, i: int, block: FrameRange)
    requires
        0 <= i < runs.len(),
        all_valid(runs),
        pairwise_disjoint(runs),
        block.valid(),
        runs[i].covers(block),
    ensures
        frames_of(carve(runs, i, block)) == frames_of(runs).difference(block.frames()),
        all_valid(carve(runs, i, block)),
        pairwise_disjoint(carve(runs, i, block)),
        total_frames(carve(runs, i, block)) == total_frames(runs) - block.count,
{
    let run = runs[i];
    let left = FrameRange { start: run.start, count: (block.start - run.start) as usize };
    let right = FrameRange {
        start: (block.start + block.count) as usize,
        count: (run.end() - block.end()) as usize,
    };
    let carved = carve(runs, i, block);
    assert(run.valid());
    lemma_total_frames_at(runs, i);
    // Every carved run is a valid part of a run of `runs`, and a part of
    // `runs[i]` only where it is the left or the right rest.
    assert forall|k: int| 0 <= k < carved.len() implies (#[trigger] carved[k]).valid() && (
    exists|j: int|
        0 <= j < runs.len() && runs[j].covers(carved[k]) && (j == i ==> carved[k] == left
            || carved[k] == right)) by {
        if left.count > 0 && right.count > 0 {
            if k == runs.len() {
                assert(runs[i].covers(carved[k]));
            } else if k == i {
                assert(runs[i].covers(carved[k]));
            } else {
                assert(runs[k].valid());
                assert(runs[k].covers(carved[k]));
            }
        } else if left.count > 0 || right.count > 0 {
            if k == i {
                assert(runs[i].covers(carved[k]));
            } else {
                assert(runs[k].valid());
                assert(runs[k].covers(carved[k]));
            }
        } else {
            if k < i {
                assert(runs[k].valid());
                assert(runs[k].covers(carved[k]));
            } else {
                assert(runs[k + 1].valid());
                assert(runs[k + 1].covers(carved[k]));
            }
        }
    }
    assert(all_valid(carved));
    assert forall|f: int| frames_of(carved).contains(f) implies frames_of(runs).difference(
        block.frames(),
    ).contains(f) by {
        let k = choose|k: int| 0 <= k < carved.len() && #[trigger] carved[k].contains(f);
        let j = choose|j: int|
            0 <= j < runs.len() && runs[j].covers(carved[k]) && (j == i ==> carved[k] == left
                || carved[k] == right);
        assert(runs[j].contains(f));
        if j != i {
            assert(!runs[j].overlaps(runs[i]));
        }
    }
    assert forall|f: int|
        frames_of(runs).difference(block.frames()).contains(f) implies frames_of(
        carved,
    ).contains(f) by {
        let j = choose|j: int| 0 <= j < runs.len() && #[trigger] runs[j].contains(f);
        if j == i {
            if f < block.start {
                assert(left.contains(f));
                assert(carved[i].contains(f));
            } else {
                assert(right.contains(f));
                if left.count > 0 {
                    assert(carved[runs.len() as int].contains(f));
                } else {
                    assert(carved[i].contains(f));
                }
            }
        } else if left.count > 0 || right.count > 0 {
            assert(carved[j].contains(f));
        } else if j < i {
            assert(carved[j].contains(f));
        } else {
            assert(carved[j - 1].contains(f));
        }
    }
    assert(frames_of(carved) =~= frames_of(runs).difference(block.frames()));
    assert(pairwise_disjoint(carved)) by {
        assert forall|a: int, b: int|
            0 <= a < carved.len() && 0 <= b < carved.len() && a != b implies !(
        #[trigger] carved[a]).overlaps(#[trigger] carved[b]) by {
            let ja = source_of(runs, i, block, a);
            let jb = source_of(runs, i, block, b);
            assert(runs[ja].valid() && runs[jb].valid());
            assert(runs[ja].covers(carved[a]));
            assert(runs[jb].covers(carved[b]));
            if ja != jb {
                assert(!runs[ja].overlaps(runs[jb]));
            }
        }
    }
    if left.count > 0 && right.count > 0 {
        lemma_total_frames_update(runs, i, left);
        assert(carved.drop_last() =~= runs.update(i, left));
    } else if left.count > 0 {
        lemma_total_frames_update(runs, i, left);
    } else if right.count > 0 {
        lemma_total_frames_update(runs, i, right);
    } else {
        lemma_total_frames_remove(runs, i);
    }
}

/// Taking a block back right after it was handed out leaves the
/// outstanding runs, and so the outstanding frames, as they were before
/// it was handed out.
pub proof fn lemma_release_undoes_grant(runs: Seq<FrameRange>, block: FrameRange)
    requires
        block.valid(),
    ensures
        carve(runs.push(block), runs.len() as int, block) == runs,
        frames_of(carve(runs.push(block), runs.len() as int, block)) == frames_of(runs),
{
    assert(carve(runs.push(block), runs.len() as int, block) =~= runs);
}

/// The index in `runs` of the run that the carved run `k` is a part of.
pub open spec fn source_of(runs: Seq<FrameRange>, i: int, block: FrameRange, k: int) -> int {
    let run = runs[i];
    let left_count = block.start - run.start;
    let right_count = run.end() - block.end();
    if left_count > 0 && right_count > 0 {
        if k == runs.len() {
            i
        } else {
            k
        }
    } else if left_count > 0 || right_count > 0 {
        k
    } else if k < i {
        k
    } else {
        k + 1
    }
}

/// The frames of `runs` with one more run are those of `runs` and of it.
pub proof fn lemma_frames_of_push(runs: Seq<FrameRange>, run: FrameRange)
    ensures
        frames_of(runs.push(run)) == frames_of(runs).union(run.frames()),
{
    let pushed = runs.push(run);
    assert forall|f: int| frames_of(pushed).contains(f) implies frames_of(runs).union(
        run.frames(),
    ).contains(f) by {
        let i = choose|i: int| 0 <= i < pushed.len() && #[trigger] pushed[i].contains(f);
        if i < runs.len() {
            assert(runs[i].contains(f));
        }
    }
    assert forall|f: int| frames_of(runs).union(run.frames()).contains(f) implies frames_of(
        pushed,
    ).contains(f) by {
        if run.frames().contains(f) {
            assert(pushed[runs.len() as int].contains(f));
        } else {
            let i = choose|i: int| 0 <= i < runs.len() && #[trigger] runs[i].contains(f);
            assert(pushed[i].contains(f));
        }
    }
    assert(frames_of(pushed) =~= frames_of(runs).union(run.frames()));
}

/// The frames of finitely many runs are finitely many.
pub proof fn lemma_frames_of_finite(runs: Seq<FrameRange>)
    ensures
        frames_of(runs).finite(),
    decreases runs.len(),
{
    if runs.len() == 0 {
        assert(frames_of(runs) =~= Set::<int>::empty());
    } else {
        let run = runs.last();
        lemma_frames_of_finite(runs.drop_last());
        lemma_frames_of_push(runs.drop_last(), run);
        assert(runs.drop_last().push(run) =~= runs);
        lemma_int_range(run.start as int, run.end());
        assert(run.frames() =~= set_int_range(run.start as int, run.end()));
    }
}

/// One frame is a block of its own.
pub proof fn lemma_block_of_one(start: usize)
    ensures
        block_at(start, 1) == (FrameRange { start, count: 1 }),
        block_at(start, 1).frames() == set![start as int],
{
    assert(block_at(start, 1).frames() =~= set![start as int]);
}

} // verus!
