//! Helpers: data with a given alignment, and byte sequences.

use vstd::prelude::*;

verus! {

/// Aligned data for the give alignment and data
pub struct AlignedAs<Align, T: ?Sized> {
    pub _align: [Align; 0],
    pub data: T,
}

/// `mem` with `data` laid over it from position `pos` on.
pub open spec fn overlay(mem: Seq<u8>, pos: int, data: Seq<u8>) -> Seq<u8> {
    Seq::new(
        mem.len(),
        |i: int|
            if pos <= i < pos + data.len() {
                data[i - pos]
            } else {
                mem[i]
            },
    )
}

/// `n` zero bytes.
pub open spec fn zeros(n: nat) -> Seq<u8> {
    Seq::new(n, |i: int| 0u8)
}

/// Laying two pieces over a sequence one behind the other is laying
/// their concatenation over it.
pub proof fn lemma_overlay_append(mem: Seq<u8>, pos: int, a: Seq<u8>, b: Seq<u8>)
    ensures
        overlay(overlay(mem, pos, a), pos + a.len(), b) == overlay(mem, pos, a + b),
{
    assert(overlay(overlay(mem, pos, a), pos + a.len(), b) =~= overlay(mem, pos, a + b));
}

/// Laying nothing over a sequence leaves it as it is.
pub proof fn lemma_overlay_empty(mem: Seq<u8>, pos: int)
    ensures
        overlay(mem, pos, Seq::<u8>::empty()) == mem,
{
    assert(overlay(mem, pos, Seq::<u8>::empty()) =~= mem);
}

/// Copies `data` into `mem` from position `pos` on.
pub fn overlay_into(mem: &mut Vec<u8>, pos: usize, data: &[u8])
    requires
        pos + data@.len() <= old(mem)@.len(),
    ensures
        final(mem)@ == overlay(old(mem)@, pos as int, data@),
{
    let total = mem.len();
    let mut i: usize = 0;
    while i < data.len()
        invariant
            i <= data@.len(),
            pos + data@.len() <= mem@.len(),
            mem@.len() == total,
            mem@.len() == old(mem)@.len(),
            mem@ == overlay(old(mem)@, pos as int, data@.subrange(0, i as int)),
        decreases data@.len() - i,
    {
        mem.set(pos + i, data[i]);
        i = i + 1;
        assert(mem@ =~= overlay(old(mem)@, pos as int, data@.subrange(0, i as int)));
    }
    assert(data@.subrange(0, i as int) =~= data@);
}


/// Whether two strings are the same.
pub fn same_str(a: &str, b: &str) -> (r: bool)
    ensures
        r == (a@ == b@),
{
    let x = a.to_owned();
    let y = b.to_owned();
    x == y
}

} // verus!
