//! Paths: how a path is split into its components.

use vstd::prelude::*;

verus! {

/// The components of the path `path`: the pieces between its separators
/// `/`. A path without separator is its only component; a separator at
/// the start, at the end or next to another leaves an empty component.
pub open spec fn components(path: Seq<char>) -> Seq<Seq<char>>
    decreases path.len(),
{
    if path.len() == 0 {
        seq![Seq::empty()]
    } else {
        let before = components(path.drop_last());
        if path.last() == '/' {
            before.push(Seq::empty())
        } else {
            before.drop_last().push(before.last().push(path.last()))
        }
    }
}

/// Whether the path starts at the root.
pub open spec fn is_absolute(path: Seq<char>) -> bool {
    path.len() > 0 && path[0] == '/'
}

/// A path has at least one component.
pub proof fn lemma_components_nonempty(path: Seq<char>)
    ensures
        components(path).len() >= 1,
    decreases path.len(),
{
    if path.len() > 0 {
        lemma_components_nonempty(path.drop_last());
    }
}

/// The views of `parts`.
pub open spec fn parts_view(parts: Seq<String>) -> Seq<Seq<char>> {
    Seq::new(parts.len(), |i: int| parts[i]@)
}

/// Splits a path into its components.
pub fn split_path(path: &str) -> (parts: Vec<String>)
    ensures
        parts_view(parts@) == components(path@),
        parts@.len() >= 1,
{
    let len = path.unicode_len();
    let mut parts: Vec<String> = Vec::new();
    let mut start: usize = 0;
    let mut i: usize = 0;
    proof {
        assert(path@.take(0) =~= Seq::<char>::empty());
        assert(parts_view(parts@).push(path@.subrange(0, 0)) =~= seq![Seq::<char>::empty()]);
    }
    while i < len
        invariant
            len == path@.len(),
            start <= i <= len,
            components(path@.take(i as int)) == parts_view(parts@).push(
                path@.subrange(start as int, i as int),
            ),
        decreases len - i,
    {
        let c = path.get_char(i);
        proof {
            assert(path@.take(i + 1).drop_last() =~= path@.take(i as int));
            assert(path@.take(i + 1).last() == c);
        }
        if c == '/' {
            let part = path.substring_char(start, i);
            let ghost before = parts_view(parts@);
            parts.push(part.to_owned());
            start = i + 1;
            proof {
                assert(parts_view(parts@) =~= before.push(part@));
                assert(path@.subrange(start as int, i + 1) =~= Seq::<char>::empty());
            }
        } else {
            proof {
                let before = parts_view(parts@).push(path@.subrange(start as int, i as int));
                assert(before.drop_last() =~= parts_view(parts@));
                assert(path@.subrange(start as int, i as int).push(c) =~= path@.subrange(
                    start as int,
                    i + 1,
                ));
            }
        }
        i = i + 1;
    }
    let part = path.substring_char(start, len);
    let ghost before = parts_view(parts@);
    parts.push(part.to_owned());
    proof {
        assert(path@.take(len as int) =~= path@);
        assert(parts_view(parts@) =~= before.push(part@));
    }
    parts
}

/// Whether the path starts at the root.
pub fn starts_at_root(path: &str) -> (r: bool)
    ensures
        r == is_absolute(path@),
{
    path.unicode_len() > 0 && path.get_char(0) == '/'
}

} // verus!
