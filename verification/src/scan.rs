//! Searching byte sequences.

use vstd::prelude::*;

verus! {

/// Index of the first `wanted` in `s`, or `s.len()` when there is none.
pub open spec fn position(s: Seq<u8>, wanted: u8) -> int
    decreases s.len(),
{
    if s.len() == 0 || s[0] == wanted {
        0
    } else {
        1 + position(s.skip(1), wanted)
    }
}

/// What `position` finds is the first occurrence.
pub proof fn lemma_position(s: Seq<u8>, wanted: u8)
    ensures
        0 <= position(s, wanted) <= s.len(),
        forall|j: int| 0 <= j < position(s, wanted) ==> s[j] != wanted,
        position(s, wanted) < s.len() ==> s[position(s, wanted)] == wanted,
    decreases s.len(),
{
    if s.len() == 0 || s[0] == wanted {
    } else {
        lemma_position(s.skip(1), wanted);
        assert forall|j: int| 0 <= j < position(s, wanted) implies s[j] != wanted by {
            if j > 0 {
                assert(s.skip(1)[j - 1] != wanted);
            }
        }
    }
}

/// The first occurrence is what `position` finds.
pub proof fn lemma_position_is(s: Seq<u8>, wanted: u8, i: int)
    requires
        0 <= i <= s.len(),
        forall|j: int| 0 <= j < i ==> s[j] != wanted,
        i < s.len() ==> s[i] == wanted,
    ensures
        position(s, wanted) == i,
{
    lemma_position(s, wanted);
    let p = position(s, wanted);
    if p < i {
        assert(s[p] != wanted);
    }
    if i < p {
        assert(s[i] != wanted);
    }
}

/// Finds the first `wanted` at or after `from`; the length of `s` when there is none.
pub fn find_from(s: &[u8], from: usize, wanted: u8) -> (i: usize)
    requires
        from <= s@.len(),
    ensures
        i == from + position(s@.skip(from as int), wanted),
        from <= i <= s@.len(),
{
    let mut i: usize = from;
    while i < s.len() && s[i] != wanted
        invariant
            from <= i <= s@.len(),
            forall|j: int| from <= j < i ==> s@[j] != wanted,
        decreases s@.len() - i,
    {
        i += 1;
    }
    proof {
        let rest = s@.skip(from as int);
        assert forall|j: int| 0 <= j < i - from implies rest[j] != wanted by {
            assert(rest[j] == s@[from + j]);
        }
        lemma_position_is(rest, wanted, i - from);
    }
    i
}

} // verus!
