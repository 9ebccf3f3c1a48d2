//! Substring search on byte strings.

use vstd::prelude::*;

verus! {

/// `needle` stands in `hay` at offset `at`.
pub open spec fn occurs_at(hay: Seq<u8>, needle: Seq<u8>, at: int) -> bool {
    &&& 0 <= at
    &&& at + needle.len() <= hay.len()
    &&& hay.subrange(at, at + needle.len()) == needle
}

/// `needle` stands somewhere in `hay`.
pub open spec fn contains(hay: Seq<u8>, needle: Seq<u8>) -> bool {
    exists|at: int| occurs_at(hay, needle, at)
}

/// `needle` stands in `hay` at offset `at` and at no later offset.
pub open spec fn is_last_occurrence(hay: Seq<u8>, needle: Seq<u8>, at: int) -> bool {
    &&& occurs_at(hay, needle, at)
    &&& forall|later: int| at < later ==> !occurs_at(hay, needle, later)
}

/// The offset of the last occurrence of `needle` in `hay`, if there is one.
pub open spec fn last_occurrence(hay: Seq<u8>, needle: Seq<u8>) -> Option<int> {
    if contains(hay, needle) {
        Some(choose|at: int| is_last_occurrence(hay, needle, at))
    } else {
        None
    }
}

/// An offset that is a last occurrence is *the* last occurrence.
pub proof fn lemma_last_occurrence_is(hay: Seq<u8>, needle: Seq<u8>, at: int)
    requires
        is_last_occurrence(hay, needle, at),
    ensures
        last_occurrence(hay, needle) == Some(at),
{
    let chosen = choose|other: int| is_last_occurrence(hay, needle, other);
    assert(chosen == at);
}

/// Where nothing occurs, there is no last occurrence; where something does, the
/// last occurrence is one.
pub proof fn lemma_last_occurrence_occurs(hay: Seq<u8>, needle: Seq<u8>)
    ensures
        match last_occurrence(hay, needle) {
            Some(at) => is_last_occurrence(hay, needle, at),
            None => forall|at: int| !occurs_at(hay, needle, at),
        },
{
    if contains(hay, needle) {
        let first = choose|at: int| occurs_at(hay, needle, at);
        lemma_some_occurrence_is_last(hay, needle, first, hay.len() as int);
    }
}

/// Among the occurrences from `from` on there is a last one.
proof fn lemma_some_occurrence_is_last(hay: Seq<u8>, needle: Seq<u8>, from: int, bound: int)
    requires
        occurs_at(hay, needle, from),
        from <= bound,
        forall|later: int| bound < later ==> !occurs_at(hay, needle, later),
    ensures
        exists|at: int| is_last_occurrence(hay, needle, at),
    decreases bound - from,
{
    if occurs_at(hay, needle, bound) {
        assert(is_last_occurrence(hay, needle, bound));
    } else {
        lemma_some_occurrence_is_last(hay, needle, from, bound - 1);
    }
}

/// Compares `needle` with the bytes of `hay` from offset `at` on.
fn matches_at(hay: &[u8], needle: &[u8], at: usize) -> (found: bool)
    requires
        at + needle.len() <= hay.len(),
    ensures
        found == occurs_at(hay@, needle@, at as int),
{
    let mut k: usize = 0;
    while k < needle.len()
        invariant
            k <= needle.len(),
            at + needle.len() <= hay.len(),
            forall|j: int| 0 <= j < k ==> hay@[at + j] == needle@[j],
        decreases needle.len() - k,
    {
        if hay[at + k] != needle[k] {
            return false;
        }
        k += 1;
    }
    assert(hay@.subrange(at as int, at + needle.len()) =~= needle@);
    true
}

/// Finds the last place where `needle` stands in `hay`.
pub fn find_last(hay: &[u8], needle: &[u8]) -> (found: Option<usize>)
    ensures
        match found {
            Some(at) => last_occurrence(hay@, needle@) == Some(at as int),
            None => last_occurrence(hay@, needle@) is None,
        },
{
    if needle.len() > hay.len() {
        return None;
    }
    let mut at: usize = hay.len() - needle.len();
    loop
        invariant
            at + needle.len() <= hay.len(),
            forall|later: int| at < later ==> !occurs_at(hay@, needle@, later),
        decreases at,
    {
        if matches_at(hay, needle, at) {
            proof {
                lemma_last_occurrence_is(hay@, needle@, at as int);
            }
            return Some(at);
        }
        if at == 0 {
            return None;
        }
        at -= 1;
    }
}

/// Tells whether `needle` stands anywhere in `hay`.
pub fn contains_bytes(hay: &[u8], needle: &[u8]) -> (found: bool)
    ensures
        found == contains(hay@, needle@),
{
    find_last(hay, needle).is_some()
}

} // verus!
