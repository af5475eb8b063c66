//! Byte searches, done by the `memchr` crate.

use vstd::prelude::*;

verus! {

/// Whether `i` is the first position of `haystack` that holds one of `needles`.
pub open spec fn first_of(needles: Set<u8>, haystack: Seq<u8>, i: int) -> bool {
    &&& 0 <= i < haystack.len()
    &&& needles.contains(haystack[i])
    &&& forall|j: int| 0 <= j < i ==> !needles.contains(#[trigger] haystack[j])
}

/// Whether no position of `haystack` holds one of `needles`.
pub open spec fn none_of(needles: Set<u8>, haystack: Seq<u8>) -> bool {
    forall|j: int| 0 <= j < haystack.len() ==> !needles.contains(#[trigger] haystack[j])
}

/// What a search for the first of `needles` in `haystack` has to answer with `found`.
pub open spec fn answers(needles: Set<u8>, haystack: Seq<u8>, found: Option<usize>) -> bool {
    match found {
        Some(i) => first_of(needles, haystack, i as int),
        None => none_of(needles, haystack),
    }
}

/// The index of the first byte of `haystack` that is one of `needles`, or the
/// length of `haystack` if it holds none of them.
pub open spec fn first_index(needles: Set<u8>, haystack: Seq<u8>) -> int {
    if exists|i: int| first_of(needles, haystack, i) {
        choose|i: int| first_of(needles, haystack, i)
    } else {
        haystack.len() as int
    }
}

/// There is one first position at most.
pub proof fn lemma_first_index_at(needles: Set<u8>, haystack: Seq<u8>, i: int)
    requires
        first_of(needles, haystack, i),
    ensures
        first_index(needles, haystack) == i,
{
    let chosen = choose|c: int| first_of(needles, haystack, c);
    assert(first_of(needles, haystack, chosen));
    if chosen < i {
        assert(!needles.contains(haystack[chosen]));
    } else if i < chosen {
        assert(!needles.contains(haystack[i]));
    }
}

/// Where there is no needle, the first index is the end.
pub proof fn lemma_first_index_none(needles: Set<u8>, haystack: Seq<u8>)
    requires
        none_of(needles, haystack),
    ensures
        first_index(needles, haystack) == haystack.len(),
{
    if exists|i: int| first_of(needles, haystack, i) {
        let chosen = choose|c: int| first_of(needles, haystack, c);
        assert(!needles.contains(haystack[chosen]));
    }
}

/// How far a search that answered `found` has looked without meeting a
/// needle: up to the position it found, or to the end of `haystack`.
pub open spec fn clear_len(haystack: Seq<u8>, found: Option<usize>) -> int {
    match found {
        Some(i) => i as int,
        None => haystack.len() as int,
    }
}

/// A search stops at the first index, or at the end if it finds nothing.
pub proof fn lemma_clear_len(needles: Set<u8>, haystack: Seq<u8>, found: Option<usize>)
    requires
        answers(needles, haystack, found),
    ensures
        clear_len(haystack, found) == first_index(needles, haystack),
{
    match found {
        Some(i) => lemma_first_index_at(needles, haystack, i as int),
        None => lemma_first_index_none(needles, haystack),
    }
}

/// Before the place where a search stops there is none of its needles.
pub proof fn lemma_clear_before(needles: Set<u8>, haystack: Seq<u8>, found: Option<usize>)
    requires
        answers(needles, haystack, found),
    ensures
        0 <= clear_len(haystack, found) <= haystack.len(),
        none_of(needles, haystack.take(clear_len(haystack, found))),
        forall|j: int|
            0 <= j < clear_len(haystack, found) ==> !needles.contains(#[trigger] haystack[j]),
{
    let clear = haystack.take(clear_len(haystack, found));
    assert forall|j: int| 0 <= j < clear.len() implies !needles.contains(#[trigger] clear[j]) by {
        assert(clear[j] == haystack[j]);
    }
}

/// `memchr::memchr` returns the index of the first byte of `haystack` that
/// equals `needle`, or `None` if there is no such byte.
pub assume_specification[ memchr::memchr ](needle: u8, haystack: &[u8]) -> (found: Option<usize>)
    ensures
        answers(set![needle], haystack@, found),
;

/// `memchr::memchr2` returns the index of the first byte of `haystack` that
/// equals one of the two needles, or `None` if there is no such byte.
pub assume_specification[ memchr::memchr2 ](needle1: u8, needle2: u8, haystack: &[u8]) -> (found:
    Option<usize>)
    ensures
        answers(set![needle1, needle2], haystack@, found),
;

/// `memchr::memchr3` returns the index of the first byte of `haystack` that
/// equals one of the three needles, or `None` if there is no such byte.
pub assume_specification[ memchr::memchr3 ](
    needle1: u8,
    needle2: u8,
    needle3: u8,
    haystack: &[u8],
) -> (found: Option<usize>)
    ensures
        answers(set![needle1, needle2, needle3], haystack@, found),
;

} // verus!
