//! Substring search over bytes.
//!
//! The parser locates fixed sentinel substrings (description bounds, tag
//! keywords) with memchr's searcher; its answer is pinned to the first true
//! occurrence of the needle.

use vstd::prelude::*;

verus! {

/// `needle` occurs in `hay` beginning at index `i`.
pub open spec fn occurs_at(hay: Seq<u8>, needle: Seq<u8>, i: int) -> bool {
    0 <= i && i + needle.len() <= hay.len() && hay.subrange(i, i + needle.len()) == needle
}

/// `needle` occurs somewhere in `hay`.
pub open spec fn occurs(hay: Seq<u8>, needle: Seq<u8>) -> bool {
    exists|i: int| occurs_at(hay, needle, i)
}

/// The first index at which `needle` occurs in `hay`, or -1 if it never does.
pub open spec fn find_sub(hay: Seq<u8>, needle: Seq<u8>) -> int
    decreases hay.len(),
{
    if needle.len() == 0 {
        0
    } else if hay.len() < needle.len() {
        -1
    } else if hay.subrange(0, needle.len() as int) == needle {
        0
    } else {
        let r = find_sub(hay.drop_first(), needle);
        if r < 0 {
            -1
        } else {
            r + 1
        }
    }
}

/// `find_sub` names the first occurrence: the needle occurs there and nowhere
/// earlier, and a negative answer means it occurs nowhere.
pub proof fn lemma_find_sub(hay: Seq<u8>, needle: Seq<u8>)
    ensures
        find_sub(hay, needle) >= 0 ==> occurs_at(hay, needle, find_sub(hay, needle)) && (forall|
            j: int,
        | 0 <= j < find_sub(hay, needle) ==> !occurs_at(hay, needle, j)),
        find_sub(hay, needle) < 0 ==> find_sub(hay, needle) == -1 && !occurs(hay, needle),
    decreases hay.len(),
{
    if needle.len() == 0 {
        assert(hay.subrange(0, 0) =~= needle);
        assert(occurs_at(hay, needle, 0));
    } else if hay.len() < needle.len() {
        assert forall|i: int| !occurs_at(hay, needle, i) by {}
    } else if hay.subrange(0, needle.len() as int) == needle {
        assert(occurs_at(hay, needle, 0));
    } else {
        lemma_find_sub(hay.drop_first(), needle);
        let t = hay.drop_first();
        let r = find_sub(t, needle);
        assert forall|j: int| 1 <= j && j + needle.len() <= hay.len() implies (occurs_at(
            hay,
            needle,
            j,
        ) <==> occurs_at(t, needle, j - 1)) by {
            assert(hay.subrange(j, j + needle.len()) =~= t.subrange(j - 1, j - 1 + needle.len()));
        }
        if r >= 0 {
            assert(hay.subrange(r + 1, r + 1 + needle.len()) =~= t.subrange(r, r + needle.len()));
            assert(occurs_at(hay, needle, r + 1));
            assert forall|j: int| 0 <= j < r + 1 implies !occurs_at(hay, needle, j) by {
                if j == 0 {
                    if occurs_at(hay, needle, 0) {
                        assert(hay.subrange(0, needle.len() as int) == needle);
                    }
                } else {
                    assert(!occurs_at(t, needle, j - 1));
                }
            }
        } else {
            assert forall|j: int| !occurs_at(hay, needle, j) by {
                if occurs_at(hay, needle, j) {
                    if j == 0 {
                        assert(hay.subrange(0, needle.len() as int) == needle);
                    } else {
                        assert(occurs_at(t, needle, j - 1));
                    }
                }
            }
        }
    }
}

/// Finds the first occurrence of `needle` in `haystack`.
///
/// Relies on `memchr::memmem::find`: it returns the index of the first
/// occurrence of the needle, and nothing on a haystack that holds none.
#[verifier::external_body]
fn memmem_find(haystack: &[u8], needle: &[u8]) -> (r: Option<usize>)
    requires
        needle@.len() >= 1,
    ensures
        r matches Some(i) ==> occurs_at(haystack@, needle@, i as int) && (forall|j: int|
            0 <= j < i ==> !occurs_at(haystack@, needle@, j)),
        r is None ==> !occurs(haystack@, needle@),
{
    memchr::memmem::find(haystack, needle)
}

/// Decides whether `needle` occurs anywhere in `haystack`.
pub fn contains_sub(haystack: &[u8], needle: &[u8]) -> (r: bool)
    ensures
        r == occurs(haystack@, needle@),
{
    if needle.len() == 0 {
        proof {
            assert(haystack@.subrange(0, 0) =~= needle@);
            assert(occurs_at(haystack@, needle@, 0));
        }
        return true;
    }
    match memmem_find(haystack, needle) {
        Some(_) => true,
        None => false,
    }
}

/// Finds the first occurrence of `needle` in `haystack`, as `find_sub` names
/// it.
pub fn find_first(haystack: &[u8], needle: &[u8]) -> (r: Option<usize>)
    requires
        needle@.len() >= 1,
    ensures
        r matches Some(i) ==> i == find_sub(haystack@, needle@),
        r is None ==> find_sub(haystack@, needle@) == -1,
{
    let r = memmem_find(haystack, needle);
    proof {
        lemma_find_sub(haystack@, needle@);
        let fs = find_sub(haystack@, needle@);
        match r {
            Some(i) => {
                if fs < 0 {
                    assert(occurs_at(haystack@, needle@, i as int));
                    assert(occurs(haystack@, needle@));
                } else {
                    if fs < i {
                        assert(!occurs_at(haystack@, needle@, fs));
                    }
                    if i < fs {
                        assert(!occurs_at(haystack@, needle@, i as int));
                    }
                }
            },
            None => {
                if fs >= 0 {
                    assert(occurs_at(haystack@, needle@, fs));
                    assert(occurs(haystack@, needle@));
                }
            },
        }
    }
    r
}

} // verus!
