//! The per-collection primitives of the store: each executes one SQL
//! statement against the backing database, with a contract over the store's
//! model.
use vstd::prelude::*;

pub mod file_tags;
pub mod files;
pub mod tags;

verus! {

/// Linear membership test on a vector of surrogate ids.
pub(crate) fn contains_id(v: &Vec<i64>, x: i64) -> (r: bool)
    ensures
        r == v@.contains(x),
{
    let mut i: usize = 0;
    while i < v.len()
        invariant
            0 <= i <= v@.len(),
            forall|k: int| 0 <= k < i ==> v@[k] != x,
        decreases v@.len() - i,
    {
        if v[i] == x {
            assert(v@.contains(x));
            return true;
        }
        i += 1;
    }
    assert(!v@.contains(x));
    false
}

/// Does the haystack contain every needle?
pub(crate) fn contains_all(haystack: &Vec<i64>, needles: &Vec<i64>) -> (r: bool)
    ensures
        r == (forall|j: int|
            0 <= j < needles@.len() ==> haystack@.contains(#[trigger] needles@[j])),
{
    let mut j: usize = 0;
    while j < needles.len()
        invariant
            0 <= j <= needles@.len(),
            forall|k: int| 0 <= k < j ==> haystack@.contains(#[trigger] needles@[k]),
        decreases needles@.len() - j,
    {
        if !contains_id(haystack, needles[j]) {
            return false;
        }
        j += 1;
    }
    true
}

} // verus!
