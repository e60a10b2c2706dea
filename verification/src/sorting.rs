//! Sorting, from the `itertools` crate.
use vstd::prelude::*;

use itertools::Itertools;

verus! {

/// Calls `itertools::Itertools::sorted_by_key` on `v`, keyed by the first
/// component of each pair.
///
/// Trusted: the result is a permutation of `v`, ordered by the first
/// component; the sort is stable, so when the second components of `v` are
/// increasing, pairs with equal first components keep that order.
#[verifier::external_body]
pub(crate) fn sorted_by_first(v: Vec<(u8, usize)>) -> (r: Vec<(u8, usize)>)
    ensures
        r@.to_multiset() == v@.to_multiset(),
        r@.len() == v@.len(),
        forall|i: int, j: int| 0 <= i < j < r@.len() ==> r@[i].0 <= r@[j].0,
        (forall|a: int, b: int| 0 <= a < b < v@.len() ==> v@[a].1 < v@[b].1) ==> forall|
            i: int,
            j: int,
        |
            0 <= i < j < r@.len() && r@[i].0 == r@[j].0 ==> r@[i].1 < r@[j].1,
{
    v.into_iter().sorted_by_key(|p| p.0).collect()
}

} // verus!
