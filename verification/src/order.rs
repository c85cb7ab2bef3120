//! Ordering of matrices by height, through `itertools`.

use itertools::Itertools;
use std::cmp::Reverse;
use vstd::prelude::*;

verus! {

/// Orders `(index, height)` entries by height, tallest first, through
/// `Itertools::sorted_by_key` with the key `Reverse(height)`. That sort is
/// documented as stable, so entries of equal height keep their input order;
/// where the input lists the indices in increasing order, equal heights
/// therefore come out with increasing indices. The result is a
/// rearrangement of the input.
#[verifier::external_body]
pub(crate) fn sort_tallest_first(entries: Vec<(usize, usize)>) -> (r: Vec<(usize, usize)>)
    ensures
        r@.to_multiset() == entries@.to_multiset(),
        forall|p: int, q: int| 0 <= p < q < r@.len() ==> r@[p].1 >= r@[q].1,
        (forall|i: int, j: int| 0 <= i < j < entries@.len() ==> entries@[i].0 < entries@[j].0)
            ==> forall|p: int, q: int|
            0 <= p < q < r@.len() && r@[p].1 == r@[q].1 ==> r@[p].0 < r@[q].0,
{
    entries.into_iter().sorted_by_key(|e| Reverse(e.1)).collect()
}

} // verus!
