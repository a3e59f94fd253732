//! Bookkeeping of the pages laid out on screen, keyed by page number.
use std::collections::BTreeMap;
use vstd::prelude::*;

verus! {

/// The number that stands for "no page yet" when looking for the first laid-out page.
pub const NO_FIRST_PAGE: usize = 100000000;

/// The first and last page numbers among the keys of a layout map. The first
/// starts at [`NO_FIRST_PAGE`] and the last at 0, so an empty map gives
/// `(NO_FIRST_PAGE, 0)`, and a key above [`NO_FIRST_PAGE`] is never the first.
pub fn min_max_keys<T>(map: &BTreeMap<usize, T>) -> (r: (usize, usize))
    ensures
        r.0 <= NO_FIRST_PAGE,
        r.0 == NO_FIRST_PAGE || map@.dom().contains(r.0),
        forall|k: usize| map@.dom().contains(k) ==> r.0 <= k,
        r.1 == 0 || map@.dom().contains(r.1),
        forall|k: usize| map@.dom().contains(k) ==> k <= r.1,
{
    broadcast use vstd::std_specs::btree::group_btree_axioms;

    let mut min: usize = NO_FIRST_PAGE;
    let mut max: usize = 0;
    for key in it: map.keys()
        invariant
            min <= NO_FIRST_PAGE,
            min == NO_FIRST_PAGE || map@.dom().contains(min),
            forall|i: int| 0 <= i < it.index() ==> min <= *it.seq()[i],
            max == 0 || map@.dom().contains(max),
            forall|i: int| 0 <= i < it.index() ==> *it.seq()[i] <= max,
    {
        if *key < min {
            min = *key;
        }
        if *key > max {
            max = *key;
        }
    }
    (min, max)
}

} // verus!
