//! The listing order as a `std::cmp::Ordering`, for the standard sort.

use vstd::prelude::*;
use crate::entry::{compare_entry_keys, listing_order, DirEntry, SortColumn, SortOrder};
use std::cmp::Ordering;

verus! {

/// The listing order of `a` and `b` (see [`listing_order`]).
pub fn compare_entries(a: &DirEntry, b: &DirEntry, col: SortColumn, ord: SortOrder) -> (r: Ordering)
    ensures
        (r == Ordering::Less) == (listing_order(*a, *b, col, ord) < 0),
        (r == Ordering::Equal) == (listing_order(*a, *b, col, ord) == 0),
        (r == Ordering::Greater) == (listing_order(*a, *b, col, ord) > 0),
{
    let k = compare_entry_keys(a, b, col, ord);
    if k < 0 {
        Ordering::Less
    } else if k == 0 {
        Ordering::Equal
    } else {
        Ordering::Greater
    }
}

} // verus!
