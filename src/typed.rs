//! The scalar reduction specialised to `i32`.
use vstd::prelude::*;
use crate::generic::scan_extreme;
use crate::order::{
    is_first_max, is_first_min, lemma_integer_orders, lemma_scan_is_first_extreme, scan_index,
};

verus! {

/// Index of the smallest element of a non-empty `arr`, the first of equal ones.
pub fn simple_argmin_i32(arr: &[i32]) -> (r: usize)
    requires
        arr@.len() > 0,
    ensures
        r == scan_index(arr@, false),
        is_first_min(arr@, r as int),
{
    proof {
        lemma_integer_orders();
        lemma_scan_is_first_extreme(arr@, false);
    }
    scan_extreme(arr, false)
}

/// Index of the largest element of a non-empty `arr`, the first of equal ones.
pub fn simple_argmax_i32(arr: &[i32]) -> (r: usize)
    requires
        arr@.len() > 0,
    ensures
        r == scan_index(arr@, true),
        is_first_max(arr@, r as int),
{
    proof {
        lemma_integer_orders();
        lemma_scan_is_first_extreme(arr@, true);
    }
    scan_extreme(arr, true)
}

} // verus!
