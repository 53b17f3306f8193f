//! The scalar reduction: one left-to-right scan over any ordered type.
use vstd::prelude::*;
use vstd::std_specs::cmp::PartialOrdSpec;
use crate::order::{beats, scan_index};

verus! {

/// Whether `a` strictly improves on `b`: `a < b` for the minimum, `a > b`
/// for the maximum.
pub(crate) fn improves<T: PartialOrd>(a: &T, b: &T, max: bool) -> (r: bool)
    requires
        T::obeys_partial_cmp_spec(),
    ensures
        r == beats(*a, *b, max),
{
    if max {
        *a > *b
    } else {
        *a < *b
    }
}

/// Scans `arr` once and returns the index of its extreme element, replacing
/// the running extreme only on strict improvement.
pub(crate) fn scan_extreme<T: Copy + PartialOrd>(arr: &[T], max: bool) -> (r: usize)
    requires
        arr@.len() > 0,
        T::obeys_partial_cmp_spec(),
    ensures
        r == scan_index(arr@, max),
        r < arr@.len(),
{
    let mut best_index: usize = 0;
    let mut best = arr[0];
    let mut i: usize = 1;
    while i < arr.len()
        invariant
            1 <= i <= arr@.len(),
            T::obeys_partial_cmp_spec(),
            best_index == scan_index(arr@.subrange(0, i as int), max),
            best_index < i,
            best == arr@[best_index as int],
        decreases arr@.len() - i,
    {
        proof {
            let p = arr@.subrange(0, i as int + 1);
            assert(p.drop_last() =~= arr@.subrange(0, i as int));
        }
        let item = arr[i];
        if improves(&item, &best, max) {
            best = item;
            best_index = i;
        }
        i = i + 1;
    }
    assert(arr@.subrange(0, arr@.len() as int) =~= arr@);
    best_index
}

/// Index of the smallest element of a non-empty `arr`; of equal smallest
/// elements, the first.
pub fn simple_argmin<T: Copy + PartialOrd>(arr: &[T]) -> (r: usize)
    requires
        arr@.len() > 0,
        T::obeys_partial_cmp_spec(),
    ensures
        r == scan_index(arr@, false),
        r < arr@.len(),
{
    scan_extreme(arr, false)
}

/// Index of the largest element of a non-empty `arr`; of equal largest
/// elements, the first.
pub fn simple_argmax<T: Copy + PartialOrd>(arr: &[T]) -> (r: usize)
    requires
        arr@.len() > 0,
        T::obeys_partial_cmp_spec(),
    ensures
        r == scan_index(arr@, true),
        r < arr@.len(),
{
    scan_extreme(arr, true)
}

} // verus!
