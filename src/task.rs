//! The partitioner and the result merger around the lane kernel.
use core::cmp::Ordering;
use vstd::prelude::*;
use vstd::std_specs::cmp::PartialOrdSpec;
use crate::order::{gt, lt};

verus! {

/// Length of the prefix that the partitioner leaves to the scalar scan: all
/// of a slice shorter than two lanes, else what is left over after whole lanes.
pub open spec fn remainder_len(n: int, lane_size: int) -> int {
    if n < 2 * lane_size {
        n
    } else {
        n % lane_size
    }
}

/// Splits `arr` into a remainder prefix for the scalar scan and a suffix whose
/// length is a multiple of `lane_size`, at least two lanes long. A slice
/// shorter than two lanes goes to the scalar scan whole; an empty half is
/// `None`, so both are `None` only for an empty slice.
pub fn split_array<T: Copy>(arr: &[T], lane_size: usize) -> (r: (Option<&[T]>, Option<&[T]>))
    requires
        lane_size > 0,
    ensures
        ({
            let n = arr@.len() as int;
            let k = remainder_len(n, lane_size as int);
            &&& k == 0 <==> r.0 is None
            &&& r.0 matches Some(rem) ==> rem@ == arr@.subrange(0, k)
            &&& k == n <==> r.1 is None
            &&& r.1 matches Some(sim) ==> sim@ == arr@.subrange(k, n)
            &&& k < n ==> (n - k) % lane_size as int == 0 && n - k >= 2 * lane_size
        }),
{
    let n = arr.len();
    if n / 2 < lane_size {
        if n == 0 {
            return (None, None);
        }
        assert(arr@.subrange(0, n as int) =~= arr@);
        return (Some(arr), None);
    }
    let k = n % lane_size;
    proof {
        assert(n >= 2 * lane_size);
        vstd::arithmetic::div_mod::lemma_fundamental_div_mod(n as int, lane_size as int);
        let q = n as int / lane_size as int;
        vstd::arithmetic::mul::lemma_mul_is_commutative(q, lane_size as int);
        assert(n - k == q * lane_size);
        vstd::arithmetic::div_mod::lemma_mod_multiples_basic(q, lane_size as int);
        assert(k < lane_size);
        assert(q * lane_size > lane_size) by (nonlinear_arith)
            requires
                q * lane_size + k >= 2 * lane_size,
                k < lane_size,
                lane_size > 0,
        ;
        assert(q >= 2) by (nonlinear_arith)
            requires
                q * lane_size > lane_size,
                lane_size > 0,
        ;
        assert(q * lane_size >= 2 * lane_size) by (nonlinear_arith)
            requires
                q >= 2,
                lane_size > 0,
        ;
    }
    let (left_arr, right_arr) = arr.split_at(k);
    if left_arr.len() == 0 {
        (None, Some(right_arr))
    } else {
        (Some(left_arr), Some(right_arr))
    }
}

/// Merges the remainder's `(value, index)` with the lane kernel's for the
/// minimum: the strictly smaller value wins, and of equal values the lower
/// index.
pub fn find_final_index_min<T: PartialOrd>(remainder_result: (T, usize), simd_result: (T, usize)) -> (r: Option<usize>)
    requires
        T::obeys_partial_cmp_spec(),
        remainder_result.0.partial_cmp_spec(&simd_result.0) is Some,
    ensures
        r == Some(
            if lt(remainder_result.0, simd_result.0) {
                remainder_result.1
            } else if gt(remainder_result.0, simd_result.0) {
                simd_result.1
            } else if remainder_result.1 <= simd_result.1 {
                remainder_result.1
            } else {
                simd_result.1
            },
        ),
{
    let result = match remainder_result.0.partial_cmp(&simd_result.0).unwrap() {
        Ordering::Less => remainder_result.1,
        Ordering::Equal => if remainder_result.1 <= simd_result.1 {
            remainder_result.1
        } else {
            simd_result.1
        },
        Ordering::Greater => simd_result.1,
    };
    Some(result)
}

/// Merges the remainder's `(value, index)` with the lane kernel's for the
/// maximum: the strictly larger value wins, and of equal values the lower
/// index.
pub fn find_final_index_max<T: PartialOrd>(remainder_result: (T, usize), simd_result: (T, usize)) -> (r: Option<usize>)
    requires
        T::obeys_partial_cmp_spec(),
        simd_result.0.partial_cmp_spec(&remainder_result.0) is Some,
    ensures
        r == Some(
            if lt(simd_result.0, remainder_result.0) {
                remainder_result.1
            } else if gt(simd_result.0, remainder_result.0) {
                simd_result.1
            } else if remainder_result.1 <= simd_result.1 {
                remainder_result.1
            } else {
                simd_result.1
            },
        ),
{
    let result = match simd_result.0.partial_cmp(&remainder_result.0).unwrap() {
        Ordering::Less => remainder_result.1,
        Ordering::Equal => if remainder_result.1 <= simd_result.1 {
            remainder_result.1
        } else {
            simd_result.1
        },
        Ordering::Greater => simd_result.1,
    };
    Some(result)
}

} // verus!
