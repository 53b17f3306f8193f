//! The typed entry points: partition, reduce both halves, merge.
use vstd::prelude::*;
use vstd::std_specs::cmp::PartialOrdSpec;
use crate::generic::scan_extreme;
use crate::lane::core_extreme;
use crate::order::{
    beats, extreme_index, gt, is_first_extreme, is_first_max, is_first_min, lemma_beats_chain,
    lemma_beats_strict, lemma_first_extreme_is_scan, lemma_first_extreme_unique, lemma_integer_orders,
    lemma_scan_is_first_extreme, lt, scan_index, total_order,
};
use crate::task::{find_final_index_max, find_final_index_min, split_array};

verus! {

/// Lanes of a 128-bit register holding 32-bit values; 16-bit and 8-bit
/// elements are widened into such lanes.
pub const LANES_32: usize = 4;

/// Lanes of a 128-bit register holding 16-bit values.
pub const LANES_16: usize = 8;

/// Shortest 16-bit slice that takes the eight-lane path.
pub const WIDE_16_MIN_LEN: usize = 17;

/// The first extreme of a prefix and the first extreme of the rest combine
/// into the first extreme of the whole: the strictly better value wins, and
/// of equal values the prefix's, which comes first.
proof fn lemma_merge_halves<T: PartialOrd>(s: Seq<T>, k: int, ri: int, si: int, max: bool)
    requires
        total_order::<T>(),
        0 < k < s.len(),
        is_first_extreme(s.subrange(0, k), ri, max),
        k <= si,
        is_first_extreme(s.subrange(k, s.len() as int), si - k, max),
    ensures
        is_first_extreme(
            s,
            if beats(s[ri], s[si], max) {
                ri
            } else if beats(s[si], s[ri], max) {
                si
            } else {
                ri
            },
            max,
        ),
{
    let pre = s.subrange(0, k);
    let suf = s.subrange(k, s.len() as int);
    assert(pre[ri] == s[ri]);
    assert(suf[si - k] == s[si]);
    assert forall|p: int| 0 <= p < k implies !beats(#[trigger] s[p], s[ri], max) && (p < ri
        ==> beats(s[ri], s[p], max)) by {
        assert(pre[p] == s[p]);
    }
    assert forall|p: int| k <= p < s.len() implies !beats(#[trigger] s[p], s[si], max) && (p < si
        ==> beats(s[si], s[p], max)) by {
        assert(suf[p - k] == s[p]);
    }
    if beats(s[ri], s[si], max) {
        assert forall|p: int| 0 <= p < s.len() implies !beats(#[trigger] s[p], s[ri], max) by {
            if p >= k {
                lemma_beats_chain(s[ri], s[si], s[p], max);
                lemma_beats_strict(s[ri], s[p], max);
            }
        }
    } else if beats(s[si], s[ri], max) {
        assert forall|p: int| 0 <= p < s.len() implies !beats(#[trigger] s[p], s[si], max) && (p
            < si ==> beats(s[si], s[p], max)) by {
            if p < k {
                lemma_beats_chain(s[si], s[ri], s[p], max);
                lemma_beats_strict(s[si], s[p], max);
            }
        }
    } else {
        assert forall|p: int| 0 <= p < s.len() implies !beats(#[trigger] s[p], s[ri], max) by {
            if p >= k {
                lemma_beats_chain(s[p], s[si], s[ri], max);
            }
        }
    }
}

/// The lane-kernel reduction of `arr` with `lanes` lanes: `None` for an empty
/// slice, else the index that the scalar scan reports.
pub(crate) fn arg_extreme<T: Copy + PartialOrd>(arr: &[T], lanes: usize, max: bool) -> (r: Option<
    usize,
>)
    requires
        total_order::<T>(),
        lanes > 0,
    ensures
        r == extreme_index(arr@, max),
{
    let ghost s = arr@;
    assert(arr@.len() == arr.len());
    match split_array(arr, lanes) {
        (Some(rem), Some(sim)) => {
            let ghost k = rem@.len() as int;
            let rem_index = scan_extreme(rem, max);
            let rem_result = (rem[rem_index], rem_index);
            let sim_result = core_extreme(sim, rem.len(), lanes, max);
            proof {
                lemma_first_extreme_is_scan(rem@, rem_index as int, max);
                assert(sim@[sim_result.1 - k] == s[sim_result.1 as int]);
                lemma_merge_halves(s, k, rem_index as int, sim_result.1 as int, max);
                let a = rem_result.0;
                let b = sim_result.0;
                assert(lt(a, b) <==> gt(b, a));
                assert(lt(b, a) <==> gt(a, b));
                assert(a.partial_cmp_spec(&b) is Some);
                assert(b.partial_cmp_spec(&a) is Some);
            }
            let r = if max {
                find_final_index_max(rem_result, sim_result)
            } else {
                find_final_index_min(rem_result, sim_result)
            };
            proof {
                lemma_first_extreme_is_scan(s, r.unwrap() as int, max);
            }
            r
        },
        (Some(rem), None) => {
            assert(rem@ =~= s);
            Some(scan_extreme(rem, max))
        },
        (None, Some(sim)) => {
            assert(sim@ =~= s);
            let sim_result = core_extreme(sim, 0, lanes, max);
            proof {
                lemma_first_extreme_is_scan(s, sim_result.1 as int, max);
            }
            Some(sim_result.1)
        },
        (None, None) => None,
    }
}

/// What an entry point for the minimum promises: the scalar scan's answer,
/// which is the first index of a smallest element, and `None` only when empty.
pub open spec fn argmin_result<T: PartialOrd>(s: Seq<T>, r: Option<usize>) -> bool {
    &&& r == extreme_index(s, false)
    &&& match r {
        Some(i) => is_first_min(s, i as int),
        None => s.len() == 0,
    }
}

/// What an entry point for the maximum promises: the scalar scan's answer,
/// which is the first index of a largest element, and `None` only when empty.
pub open spec fn argmax_result<T: PartialOrd>(s: Seq<T>, r: Option<usize>) -> bool {
    &&& r == extreme_index(s, true)
    &&& match r {
        Some(i) => is_first_max(s, i as int),
        None => s.len() == 0,
    }
}

proof fn lemma_extreme_index_is_first<T: PartialOrd>(s: Seq<T>, max: bool)
    requires
        total_order::<T>(),
        s.len() <= usize::MAX,
    ensures
        s.len() > 0 ==> is_first_extreme(s, extreme_index(s, max).unwrap() as int, max),
{
    if s.len() > 0 {
        lemma_scan_is_first_extreme(s, max);
    }
}

/// On every slice, the lane-kernel entry points report what the scalar scan
/// reports: given what an entry point for the minimum and one for the maximum
/// returned on a non-empty slice, and what `simple_argmin` and
/// `simple_argmax` returned on it, the two pairs agree.
pub proof fn lemma_lanes_agree_with_scan<T: PartialOrd>(
    s: Seq<T>,
    lane_min: Option<usize>,
    lane_max: Option<usize>,
    scan_min: usize,
    scan_max: usize,
)
    requires
        s.len() > 0,
        argmin_result(s, lane_min),
        argmax_result(s, lane_max),
        scan_min == scan_index(s, false),
        scan_max == scan_index(s, true),
    ensures
        lane_min == Some(scan_min),
        lane_max == Some(scan_max),
{
}

/// The entry points hold no state: two calls on the same slice contents
/// report the same index, since the first index of an extreme is unique.
pub proof fn lemma_repeated_calls_agree<T: PartialOrd>(
    s: Seq<T>,
    first: Option<usize>,
    second: Option<usize>,
    max: bool,
)
    requires
        total_order::<T>(),
        if max {
            argmax_result(s, first) && argmax_result(s, second)
        } else {
            argmin_result(s, first) && argmin_result(s, second)
        },
    ensures
        first == second,
{
    if s.len() > 0 {
        lemma_first_extreme_unique(s, first.unwrap() as int, second.unwrap() as int, max);
    }
}

/// Index of the smallest element of `arr`, the first of equal ones; `None`
/// when `arr` is empty.
pub fn argmin_i32(arr: &[i32]) -> (r: Option<usize>)
    ensures
        argmin_result(arr@, r),
{
    proof {
        lemma_integer_orders();
        assert(arr@.len() == arr.len());
        lemma_extreme_index_is_first(arr@, false);
    }
    arg_extreme(arr, LANES_32, false)
}

/// Index of the largest element of `arr`, the first of equal ones; `None`
/// when `arr` is empty.
pub fn argmax_i32(arr: &[i32]) -> (r: Option<usize>)
    ensures
        argmax_result(arr@, r),
{
    proof {
        lemma_integer_orders();
        assert(arr@.len() == arr.len());
        lemma_extreme_index_is_first(arr@, true);
    }
    arg_extreme(arr, LANES_32, true)
}

/// Lanes for a 16-bit slice of length `n`: eight narrow lanes once the slice
/// is long enough to amortise the longer horizontal reduction, else four
/// widened ones.
fn lanes_for_16(n: usize) -> (r: usize)
    ensures
        r == if n >= WIDE_16_MIN_LEN {
            LANES_16
        } else {
            LANES_32
        },
{
    if n >= WIDE_16_MIN_LEN {
        LANES_16
    } else {
        LANES_32
    }
}

/// Index of the smallest element of `arr`, the first of equal ones; `None`
/// when `arr` is empty.
pub fn argmin_i16(arr: &[i16]) -> (r: Option<usize>)
    ensures
        argmin_result(arr@, r),
{
    proof {
        lemma_integer_orders();
        assert(arr@.len() == arr.len());
        lemma_extreme_index_is_first(arr@, false);
    }
    arg_extreme(arr, lanes_for_16(arr.len()), false)
}

/// Index of the largest element of `arr`, the first of equal ones; `None`
/// when `arr` is empty.
pub fn argmax_i16(arr: &[i16]) -> (r: Option<usize>)
    ensures
        argmax_result(arr@, r),
{
    proof {
        lemma_integer_orders();
        assert(arr@.len() == arr.len());
        lemma_extreme_index_is_first(arr@, true);
    }
    arg_extreme(arr, lanes_for_16(arr.len()), true)
}

/// Index of the smallest element of `arr`, the first of equal ones; `None`
/// when `arr` is empty.
pub fn argmin_u16(arr: &[u16]) -> (r: Option<usize>)
    ensures
        argmin_result(arr@, r),
{
    proof {
        lemma_integer_orders();
        assert(arr@.len() == arr.len());
        lemma_extreme_index_is_first(arr@, false);
    }
    arg_extreme(arr, LANES_32, false)
}

/// Index of the largest element of `arr`, the first of equal ones; `None`
/// when `arr` is empty.
pub fn argmax_u16(arr: &[u16]) -> (r: Option<usize>)
    ensures
        argmax_result(arr@, r),
{
    proof {
        lemma_integer_orders();
        assert(arr@.len() == arr.len());
        lemma_extreme_index_is_first(arr@, true);
    }
    arg_extreme(arr, LANES_32, true)
}

/// Index of the smallest element of `arr`, the first of equal ones; `None`
/// when `arr` is empty.
pub fn argmin_u8(arr: &[u8]) -> (r: Option<usize>)
    ensures
        argmin_result(arr@, r),
{
    proof {
        lemma_integer_orders();
        assert(arr@.len() == arr.len());
        lemma_extreme_index_is_first(arr@, false);
    }
    arg_extreme(arr, LANES_32, false)
}

/// Index of the largest element of `arr`, the first of equal ones; `None`
/// when `arr` is empty.
pub fn argmax_u8(arr: &[u8]) -> (r: Option<usize>)
    ensures
        argmax_result(arr@, r),
{
    proof {
        lemma_integer_orders();
        assert(arr@.len() == arr.len());
        lemma_extreme_index_is_first(arr@, true);
    }
    arg_extreme(arr, LANES_32, true)
}

} // verus!
