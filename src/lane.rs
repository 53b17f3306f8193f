//! The lane kernel: a lane-parallel reduction over a lane-aligned slice.
//!
//! Lane `l` of the running registers holds the best `(value, index)` among
//! the elements at positions `l`, `l + lanes`, `l + 2 * lanes`, ... seen so
//! far. Once the slice is consumed, the registers are reduced to one extreme
//! value, the lanes holding another value are masked out of the index
//! register, and the lowest surviving index is reported.
use vstd::prelude::*;
use vstd::std_specs::cmp::PartialOrdSpec;
use crate::generic::{improves, scan_extreme};
use crate::order::{
    beats, is_first_extreme, lemma_beats_chain, lemma_beats_strict, lemma_integer_orders,
    lemma_scan_is_first_extreme, lt, total_order,
};

verus! {

/// The lane registers after the first `seen` elements of `s`: each lane holds
/// one of its own elements, at global index `offset` plus its position; no
/// element seen beats its lane's value; and an element that equals its lane's
/// value stands at or after that lane's index.
pub open spec fn lanes_hold<T: PartialOrd>(
    s: Seq<T>,
    values: Seq<T>,
    indices: Seq<usize>,
    offset: int,
    lanes: int,
    seen: int,
    max: bool,
) -> bool {
    &&& values.len() == lanes
    &&& indices.len() == lanes
    &&& forall|l: int|
        0 <= l < lanes ==> offset <= #[trigger] indices[l] < offset + seen && values[l] == s[indices[l]
            - offset]
    &&& forall|p: int| 0 <= p < seen ==> !beats(#[trigger] s[p], values[p % lanes], max)
    &&& forall|p: int|
        0 <= p < seen ==> (!beats(values[p % lanes], #[trigger] s[p], max) ==> indices[p % lanes]
            <= offset + p)
}

/// Position `base + j` falls in lane `j` when `base` is a whole number of lanes.
proof fn lemma_lane_of(base: int, j: int, lanes: int)
    requires
        lanes > 0,
        base >= 0,
        base % lanes == 0,
        0 <= j < lanes,
    ensures
        (base + j) % lanes == j,
        (base + lanes) % lanes == 0,
{
    vstd::arithmetic::div_mod::lemma_fundamental_div_mod(base, lanes);
    let q = base / lanes;
    vstd::arithmetic::mul::lemma_mul_is_commutative(q, lanes);
    vstd::arithmetic::div_mod::lemma_fundamental_div_mod_converse(base + j, lanes, q, j);
    assert((q + 1) * lanes == q * lanes + lanes) by (nonlinear_arith);
    vstd::arithmetic::div_mod::lemma_fundamental_div_mod_converse(base + lanes, lanes, q + 1, 0);
}

/// Below a length that is a whole number of lanes, a whole number of lanes
/// leaves room for one more group.
proof fn lemma_next_group(base: int, n: int, lanes: int)
    requires
        0 < lanes <= base < n,
        base % lanes == 0,
        n % lanes == 0,
    ensures
        base + lanes <= n,
        (base + lanes) % lanes == 0,
{
    vstd::arithmetic::div_mod::lemma_fundamental_div_mod(base, lanes);
    vstd::arithmetic::div_mod::lemma_fundamental_div_mod(n, lanes);
    let qb = base / lanes;
    let qn = n / lanes;
    assert(qb < qn) by (nonlinear_arith)
        requires
            lanes * qb < lanes * qn,
            lanes > 0,
    ;
    assert(lanes * qb + lanes <= lanes * qn) by (nonlinear_arith)
        requires
            qb < qn,
            lanes > 0,
    ;
    lemma_lane_of(base, 0, lanes);
}

/// Loads the first group of `lanes` elements into the value register and
/// seeds the index register with their global indices.
fn load_lanes<T: Copy + PartialOrd>(sim_arr: &[T], rem_offset: usize, lanes: usize, max: bool) -> (r: (
    Vec<T>,
    Vec<usize>,
))
    requires
        total_order::<T>(),
        0 < lanes <= sim_arr@.len(),
        rem_offset + sim_arr@.len() <= usize::MAX,
    ensures
        lanes_hold(sim_arr@, r.0@, r.1@, rem_offset as int, lanes as int, lanes as int, max),
{
    let ghost s = sim_arr@;
    let ghost off = rem_offset as int;
    let ghost ln = lanes as int;
    let mut values: Vec<T> = Vec::new();
    let mut indices: Vec<usize> = Vec::new();
    let mut j: usize = 0;
    while j < lanes
        invariant
            j <= lanes <= s.len(),
            s == sim_arr@,
            off == rem_offset,
            off + s.len() <= usize::MAX,
            values@.len() == j,
            indices@.len() == j,
            forall|l: int| 0 <= l < j ==> #[trigger] values@[l] == s[l] && indices@[l] == off + l,
        decreases lanes - j,
    {
        values.push(sim_arr[j]);
        indices.push(rem_offset + j);
        j = j + 1;
    }
    proof {
        assert forall|l: int| 0 <= l < ln implies off <= #[trigger] indices@[l] < off + ln
            && values@[l] == s[indices@[l] - off] by {
            assert(values@[l] == s[l]);
        }
        assert forall|p: int| 0 <= p < ln implies !beats(#[trigger] s[p], values@[p % ln], max) && (
        !beats(values@[p % ln], s[p], max) ==> indices@[p % ln] <= off + p) by {
            vstd::arithmetic::div_mod::lemma_small_mod(p as nat, ln as nat);
            assert(values@[p] == s[p]);
            lemma_beats_strict(s[p], s[p], max);
        }
    }
    (values, indices)
}

/// Streams the group of `lanes` elements at `base` through the registers:
/// each lane takes the new element when it strictly improves on the lane's
/// value, and keeps its earlier element otherwise.
fn stream_group<T: Copy + PartialOrd>(
    sim_arr: &[T],
    rem_offset: usize,
    lanes: usize,
    base: usize,
    values: &mut Vec<T>,
    indices: &mut Vec<usize>,
    max: bool,
)
    requires
        total_order::<T>(),
        0 < lanes <= base,
        base + lanes <= sim_arr@.len(),
        base as int % lanes as int == 0,
        rem_offset + sim_arr@.len() <= usize::MAX,
        lanes_hold(
            sim_arr@,
            old(values)@,
            old(indices)@,
            rem_offset as int,
            lanes as int,
            base as int,
            max,
        ),
    ensures
        lanes_hold(
            sim_arr@,
            final(values)@,
            final(indices)@,
            rem_offset as int,
            lanes as int,
            base + lanes,
            max,
        ),
{
    let ghost s = sim_arr@;
    let ghost off = rem_offset as int;
    let ghost ln = lanes as int;
    let mut j: usize = 0;
    while j < lanes
        invariant
            j <= lanes <= base,
            base + lanes <= s.len(),
            ln == lanes,
            s == sim_arr@,
            off == rem_offset,
            off + s.len() <= usize::MAX,
            base as int % ln == 0,
            total_order::<T>(),
            lanes_hold(s, values@, indices@, off, ln, base + j, max),
        decreases lanes - j,
    {
        let p = base + j;
        let item = sim_arr[p];
        let ghost old_values = values@;
        proof {
            lemma_lane_of(base as int, j as int, ln);
        }
        if improves(&item, &values[j], max) {
            values.set(j, item);
            indices.set(j, rem_offset + p);
            proof {
                assert forall|q: int| 0 <= q < p + 1 implies !beats(
                    #[trigger] s[q],
                    values@[q % ln],
                    max,
                ) && (!beats(values@[q % ln], s[q], max) ==> indices@[q % ln] <= off + q) by {
                    if q < p && q % ln == j {
                        lemma_beats_chain(item, old_values[j as int], s[q], max);
                        lemma_beats_strict(item, s[q], max);
                    } else if q == p {
                        lemma_beats_strict(item, item, max);
                    }
                }
            }
        }
        j = j + 1;
    }
}

/// Masks the index register: a lane whose value differs from `best` gets
/// `usize::MAX`, which no real index reaches.
fn mask_lanes<T: Copy + PartialOrd>(values: &Vec<T>, indices: &Vec<usize>, best: T, max: bool) -> (r: Vec<
    usize,
>)
    requires
        T::obeys_partial_cmp_spec(),
        values@.len() == indices@.len(),
    ensures
        r@.len() == values@.len(),
        forall|l: int|
            0 <= l < values@.len() ==> #[trigger] r@[l] == if beats(best, values@[l], max) {
                usize::MAX
            } else {
                indices@[l]
            },
{
    let mut masked: Vec<usize> = Vec::new();
    let mut j: usize = 0;
    while j < values.len()
        invariant
            j <= values@.len(),
            values@.len() == indices@.len(),
            masked@.len() == j,
            T::obeys_partial_cmp_spec(),
            forall|l: int|
                0 <= l < j ==> #[trigger] masked@[l] == if beats(best, values@[l], max) {
                    usize::MAX
                } else {
                    indices@[l]
                },
        decreases values@.len() - j,
    {
        if improves(&best, &values[j], max) {
            masked.push(usize::MAX);
        } else {
            masked.push(indices[j]);
        }
        j = j + 1;
    }
    masked
}

/// Once every element went through the registers, the lane holding the
/// extreme value with the lowest index holds the first occurrence of the
/// extreme of the whole slice.
proof fn lemma_lowest_surviving_lane<T: PartialOrd>(
    s: Seq<T>,
    values: Seq<T>,
    indices: Seq<usize>,
    masked: Seq<usize>,
    off: int,
    lanes: int,
    c0: int,
    c: int,
    max: bool,
)
    requires
        total_order::<T>(),
        lanes > 0,
        off + s.len() <= usize::MAX,
        lanes_hold(s, values, indices, off, lanes, s.len() as int, max),
        is_first_extreme(values, c0, max),
        is_first_extreme(masked, c, false),
        masked.len() == lanes,
        forall|l: int|
            0 <= l < lanes ==> #[trigger] masked[l] == if beats(values[c0], values[l], max) {
                usize::MAX
            } else {
                indices[l]
            },
    ensures
        off <= indices[c],
        is_first_extreme(s, indices[c] - off, max),
        values[c] == s[indices[c] - off],
{
    let best = values[c0];
    lemma_integer_orders();
    lemma_beats_strict(best, best, max);
    assert(masked[c0] == indices[c0]);
    assert(!lt(masked[c0], masked[c]));
    assert(masked[c] <= masked[c0]);
    assert(!beats(best, values[c], max));
    let i = indices[c] - off;
    let v = values[c];
    assert forall|p: int| 0 <= p < s.len() implies !beats(#[trigger] s[p], v, max) by {
        let l = p % lanes;
        vstd::arithmetic::div_mod::lemma_mod_bound(p, lanes);
        assert(!beats(values[l], best, max));
        lemma_beats_chain(s[p], values[l], best, max);
        lemma_beats_chain(s[p], best, v, max);
    }
    assert forall|p: int| 0 <= p < i implies beats(v, #[trigger] s[p], max) by {
        let l = p % lanes;
        vstd::arithmetic::div_mod::lemma_mod_bound(p, lanes);
        if !beats(v, s[p], max) {
            assert(!beats(values[l], best, max));
            lemma_beats_chain(best, v, s[p], max);
            lemma_beats_chain(best, values[l], s[p], max);
            lemma_beats_chain(values[l], best, s[p], max);
            assert(masked[l] == indices[l]);
            assert(!lt(masked[l], masked[c]));
        }
    }
}

/// Reduces the lane-aligned `sim_arr` with `lanes` lanes and returns its
/// extreme value with the global index of its first occurrence, global
/// indices being positions in `sim_arr` shifted by `rem_offset`.
pub(crate) fn core_extreme<T: Copy + PartialOrd>(
    sim_arr: &[T],
    rem_offset: usize,
    lanes: usize,
    max: bool,
) -> (r: (T, usize))
    requires
        total_order::<T>(),
        lanes > 0,
        sim_arr@.len() >= lanes,
        sim_arr@.len() as int % lanes as int == 0,
        rem_offset + sim_arr@.len() <= usize::MAX,
    ensures
        rem_offset <= r.1,
        is_first_extreme(sim_arr@, r.1 - rem_offset, max),
        r.0 == sim_arr@[r.1 - rem_offset],
{
    let n = sim_arr.len();
    let ghost ln = lanes as int;
    let (mut values, mut indices) = load_lanes(sim_arr, rem_offset, lanes, max);
    proof {
        vstd::arithmetic::div_mod::lemma_mod_self_0(ln);
    }
    let mut base: usize = lanes;
    while base < n
        invariant
            0 < lanes <= base <= n,
            n == sim_arr@.len(),
            ln == lanes,
            base as int % ln == 0,
            n as int % ln == 0,
            rem_offset + n <= usize::MAX,
            total_order::<T>(),
            lanes_hold(sim_arr@, values@, indices@, rem_offset as int, ln, base as int, max),
        decreases n - base,
    {
        proof {
            lemma_next_group(base as int, n as int, ln);
        }
        stream_group(sim_arr, rem_offset, lanes, base, &mut values, &mut indices, max);
        base = base + lanes;
    }
    let c0 = scan_extreme(values.as_slice(), max);
    let best = values[c0];
    let masked = mask_lanes(&values, &indices, best, max);
    let c = scan_extreme(masked.as_slice(), false);
    proof {
        lemma_integer_orders();
        lemma_scan_is_first_extreme(values@, max);
        lemma_scan_is_first_extreme(masked@, false);
        lemma_lowest_surviving_lane(
            sim_arr@,
            values@,
            indices@,
            masked@,
            rem_offset as int,
            ln,
            c0 as int,
            c as int,
            max,
        );
    }
    (values[c], indices[c])
}

} // verus!
