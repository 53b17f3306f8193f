//! The order the reductions rely on, the scan that defines their results,
//! and the facts about it that the kernel proofs use.
use core::cmp::Ordering;
use vstd::prelude::*;
use vstd::std_specs::cmp::PartialOrdSpec;

verus! {

/// `a` compares strictly below `b`.
pub open spec fn lt<T: PartialOrd>(a: T, b: T) -> bool {
    a.partial_cmp_spec(&b) == Some(Ordering::Less)
}

/// `a` compares strictly above `b`.
pub open spec fn gt<T: PartialOrd>(a: T, b: T) -> bool {
    a.partial_cmp_spec(&b) == Some(Ordering::Greater)
}

/// `a` strictly improves on `b`: below it when looking for the minimum
/// (`max == false`), above it when looking for the maximum.
pub open spec fn beats<T: PartialOrd>(a: T, b: T, max: bool) -> bool {
    if max {
        gt(a, b)
    } else {
        lt(a, b)
    }
}

/// Every two values compare, and `<` is a strict weak order whose mirror is
/// `>`: the integer types meet this, floats with NaN do not.
pub open spec fn total_order<T: PartialOrd>() -> bool {
    &&& T::obeys_partial_cmp_spec()
    &&& forall|x: T, y: T| #[trigger] x.partial_cmp_spec(&y) is Some
    &&& forall|x: T, y: T| #[trigger] lt(x, y) <==> gt(y, x)
    &&& forall|x: T, y: T, z: T| #[trigger] lt(x, y) && #[trigger] lt(y, z) ==> lt(x, z)
    &&& forall|x: T, y: T, z: T|
        !(#[trigger] lt(x, y)) && !(#[trigger] lt(y, z)) ==> !lt(x, z)
}

/// The index that a left-to-right scan of a non-empty `s` reports: it starts
/// at index 0 and moves to a later element only when that element beats the
/// one it holds.
pub open spec fn scan_index<T: PartialOrd>(s: Seq<T>, max: bool) -> int
    decreases s.len(),
{
    if s.len() <= 1 {
        0
    } else {
        let k = scan_index(s.drop_last(), max);
        if beats(s.last(), s[k], max) {
            s.len() - 1
        } else {
            k
        }
    }
}

/// `i` is the first index of an extreme element of `s`: no element beats
/// `s[i]`, and `s[i]` beats every element before it.
pub open spec fn is_first_extreme<T: PartialOrd>(s: Seq<T>, i: int, max: bool) -> bool {
    &&& 0 <= i < s.len()
    &&& forall|j: int| 0 <= j < s.len() ==> !beats(#[trigger] s[j], s[i], max)
    &&& forall|j: int| 0 <= j < i ==> beats(s[i], #[trigger] s[j], max)
}

/// `i` is the first index of a smallest element of `s`.
pub open spec fn is_first_min<T: PartialOrd>(s: Seq<T>, i: int) -> bool {
    is_first_extreme(s, i, false)
}

/// `i` is the first index of a largest element of `s`.
pub open spec fn is_first_max<T: PartialOrd>(s: Seq<T>, i: int) -> bool {
    is_first_extreme(s, i, true)
}

/// What the typed entry points return: nothing for an empty slice, else the
/// index that the scan reports.
pub open spec fn extreme_index<T: PartialOrd>(s: Seq<T>, max: bool) -> Option<usize> {
    if s.len() == 0 {
        None
    } else {
        Some(scan_index(s, max) as usize)
    }
}

/// The integer element types, and `usize` for indices, are totally ordered.
pub proof fn lemma_integer_orders()
    ensures
        total_order::<i32>(),
        total_order::<i16>(),
        total_order::<u16>(),
        total_order::<u8>(),
        total_order::<usize>(),
{
}

/// Under a total order, no value beats itself and of two values at most one
/// beats the other.
pub proof fn lemma_beats_strict<T: PartialOrd>(a: T, b: T, max: bool)
    requires
        total_order::<T>(),
    ensures
        !beats(a, a, max),
        beats(a, b, max) ==> !beats(b, a, max),
{
    assert(lt(a, a) <==> gt(a, a));
    assert(lt(a, b) <==> gt(b, a));
    assert(lt(b, a) <==> gt(a, b));
}

/// Under a total order, "does not beat" chains: if `a` does not beat `b` and
/// `b` does not beat `c`, then `a` does not beat `c`; and a value that beats
/// another beats everything that other does not beat.
pub proof fn lemma_beats_chain<T: PartialOrd>(a: T, b: T, c: T, max: bool)
    requires
        total_order::<T>(),
    ensures
        !beats(a, b, max) && !beats(b, c, max) ==> !beats(a, c, max),
        beats(a, b, max) && !beats(c, b, max) ==> beats(a, c, max),
{
    assert(lt(a, b) <==> gt(b, a));
    assert(lt(b, a) <==> gt(a, b));
    assert(lt(b, c) <==> gt(c, b));
    assert(lt(c, b) <==> gt(b, c));
    assert(lt(a, c) <==> gt(c, a));
    assert(lt(c, a) <==> gt(a, c));
    if max {
        assert(!lt(c, b) && !lt(b, a) ==> !lt(c, a));
        assert(!lt(b, c) && !lt(c, a) ==> !lt(b, a));
    } else {
        assert(!lt(a, b) && !lt(b, c) ==> !lt(a, c));
        assert(!lt(c, b) && !lt(b, a) ==> !lt(c, a));
        assert(!lt(a, c) && !lt(c, b) ==> !lt(a, b));
    }
}

/// Under a total order the scan reports the first index of an extreme
/// element: of equal extremes, the first occurrence wins.
pub proof fn lemma_scan_is_first_extreme<T: PartialOrd>(s: Seq<T>, max: bool)
    requires
        total_order::<T>(),
        s.len() > 0,
    ensures
        is_first_extreme(s, scan_index(s, max), max),
    decreases s.len(),
{
    if s.len() > 1 {
        let p = s.drop_last();
        let k = scan_index(p, max);
        lemma_scan_is_first_extreme(p, max);
        let n = s.len() - 1;
        lemma_beats_strict(s[n], s[k], max);
        if beats(s[n], s[k], max) {
            assert forall|j: int| 0 <= j < n implies beats(s[n], #[trigger] s[j], max) by {
                assert(p[j] == s[j]);
                lemma_beats_chain(s[n], s[k], s[j], max);
            }
            assert forall|j: int| 0 <= j < s.len() implies !beats(#[trigger] s[j], s[n], max) by {
                lemma_beats_strict(s[n], s[j], max);
            }
        } else {
            assert forall|j: int| 0 <= j < s.len() implies !beats(#[trigger] s[j], s[k], max) by {
                if j < n {
                    assert(p[j] == s[j]);
                }
            }
            assert forall|j: int| 0 <= j < k implies beats(s[k], #[trigger] s[j], max) by {
                assert(p[j] == s[j]);
            }
        }
    } else {
        lemma_beats_strict(s[0], s[0], max);
    }
}

/// A sequence has at most one first extreme index.
pub proof fn lemma_first_extreme_unique<T: PartialOrd>(s: Seq<T>, i: int, j: int, max: bool)
    requires
        total_order::<T>(),
        is_first_extreme(s, i, max),
        is_first_extreme(s, j, max),
    ensures
        i == j,
{
    if i < j {
        assert(beats(s[j], s[i], max));
    } else if j < i {
        assert(beats(s[i], s[j], max));
    }
}

/// Under a total order, an index is the first extreme exactly when it is the
/// index that the scan reports.
pub proof fn lemma_first_extreme_is_scan<T: PartialOrd>(s: Seq<T>, i: int, max: bool)
    requires
        total_order::<T>(),
        s.len() > 0,
    ensures
        is_first_extreme(s, i, max) <==> i == scan_index(s, max),
{
    lemma_scan_is_first_extreme(s, max);
    if is_first_extreme(s, i, max) {
        lemma_first_extreme_unique(s, i, scan_index(s, max), max);
    }
}

} // verus!
