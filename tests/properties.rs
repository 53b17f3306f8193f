use argmm::task::split_array;
use argmm::{
    argmax_i16, argmax_i32, argmax_u16, argmax_u8, argmin_i16, argmin_i32, argmin_u16, argmin_u8,
    find_final_index_max, find_final_index_min, simple_argmax, simple_argmax_i32, simple_argmin,
    simple_argmin_i32, ArgMinMax,
};

/// Deterministic pseudo-random values in `lo..=hi` (xorshift64).
fn values(n: usize, lo: i64, hi: i64, seed: u64) -> Vec<i64> {
    let mut state = seed | 1;
    let span = (hi - lo + 1) as u64;
    let mut out = Vec::with_capacity(n);
    for _ in 0..n {
        state ^= state << 13;
        state ^= state >> 7;
        state ^= state << 17;
        out.push(lo + (state % span) as i64);
    }
    out
}

#[test]
fn empty_slices_have_no_extreme() {
    assert_eq!(argmin_i32(&[]), None);
    assert_eq!(argmax_i32(&[]), None);
    assert_eq!(argmin_i16(&[]), None);
    assert_eq!(argmax_i16(&[]), None);
    assert_eq!(argmin_u16(&[]), None);
    assert_eq!(argmax_u16(&[]), None);
    assert_eq!(argmin_u8(&[]), None);
    assert_eq!(argmax_u8(&[]), None);
    let v: Vec<i32> = Vec::new();
    assert_eq!(v.argmin(), None);
    assert_eq!(v.argmax(), None);
}

#[test]
fn every_length_matches_the_scalar_scan() {
    for n in 1..80usize {
        let raw = values(n, -5, 5, 0x1234_5678 + n as u64);
        let a: Vec<i32> = raw.iter().map(|&x| x as i32).collect();
        let b: Vec<i16> = raw.iter().map(|&x| x as i16).collect();
        let c: Vec<u16> = raw.iter().map(|&x| (x + 5) as u16).collect();
        let d: Vec<u8> = raw.iter().map(|&x| (x + 5) as u8).collect();
        let i = argmin_i32(&a).unwrap();
        assert!(i < n);
        assert_eq!(i, simple_argmin(&a));
        assert_eq!(argmax_i32(&a).unwrap(), simple_argmax(&a));
        assert_eq!(argmin_i16(&b).unwrap(), simple_argmin(&b));
        assert_eq!(argmax_i16(&b).unwrap(), simple_argmax(&b));
        assert_eq!(argmin_u16(&c).unwrap(), simple_argmin(&c));
        assert_eq!(argmax_u16(&c).unwrap(), simple_argmax(&c));
        assert_eq!(argmin_u8(&d).unwrap(), simple_argmin(&d));
        assert_eq!(argmax_u8(&d).unwrap(), simple_argmax(&d));
    }
}

#[test]
fn first_occurrence_wins_below_and_above_the_threshold() {
    // Eight i16 elements stay under two eight-element lanes: scalar scan only.
    let short: [i16; 8] = [10, 4, 6, 9, 9, 22, 22, 4];
    assert_eq!(argmin_i16(&short), Some(1));
    assert_eq!(argmax_i16(&short), Some(5));
    // Eight i32 elements fill two four-element lanes: lane kernel only.
    let aligned: [i32; 8] = [10, 4, 6, 9, 9, 22, 22, 4];
    assert_eq!(argmin_i32(&aligned), Some(1));
    assert_eq!(argmax_i32(&aligned), Some(5));
    // Twice the pattern: the repeats in later lanes must not win.
    let doubled: Vec<i32> = aligned.iter().chain(aligned.iter()).copied().collect();
    assert_eq!(argmin_i32(&doubled), Some(1));
    assert_eq!(argmax_i32(&doubled), Some(5));
    let doubled16: Vec<i16> = short.iter().chain(short.iter()).chain([4i16].iter()).copied().collect();
    assert_eq!(doubled16.len(), 17);
    assert_eq!(argmin_i16(&doubled16), Some(1));
    assert_eq!(argmax_i16(&doubled16), Some(5));
}

#[test]
fn tie_across_remainder_and_lanes_keeps_the_remainder_index() {
    // Nine elements with four lanes: one remainder element, two lane groups.
    let data: [i32; 9] = [3, 5, 3, 7, 3, 9, 9, 4, 9];
    assert_eq!(argmin_i32(&data), Some(0));
    assert_eq!(argmax_i32(&data), Some(5));
    let data: [i32; 9] = [9, 5, 3, 7, 3, 9, 9, 4, 9];
    assert_eq!(argmax_i32(&data), Some(0));
    assert_eq!(argmin_i32(&data), Some(2));
}

#[test]
fn lengths_around_the_vectorisation_threshold() {
    for &n in &[0usize, 1, 3, 4, 5, 7, 8, 9, 15, 16, 17, 31, 33, 4 * 5 + 3] {
        let raw = values(n, -1000, 1000, 0xdead_beef + n as u64);
        let a: Vec<i32> = raw.iter().map(|&x| x as i32).collect();
        let b: Vec<i16> = raw.iter().map(|&x| x as i16).collect();
        if n == 0 {
            assert_eq!(argmin_i32(&a), None);
            assert_eq!(argmax_i16(&b), None);
            continue;
        }
        assert_eq!(argmin_i32(&a), Some(simple_argmin(&a)));
        assert_eq!(argmax_i32(&a), Some(simple_argmax(&a)));
        assert_eq!(argmin_i16(&b), Some(simple_argmin(&b)));
        assert_eq!(argmax_i16(&b), Some(simple_argmax(&b)));
    }
}

#[test]
fn repeated_calls_return_the_same_index() {
    let data: Vec<u16> = values(257, 0, 40, 77).iter().map(|&x| x as u16).collect();
    let first = argmin_u16(&data);
    let again = argmin_u16(&data);
    assert_eq!(first, again);
    assert_eq!(argmax_u16(&data), argmax_u16(&data));
    assert_eq!(data.argmin(), first);
}

#[test]
fn integer_example_end_to_end() {
    let data = vec![-4i32, -8, 0, 15, 2, 1, 7, -4, 13, 20];
    let min_index = data.argmin().unwrap();
    let max_index = data.argmax().unwrap();
    assert_eq!(min_index, 1);
    assert_eq!(max_index, 9);
    assert_eq!(data[min_index], -8);
    assert_eq!(data[max_index], 20);
}

#[test]
fn trait_methods_on_slices_and_vectors() {
    let v: Vec<u8> = vec![7, 3, 200, 3, 200, 0, 0, 255, 1];
    let s: &[u8] = &v;
    assert_eq!(v.argmin(), Some(5));
    assert_eq!(v.argmax(), Some(7));
    assert_eq!(s.argmin(), Some(5));
    assert_eq!(s.argmax(), Some(7));
    assert_eq!(ArgMinMax::argmin(&v[..]), Some(5));
    let w: Vec<i16> = vec![-1, -1, 2, 2];
    assert_eq!(w.argmin(), Some(0));
    assert_eq!(w.argmax(), Some(2));
    let x: Vec<u16> = vec![5];
    assert_eq!(x.argmin(), Some(0));
    assert_eq!(x.argmax(), Some(0));
}

#[test]
fn scalar_scan_keeps_first_extreme() {
    let data = [2i32, -1, 5, -1, 5, 0];
    assert_eq!(simple_argmin_i32(&data), 1);
    assert_eq!(simple_argmax_i32(&data), 2);
    assert_eq!(simple_argmin(&data), 1);
    assert_eq!(simple_argmax(&data), 2);
    assert_eq!(simple_argmin(&[42u8]), 0);
    assert_eq!(simple_argmax(&[i32::MIN, i32::MIN]), 0);
}

#[test]
fn merge_prefers_strictly_better_then_lower_index() {
    assert_eq!(find_final_index_min((3, 2), (5, 9)), Some(2));
    assert_eq!(find_final_index_min((7, 2), (5, 9)), Some(9));
    assert_eq!(find_final_index_min((5, 2), (5, 9)), Some(2));
    assert_eq!(find_final_index_min((5, 11), (5, 9)), Some(9));
    assert_eq!(find_final_index_max((3, 2), (5, 9)), Some(9));
    assert_eq!(find_final_index_max((7, 2), (5, 9)), Some(2));
    assert_eq!(find_final_index_max((5, 2), (5, 9)), Some(2));
    assert_eq!(find_final_index_max((5, 11), (5, 9)), Some(9));
}

#[test]
fn partition_shapes() {
    let empty: [i32; 0] = [];
    assert_eq!(split_array(&empty, 4), (None, None));
    let short = [1, 2, 3, 4, 5, 6, 7];
    assert_eq!(split_array(&short, 4), (Some(&short[..]), None));
    let exact = [1, 2, 3, 4, 5, 6, 7, 8];
    assert_eq!(split_array(&exact, 4), (None, Some(&exact[..])));
    let nine = [1, 2, 3, 4, 5, 6, 7, 8, 9];
    assert_eq!(split_array(&nine, 4), (Some(&nine[..1]), Some(&nine[1..])));
    let eleven = [0u16; 11];
    let (rem, sim) = split_array(&eleven, 4);
    assert_eq!(rem.unwrap().len(), 3);
    assert_eq!(sim.unwrap().len(), 8);
    let seventeen = [0i16; 17];
    let (rem, sim) = split_array(&seventeen, 8);
    assert_eq!(rem.unwrap().len(), 1);
    assert_eq!(sim.unwrap().len(), 16);
}

#[test]
fn extreme_values_of_each_type() {
    let a = [0i32, i32::MAX, i32::MIN, 1, i32::MIN, i32::MAX, 2, 3, 4];
    assert_eq!(argmin_i32(&a), Some(2));
    assert_eq!(argmax_i32(&a), Some(1));
    let b: Vec<u8> = (0..40u8).map(|x| 255 - x).collect();
    assert_eq!(argmin_u8(&b), Some(39));
    assert_eq!(argmax_u8(&b), Some(0));
    let c: Vec<i16> = (0..40i16).map(|x| (x - 20) * (x - 20)).collect();
    assert_eq!(argmin_i16(&c), Some(20));
    assert_eq!(argmax_i16(&c), Some(0));
}
