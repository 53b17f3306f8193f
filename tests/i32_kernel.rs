use argmm::{argmax_i32, argmin_i32, simple_argmax, simple_argmin};

/// Deterministic pseudo-random values in `lo..=hi` (xorshift64).
fn get_array_i32(n: usize, lo: i64, hi: i64, seed: u64) -> Vec<i32> {
    let mut state = seed | 1;
    let span = (hi - lo + 1) as u64;
    let mut out = Vec::with_capacity(n);
    for _ in 0..n {
        state ^= state << 13;
        state ^= state >> 7;
        state ^= state << 17;
        out.push((lo + (state % span) as i64) as i32);
    }
    out
}

#[test]
fn i32_simd_test_using_a_random_input_returns_the_same_result() {
    let data = get_array_i32(1025, -100_000, 100_000, 0x9e37_79b9_7f4a_7c15);
    assert_eq!(data.len() % 4, 1);

    let min_index = argmin_i32(&data).unwrap();
    let max_index = argmax_i32(&data).unwrap();
    let argmin_index = simple_argmin(&data);
    let argmax_index = simple_argmax(&data);

    assert_eq!(argmin_index, min_index);
    assert_eq!(argmax_index, max_index);
}

#[test]
fn i32_simd_test_both_versions_return_the_same_results() {
    let data = vec![100, 5, 3, 7, 8, 9, 9, 5, 12, 5, 3, 2, 909];
    assert_eq!(data.len() % 4, 1);

    let min_index = argmin_i32(&data).unwrap();
    let argmin_index = simple_argmin(&data);
    let max_index = argmax_i32(&data).unwrap();
    let argmax_index = simple_argmax(&data);

    assert_eq!(argmin_index, min_index);
    assert_eq!(argmax_index, max_index);
}

#[test]
fn i32_simd_test_first_index_is_returned_when_identical_values_found() {
    let data = [10, 4, 6, 9, 9, 22, 22, 4];
    let argmin_index = simple_argmin(&data);
    let argmin_simd_index = argmin_i32(&data).unwrap();
    assert_eq!(argmin_index, argmin_simd_index);
    assert_eq!(argmin_index, 1);

    let argmax_index = simple_argmax(&data);
    let argmax_simd_index = argmax_i32(&data).unwrap();
    assert_eq!(argmax_index, argmax_simd_index);
    assert_eq!(argmax_index, 5);
}

#[test]
fn simd_i32_test_both_versions_return_the_same_results() {
    let data = get_array_i32(1025, i32::MIN as i64, i32::MAX as i64, 0x2545_f491_4f6c_dd1d);
    assert_eq!(data.len() % 4, 1);

    let min_index = argmin_i32(&data).unwrap();
    let max_index = argmax_i32(&data).unwrap();
    let argmin_index = simple_argmin(&data);
    let argmax_index = simple_argmax(&data);

    assert_eq!(argmin_index, min_index);
    assert_eq!(argmax_index, max_index);
}

#[test]
fn simd_i32_test_first_index_is_returned_when_identical_values_found() {
    let data = [i32::MIN, i32::MIN, 4, 6, 9, i32::MAX, 22, i32::MAX];
    let argmin_index = simple_argmin(&data);
    let argmin_simd_index = argmin_i32(&data).unwrap();
    assert_eq!(argmin_index, argmin_simd_index);
    assert_eq!(argmin_index, 0);

    let argmax_index = simple_argmax(&data);
    let argmax_simd_index = argmax_i32(&data).unwrap();
    assert_eq!(argmax_index, argmax_simd_index);
    assert_eq!(argmax_index, 5);
}
