//! End-to-end tests of the downsampling pipeline.

use downsample::down_sample;

/// Reference computation: the bucket layout and extreme pairs written out
/// directly, against which the parallel pipeline is checked.
fn reference(values: &[i64], mn: usize, mx: usize, down_count: usize) -> (Vec<i32>, Vec<i64>) {
    let len = values.len();
    let lo = mn.min(len);
    let hi = mx.min(len).max(lo);
    if lo >= hi || down_count == 0 {
        return (Vec::new(), Vec::new());
    }
    let total_len = hi - lo;
    let ws = (total_len / down_count).max(1);
    let bc = total_len / ws;
    let mut index = Vec::new();
    let mut value = Vec::new();
    for b in 0..bc {
        let start = lo + b * ws;
        let stop = (start + ws).min(hi);
        let window = &values[start..stop];
        let top = *window.iter().max().unwrap();
        let bot = *window.iter().min().unwrap();
        index.push(start as i32);
        index.push(start as i32);
        value.push(top);
        value.push(bot);
    }
    (index, value)
}

#[test]
fn full_resolution_scenario() {
    let values = vec![1i64, 5, 3, 9, 2];
    let (index, value) = down_sample(&values, 0, 5, 5);
    assert_eq!(index, vec![0, 0, 1, 1, 2, 2, 3, 3, 4, 4]);
    assert_eq!(value, vec![1, 1, 5, 5, 3, 3, 9, 9, 2, 2]);
}

#[test]
fn two_bucket_scenario_drops_trailing_sample() {
    let values = vec![1i64, 5, 3, 9, 2];
    let (index, value) = down_sample(&values, 0, 5, 2);
    assert_eq!(index, vec![0, 0, 2, 2]);
    assert_eq!(value, vec![5, 1, 9, 3]);
}

#[test]
fn empty_input_yields_empty_result() {
    let values: Vec<i64> = Vec::new();
    let (index, value) = down_sample(&values, 0, 0, 10);
    assert!(index.is_empty());
    assert!(value.is_empty());
}

#[test]
fn inverted_bounds_clamp_to_empty_range() {
    let values = vec![1i64, 2, 3, 4, 5];
    let (index, value) = down_sample(&values, 3, 1, 4);
    assert!(index.is_empty());
    assert!(value.is_empty());
}

#[test]
fn zero_target_yields_empty_result() {
    let values = vec![1i64, 2, 3, 4, 5];
    let (index, value) = down_sample(&values, 0, 5, 0);
    assert!(index.is_empty());
    assert!(value.is_empty());
}

#[test]
fn bounds_past_the_end_are_clamped() {
    let values = vec![4i64, 8, 6];
    let (index, value) = down_sample(&values, 0, 100, 3);
    assert_eq!(index, vec![0, 0, 1, 1, 2, 2]);
    assert_eq!(value, vec![4, 4, 8, 8, 6, 6]);
}

#[test]
fn start_past_the_end_yields_empty_result() {
    let values = vec![4i64, 8, 6];
    let (index, value) = down_sample(&values, 7, 9, 3);
    assert!(index.is_empty());
    assert!(value.is_empty());
}

#[test]
fn target_above_length_gives_one_bucket_per_sample() {
    let values = vec![-3i64, 7, 0, 7, -9, 4];
    let (index, value) = down_sample(&values, 0, 6, 100);
    assert_eq!(index, vec![0, 0, 1, 1, 2, 2, 3, 3, 4, 4, 5, 5]);
    assert_eq!(value, vec![-3, -3, 7, 7, 0, 0, 7, 7, -9, -9, 4, 4]);
    assert!(index.len() <= 2 * values.len());
}

#[test]
fn sub_range_uses_absolute_indices() {
    let values = vec![9i64, 1, 7, 2, 8, 3];
    let (index, value) = down_sample(&values, 1, 5, 2);
    assert_eq!(index, vec![1, 1, 3, 3]);
    assert_eq!(value, vec![7, 1, 8, 2]);
}

#[test]
fn truncation_drops_samples_past_full_windows() {
    // Seven samples at three buckets: window of two, six covered, one dropped.
    let values = vec![1i64, 2, 3, 4, 5, 6, 1000];
    let (index, value) = down_sample(&values, 0, 7, 3);
    assert_eq!(index, vec![0, 0, 2, 2, 4, 4]);
    assert_eq!(value, vec![2, 1, 4, 3, 6, 5]);
    assert!(!value.contains(&1000));
}

#[test]
fn equal_samples_collapse_to_equal_extremes() {
    let values = vec![5i64; 10];
    let (index, value) = down_sample(&values, 0, 10, 2);
    assert_eq!(index, vec![0, 0, 5, 5]);
    assert_eq!(value, vec![5, 5, 5, 5]);
}

#[test]
fn single_sample() {
    let values = vec![42i64];
    let (index, value) = down_sample(&values, 0, 1, 1);
    assert_eq!(index, vec![0, 0]);
    assert_eq!(value, vec![42, 42]);
}

#[test]
fn extreme_keys_survive_the_fold_seeds() {
    let values = vec![i64::MIN, i64::MAX, i64::MIN, i64::MAX];
    let (index, value) = down_sample(&values, 0, 4, 2);
    assert_eq!(index, vec![0, 0, 2, 2]);
    assert_eq!(value, vec![i64::MAX, i64::MIN, i64::MAX, i64::MIN]);
}

#[test]
fn bucket_starts_ascend_strictly() {
    let values: Vec<i64> = (0..1000).map(|i| (i * 37) % 101).collect();
    let (index, value) = down_sample(&values, 0, 1000, 13);
    assert_eq!(index.len(), value.len());
    for pair in index.chunks(2) {
        assert_eq!(pair[0], pair[1]);
    }
    for b in 1..index.len() / 2 {
        assert!(index[2 * b] > index[2 * b - 2]);
    }
}

#[test]
fn bucket_count_never_exceeds_range_length() {
    for len in 0usize..40 {
        let values: Vec<i64> = (0..len as i64).collect();
        for down_count in [0usize, 1, 2, 3, 7, 50] {
            let (index, value) = down_sample(&values, 0, len, down_count);
            assert_eq!(index.len(), value.len());
            assert!(index.len() / 2 <= len);
        }
    }
}

#[test]
fn matches_reference_across_many_shapes() {
    let values: Vec<i64> = (0..2377).map(|i| ((i * 73) % 997) - 500).collect();
    for &(mn, mx) in &[(0usize, 2377usize), (100, 2000), (5, 6), (2300, 2377), (50, 49)] {
        for &down_count in &[1usize, 2, 3, 16, 100, 1000, 5000] {
            let got = down_sample(&values, mn, mx, down_count);
            let want = reference(&values, mn, mx, down_count);
            assert_eq!(got, want, "mn={mn} mx={mx} down_count={down_count}");
        }
    }
}

#[test]
fn equal_bounds_yield_empty_result() {
    let values = vec![1i64, 2, 3, 4, 5];
    let (index, value) = down_sample(&values, 2, 2, 4);
    assert!(index.is_empty());
    assert!(value.is_empty());
}

#[test]
fn repeated_calls_are_deterministic() {
    let values: Vec<i64> = (0..50_000).map(|i| ((i * 7919) % 65_537) - 30_000).collect();
    let first = down_sample(&values, 123, 48_000, 777);
    for _ in 0..4 {
        assert_eq!(down_sample(&values, 123, 48_000, 777), first);
    }
}

#[test]
fn large_input_exercises_many_workers() {
    let values: Vec<i64> = (0..100_000).map(|i| ((i * 31) % 4093) - 2000).collect();
    let got = down_sample(&values, 0, values.len(), 512);
    let want = reference(&values, 0, values.len(), 512);
    assert_eq!(got, want);
}
