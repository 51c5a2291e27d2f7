use colbench::stats::percentile_index;

#[test]
fn percentile_single_sample_indexes_it() {
    // A one-entry sample: every percentile reads the same entry.
    assert_eq!(percentile_index(1, 50), 0);
    assert_eq!(percentile_index(1, 95), 0);
    assert_eq!(percentile_index(1, 99), 0);
    let sorted = [5.0f64];
    assert_eq!(sorted[percentile_index(1, 50)], 5.0);
    assert_eq!(sorted[percentile_index(1, 95)], 5.0);
    assert_eq!(sorted[percentile_index(1, 99)], 5.0);
}

#[test]
fn percentile_even_sample_nearest_rank_quirk() {
    // Nearest-rank floor indexing: the 50th percentile of a sorted
    // even-length sample is the element at floor(n/2), not the
    // interpolated midpoint.
    assert_eq!(percentile_index(4, 50), 2);
    let sorted = [1.0f64, 2.0, 3.0, 4.0];
    assert_eq!(sorted[percentile_index(4, 50)], 3.0);
    assert_eq!(sorted[percentile_index(4, 95)], 4.0);
    assert_eq!(sorted[percentile_index(4, 99)], 4.0);
}

#[test]
fn percentile_hundred_samples() {
    assert_eq!(percentile_index(100, 50), 50);
    assert_eq!(percentile_index(100, 95), 95);
    assert_eq!(percentile_index(100, 99), 99);
}

#[test]
fn percentile_index_always_in_bounds() {
    for n in 1..200usize {
        for p in [0usize, 50, 95, 99] {
            assert!(percentile_index(n, p) < n);
        }
    }
}
