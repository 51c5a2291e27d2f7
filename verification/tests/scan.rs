use colbench::scan::{format_bytes, u64_to_decimal, Config, ScanRun, ScanStep};

#[test]
fn decimal_rendering() {
    assert_eq!(u64_to_decimal(0), "0");
    assert_eq!(u64_to_decimal(7), "7");
    assert_eq!(u64_to_decimal(12345), "12345");
    assert_eq!(u64_to_decimal(u64::MAX), "18446744073709551615");
}

#[test]
fn bytes_below_one_kilobyte() {
    assert_eq!(format_bytes(0), "0 B");
    assert_eq!(format_bytes(512), "512 B");
    assert_eq!(format_bytes(1023), "1023 B");
}

#[test]
fn bytes_scaled_units() {
    assert_eq!(format_bytes(1024), "1.00 KB");
    assert_eq!(format_bytes(1536), "1.50 KB");
    assert_eq!(format_bytes(1024 * 1024), "1.00 MB");
    assert_eq!(format_bytes(1024 * 1024 * 1024), "1.00 GB");
    assert_eq!(format_bytes(3 * 1024 * 1024 * 1024 / 2), "1.50 GB");
}

#[test]
fn bytes_rounded_to_two_decimals() {
    // 1535 / 1024 = 1.4990…, shown as 1.50.
    assert_eq!(format_bytes(1535), "1.50 KB");
    // 1100 / 1024 = 1.0742…, shown as 1.07.
    assert_eq!(format_bytes(1100), "1.07 KB");
    // 1152 / 1024 = 1.125 exactly: ties round to even, shown as 1.12.
    assert_eq!(format_bytes(1152), "1.12 KB");
    // 1408 / 1024 = 1.375 exactly: ties round to even, shown as 1.38.
    assert_eq!(format_bytes(1408), "1.38 KB");
}

#[test]
fn bytes_matches_float_rendering() {
    // The integer formatting agrees with two-decimal floating-point
    // rendering of the same quotients.
    for &b in &[1024u64, 1535, 2047, 4096, 999_999, 10_000_000, 123_456_789] {
        let expected = if b >= 1024 * 1024 * 1024 {
            format!("{:.2} GB", b as f64 / (1024.0 * 1024.0 * 1024.0))
        } else if b >= 1024 * 1024 {
            format!("{:.2} MB", b as f64 / (1024.0 * 1024.0))
        } else if b >= 1024 {
            format!("{:.2} KB", b as f64 / 1024.0)
        } else {
            format!("{} B", b)
        };
        assert_eq!(format_bytes(b), expected);
    }
}

#[test]
fn scan_run_phases_in_order() {
    // Two warmup scans, one cache eviction, three timed scans.
    let mut run = ScanRun::new(100, 3, 2, false, false);
    assert_eq!(run.next_step(), ScanStep::Warmup);
    assert!(run.record_warmup(100));
    assert_eq!(run.next_step(), ScanStep::Warmup);
    assert!(run.record_warmup(100));
    assert_eq!(run.next_step(), ScanStep::DropCache);
    run.record_cache_dropped();
    for i in 0..3u64 {
        assert_eq!(run.next_step(), ScanStep::Timed);
        assert!(run.record_timed(100, 1000 + i));
    }
    assert_eq!(run.next_step(), ScanStep::Done);
    assert_eq!(run.into_latencies(), vec![1000, 1001, 1002]);
}

#[test]
fn scan_run_skips_warmup_and_cache_drop() {
    let mut run = ScanRun::new(10, 1, 5, true, true);
    assert_eq!(run.next_step(), ScanStep::Timed);
    assert!(run.record_timed(10, 7));
    assert_eq!(run.next_step(), ScanStep::Done);
    assert_eq!(run.into_latencies(), vec![7]);
}

#[test]
fn scan_run_rejects_row_count_mismatch() {
    let mut run = ScanRun::new(100, 1, 1, false, false);
    // A scan that returned the wrong number of rows is not counted.
    assert!(!run.record_warmup(99));
    assert_eq!(run.next_step(), ScanStep::Warmup);
    assert!(run.record_warmup(100));
    run.record_cache_dropped();
    assert!(!run.record_timed(101, 5));
    assert_eq!(run.next_step(), ScanStep::Timed);
    assert!(run.record_timed(100, 5));
    assert_eq!(run.next_step(), ScanStep::Done);
    assert_eq!(run.into_latencies(), vec![5]);
}

#[test]
fn scan_config_fields() {
    let c = Config {
        input: "data.parquet".to_string(),
        engines: "all".to_string(),
        output_dir: "/tmp/out".to_string(),
        iterations: 10,
        warmup_iterations: 2,
        skip_warmup: false,
        skip_cache_drop: false,
    };
    let d = c.clone();
    assert_eq!(d.input, "data.parquet");
    assert_eq!(d.iterations, 10);
    assert_eq!(d.warmup_iterations, 2);
    assert!(!d.skip_warmup && !d.skip_cache_drop);
}
