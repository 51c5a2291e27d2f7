use colbench::dispatch::{Config, Dispatcher, Phase};
use colbench::queries::generate_queries;

fn queries(n: usize) -> Vec<Vec<u64>> {
    let mut qs = Vec::new();
    for i in 0..n {
        qs.push(vec![i as u64, i as u64 + 10]);
    }
    qs
}

#[test]
fn dispatcher_round_robin_assignment() {
    let d = Dispatcher::new(queries(8), 4, 2, 2, false);
    assert_eq!(d.task_count(), 8);
    for i in 0..8 {
        assert_eq!(d.task(i).dataset_index, i % 4);
        assert_eq!(d.task(i).row_indices, vec![i as u64, i as u64 + 10]);
    }
}

#[test]
fn dispatcher_timed_sample_has_one_entry_per_task() {
    // Tasks drain into two workers, two in flight each; every
    // completion contributes one sample.
    let mut d = Dispatcher::new(queries(5), 2, 2, 2, false);
    let mut processed = Vec::new();
    loop {
        let mut moved = false;
        for w in 0..2 {
            if let Some(i) = d.try_start(w) {
                processed.push(i);
                d.complete(w, 1_000_000 + i as u64);
                moved = true;
            }
        }
        if !moved {
            break;
        }
    }
    assert!(d.is_complete());
    processed.sort_unstable();
    assert_eq!(processed, vec![0, 1, 2, 3, 4]);
    let latencies = d.into_latencies();
    assert_eq!(latencies.len(), 5);
}

#[test]
fn dispatcher_end_to_end_scenario() {
    // Four datasets, eight queries, two workers with two in-flight
    // queries each: every query is assigned round-robin and processed
    // exactly once; the final latency count is eight.
    let mut d = Dispatcher::new(queries(8), 4, 2, 2, false);
    for i in 0..8 {
        assert_eq!(d.task(i).dataset_index, i % 4);
    }
    let mut seen = vec![false; 8];
    // Fill both workers to their bound, then drain, interleaved.
    loop {
        let mut started = Vec::new();
        for w in 0..2 {
            while let Some(i) = d.try_start(w) {
                assert!(!seen[i]);
                seen[i] = true;
                started.push((w, i));
            }
        }
        if started.is_empty() {
            break;
        }
        // No more than two in flight per worker.
        for w in 0..2 {
            assert!(started.iter().filter(|(sw, _)| *sw == w).count() <= 2);
        }
        for (w, i) in started {
            d.complete(w, (i as u64 + 1) * 500);
        }
    }
    assert!(seen.iter().all(|s| *s));
    assert!(d.is_complete());
    let latencies = d.into_latencies();
    assert_eq!(latencies.len(), 8);
}

#[test]
fn dispatcher_concurrency_bound_respected() {
    let mut d = Dispatcher::new(queries(4), 1, 1, 1, false);
    assert_eq!(d.try_start(0), Some(0));
    // Worker 0 already has its single slot in flight.
    assert_eq!(d.try_start(0), None);
    d.complete(0, 42);
    assert_eq!(d.try_start(0), Some(1));
}

#[test]
fn dispatcher_phases() {
    let mut d = Dispatcher::new(queries(2), 1, 1, 2, false);
    assert_eq!(d.phase(), Phase::Loading);
    let t0 = d.try_start(0).unwrap();
    assert_eq!(d.phase(), Phase::Running);
    let t1 = d.try_start(0).unwrap();
    assert_eq!(d.phase(), Phase::Draining);
    assert_eq!(d.try_start(0), None);
    d.complete(0, 10);
    assert_eq!(d.phase(), Phase::Draining);
    d.complete(0, 20);
    assert_eq!(d.phase(), Phase::Complete);
    assert_eq!((t0, t1), (0, 1));
    assert_eq!(d.into_latencies(), vec![10, 20]);
}

#[test]
fn dispatcher_warmup_discards_latencies() {
    let mut d = Dispatcher::new(queries(3), 1, 1, 3, true);
    for _ in 0..3 {
        let _ = d.try_start(0).unwrap();
    }
    for _ in 0..3 {
        d.complete(0, 999);
    }
    assert!(d.is_complete());
    let latencies = d.into_latencies();
    assert!(latencies.is_empty());
}

#[test]
fn dispatcher_failed_query_zero_sentinel() {
    let mut d = Dispatcher::new(queries(2), 1, 1, 2, false);
    let _ = d.try_start(0).unwrap();
    let _ = d.try_start(0).unwrap();
    d.complete(0, 777);
    d.complete_failed(0);
    assert!(d.is_complete());
    assert_eq!(d.into_latencies(), vec![777, 0]);
}

#[test]
fn dispatcher_with_generated_queries() {
    let config = Config {
        engine: "parquet".to_string(),
        rows_per_dataset: 1000,
        write_batch_size: 100,
        vector_dim: 8,
        num_queries: 12,
        rows_per_query: 4,
        num_runtimes: 3,
        concurrent_queries: 2,
        dataset_uri: vec!["/tmp/a".to_string(), "/tmp/b".to_string()],
        skip_warmup: true,
        skip_cache_drop: true,
    };
    let qs = generate_queries(
        config.num_queries,
        config.rows_per_query,
        config.rows_per_dataset,
    );
    let mut d = Dispatcher::new(
        qs,
        config.dataset_uri.len(),
        config.num_runtimes,
        config.concurrent_queries,
        false,
    );
    assert_eq!(d.task_count(), 12);
    for i in 0..12 {
        assert_eq!(d.task(i).dataset_index, i % 2);
        assert_eq!(d.task(i).row_indices.len(), 4);
    }
    loop {
        let mut moved = false;
        for w in 0..config.num_runtimes {
            if let Some(i) = d.try_start(w) {
                d.complete(w, i as u64);
                moved = true;
            }
        }
        if !moved {
            break;
        }
    }
    assert!(d.is_complete());
    assert_eq!(d.into_latencies().len(), 12);
}

#[test]
fn dispatcher_empty_run_is_complete() {
    let d = Dispatcher::new(Vec::new(), 1, 1, 1, false);
    assert!(d.is_complete());
    assert_eq!(d.phase(), Phase::Complete);
    assert_eq!(d.into_latencies(), Vec::<u64>::new());
}
