use colbench::queries::{generate_queries, sort_indices};

#[test]
fn sort_indices_orders_values() {
    let mut v = vec![5u64, 3, 8, 1];
    sort_indices(&mut v);
    assert_eq!(v, vec![1, 3, 5, 8]);
}

#[test]
fn sort_indices_keeps_duplicates() {
    let mut v = vec![7u64, 2, 7, 0, 2];
    sort_indices(&mut v);
    assert_eq!(v, vec![0, 2, 2, 7, 7]);
}

#[test]
fn sort_indices_empty_and_single() {
    let mut v: Vec<u64> = Vec::new();
    sort_indices(&mut v);
    assert!(v.is_empty());
    let mut w = vec![9u64];
    sort_indices(&mut w);
    assert_eq!(w, vec![9]);
}

#[test]
fn generated_queries_shape() {
    let qs = generate_queries(3, 5, 100);
    assert_eq!(qs.len(), 3);
    for q in &qs {
        assert_eq!(q.len(), 5);
        for k in 1..q.len() {
            assert!(q[k - 1] <= q[k]);
        }
        for &x in q {
            assert!(x < 100);
        }
    }
}

#[test]
fn generated_queries_single_row_universe() {
    // With one possible row every generated index must be zero.
    let qs = generate_queries(2, 4, 1);
    assert_eq!(qs.len(), 2);
    for q in &qs {
        assert_eq!(q, &vec![0u64, 0, 0, 0]);
    }
}

#[test]
fn generated_queries_none_requested() {
    let qs = generate_queries(0, 5, 10);
    assert!(qs.is_empty());
    let qs2 = generate_queries(2, 0, 10);
    assert_eq!(qs2.len(), 2);
    assert!(qs2[0].is_empty() && qs2[1].is_empty());
}
