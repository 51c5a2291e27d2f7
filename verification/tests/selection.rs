use colbench::selection::{
    indices_to_row_selection, indices_to_segments, prepare_take_indices, take_query_selection,
    RowSegment, TakeQueryError,
};
use parquet::arrow::arrow_reader::RowSelector;

#[test]
fn codec_empty_indices_single_skip() {
    let segs = indices_to_segments(&[], 5);
    assert_eq!(segs, vec![RowSegment::Skip(5)]);
}

#[test]
fn codec_single_index_spanning_universe() {
    let segs = indices_to_segments(&[0], 1);
    assert_eq!(segs, vec![RowSegment::Select(1)]);
}

#[test]
fn codec_adjacent_indices_unit_selects() {
    let segs = indices_to_segments(&[2, 3, 4], 10);
    assert_eq!(
        segs,
        vec![
            RowSegment::Skip(2),
            RowSegment::Select(1),
            RowSegment::Select(1),
            RowSegment::Select(1),
            RowSegment::Skip(5),
        ]
    );
}

#[test]
fn codec_segments_span_total_rows() {
    let segs = indices_to_segments(&[1, 4, 7, 8], 20);
    let total: usize = segs
        .iter()
        .map(|s| match s {
            RowSegment::Skip(n) => *n,
            RowSegment::Select(n) => *n,
        })
        .sum();
    assert_eq!(total, 20);
    let selects = segs
        .iter()
        .filter(|s| matches!(s, RowSegment::Select(_)))
        .count();
    assert_eq!(selects, 4);
}

#[test]
fn codec_first_and_last_row() {
    let segs = indices_to_segments(&[0, 9], 10);
    assert_eq!(
        segs,
        vec![
            RowSegment::Select(1),
            RowSegment::Skip(8),
            RowSegment::Select(1),
        ]
    );
}

#[test]
fn row_selection_merges_adjacent_selects() {
    let selection = indices_to_row_selection(&[2, 3, 4], 10);
    let selectors: Vec<RowSelector> = selection.iter().copied().collect();
    assert_eq!(
        selectors,
        vec![
            RowSelector::skip(2),
            RowSelector::select(3),
            RowSelector::skip(5),
        ]
    );
}

#[test]
fn row_selection_empty_indices() {
    let selection = indices_to_row_selection(&[], 7);
    let selectors: Vec<RowSelector> = selection.iter().copied().collect();
    assert_eq!(selectors, vec![RowSelector::skip(7)]);
    assert_eq!(selection.row_count(), 0);
}

#[test]
fn row_selection_counts() {
    let selection = indices_to_row_selection(&[1, 5, 6], 12);
    assert_eq!(selection.row_count(), 3);
    assert_eq!(selection.skipped_row_count(), 9);
}

#[test]
fn take_indices_deduplicated() {
    assert_eq!(prepare_take_indices(&[2, 2, 3, 3, 3, 7], 10), Ok(vec![2, 3, 7]));
    assert_eq!(prepare_take_indices(&[], 10), Ok(vec![]));
    assert_eq!(prepare_take_indices(&[0, 1, 2], 3), Ok(vec![0, 1, 2]));
}

#[test]
fn take_indices_rejected() {
    assert_eq!(
        prepare_take_indices(&[1, 10], 10),
        Err(TakeQueryError::IndexOutOfBounds)
    );
    assert_eq!(
        prepare_take_indices(&[5, 3], 10),
        Err(TakeQueryError::Unsorted)
    );
    // Bounds are checked over the whole query before order.
    assert_eq!(
        prepare_take_indices(&[5, 3, 99], 10),
        Err(TakeQueryError::IndexOutOfBounds)
    );
}

#[test]
fn take_query_selects_each_row_once() {
    // A duplicated index selects its row once.
    let selection = take_query_selection(&[2, 2, 3], 10).unwrap();
    let selectors: Vec<RowSelector> = selection.iter().copied().collect();
    assert_eq!(
        selectors,
        vec![
            RowSelector::skip(2),
            RowSelector::select(2),
            RowSelector::skip(6),
        ]
    );
    assert_eq!(selection.row_count(), 2);
    assert_eq!(
        take_query_selection(&[3, 1], 10),
        Err(TakeQueryError::Unsorted)
    );
    assert_eq!(
        take_query_selection(&[11], 10),
        Err(TakeQueryError::IndexOutOfBounds)
    );
}

#[test]
fn row_selection_sparse_runs() {
    let selection = indices_to_row_selection(&[3, 8], 10);
    let selectors: Vec<RowSelector> = selection.iter().copied().collect();
    assert_eq!(
        selectors,
        vec![
            RowSelector::skip(3),
            RowSelector::select(1),
            RowSelector::skip(4),
            RowSelector::select(1),
            RowSelector::skip(1),
        ]
    );
}
