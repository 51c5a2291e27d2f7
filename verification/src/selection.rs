//! Sorted-index-to-row-selection codec.
//!
//! Converts a sorted sequence of unique row indices plus a total row
//! count into a compact ordered sequence of alternating skip/select
//! run lengths, suitable for a backend's sequential-scan-with-skip
//! read primitive.

use vstd::prelude::*;

use parquet::arrow::arrow_reader::{RowSelection, RowSelector};

use crate::queries::sorted_ascending;

verus! {

/// One run-length segment of a row selection: either skip `n` rows of
/// the underlying row stream, or select (return) the next `n` rows.
#[derive(Clone, Copy, Debug, PartialEq, Eq, Structural)]
pub enum RowSegment {
    Skip(usize),
    Select(usize),
}

/// Length in rows of one segment.
pub open spec fn seg_len(s: RowSegment) -> nat {
    match s {
        RowSegment::Skip(n) => n as nat,
        RowSegment::Select(n) => n as nat,
    }
}

/// Whether a segment skips rows (as opposed to selecting them).
pub open spec fn seg_is_skip(s: RowSegment) -> bool {
    match s {
        RowSegment::Skip(n) => true,
        RowSegment::Select(n) => false,
    }
}

/// Total number of rows of the underlying stream spanned by a selection.
pub open spec fn seg_total(s: Seq<RowSegment>) -> nat
    decreases s.len(),
{
    if s.len() == 0 {
        0
    } else {
        seg_len(s[0]) + seg_total(s.drop_first())
    }
}

/// The row positions a selection picks out of the underlying stream,
/// in ascending order, when the selection is applied starting at
/// stream position `pos`.
pub open spec fn selected_from(s: Seq<RowSegment>, pos: int) -> Seq<int>
    decreases s.len(),
{
    if s.len() == 0 {
        Seq::empty()
    } else {
        match s[0] {
            RowSegment::Skip(n) => selected_from(s.drop_first(), pos + n),
            RowSegment::Select(n) => Seq::new(n as nat, |i: int| pos + i) + selected_from(
                s.drop_first(),
                pos + n,
            ),
        }
    }
}

/// A sequence of row indices is strictly ascending (sorted, no duplicates).
pub open spec fn strictly_ascending(s: Seq<u64>) -> bool {
    forall|i: int, j: int| 0 <= i < j < s.len() ==> s[i] < s[j]
}

/// The deduplication of a sorted sequence: runs of equal adjacent
/// values collapse to one.
pub open spec fn dedup_sorted(s: Seq<u64>) -> Seq<u64>
    decreases s.len(),
{
    if s.len() == 0 {
        s
    } else {
        let rest = dedup_sorted(s.drop_last());
        if rest.len() > 0 && rest.last() == s.last() {
            rest
        } else {
            rest.push(s.last())
        }
    }
}

/// The segments the codec emits for the indices at and after stream
/// position `pos`, with `total` rows in the stream: for each index, a
/// skip up to it (if any rows lie between) and a unit select; after
/// the last index, a skip to the end of the stream (if rows remain).
pub open spec fn segments_from(indices: Seq<u64>, pos: int, total: int) -> Seq<RowSegment>
    decreases indices.len(),
{
    if indices.len() == 0 {
        if pos < total {
            seq![RowSegment::Skip((total - pos) as usize)]
        } else {
            Seq::empty()
        }
    } else {
        let idx = indices[0] as int;
        let tail = segments_from(indices.drop_first(), idx + 1, total);
        if idx > pos {
            seq![RowSegment::Skip((idx - pos) as usize), RowSegment::Select(1)] + tail
        } else {
            seq![RowSegment::Select(1)] + tail
        }
    }
}

/// The full selection for a sorted index sequence over a stream of
/// `total` rows. An empty index sequence yields the degenerate
/// selection of a single skip over the whole stream.
pub open spec fn segments_of(indices: Seq<u64>, total: int) -> Seq<RowSegment> {
    if indices.len() == 0 {
        seq![RowSegment::Skip(total as usize)]
    } else {
        segments_from(indices, 0, total)
    }
}

/// The segment lengths emitted for strictly ascending in-bounds indices
/// sum to exactly the remaining stream length.
proof fn lemma_segments_from_total(indices: Seq<u64>, pos: int, total: int)
    requires
        strictly_ascending(indices),
        0 <= pos <= total <= usize::MAX,
        forall|k: int| 0 <= k < indices.len() ==> pos <= #[trigger] indices[k] < total,
    ensures
        seg_total(segments_from(indices, pos, total)) == total - pos,
    decreases indices.len(),
{
    if indices.len() == 0 {
        if pos < total {
            let s = segments_from(indices, pos, total);
            assert(seg_total(s) == seg_len(s[0]) + seg_total(s.drop_first()));
        }
    } else {
        let idx = indices[0] as int;
        let rest = indices.drop_first();
        assert(forall|k: int|
            0 <= k < rest.len() ==> idx + 1 <= #[trigger] rest[k] < total) by {
            assert(forall|k: int| 0 <= k < rest.len() ==> rest[k] == indices[k + 1]);
        }
        lemma_segments_from_total(rest, idx + 1, total);
        let tail = segments_from(rest, idx + 1, total);
        if idx > pos {
            let s = seq![RowSegment::Skip((idx - pos) as usize), RowSegment::Select(1)] + tail;
            assert(s.drop_first().drop_first() =~= tail);
            assert(seg_total(s.drop_first()) == 1 + seg_total(tail));
        } else {
            let s = seq![RowSegment::Select(1)] + tail;
            assert(s.drop_first() =~= tail);
        }
    }
}

/// The rows selected for strictly ascending in-bounds indices are
/// exactly those indices, in order, each exactly once.
proof fn lemma_segments_from_selected(indices: Seq<u64>, pos: int, total: int)
    requires
        strictly_ascending(indices),
        0 <= pos <= total <= usize::MAX,
        forall|k: int| 0 <= k < indices.len() ==> pos <= #[trigger] indices[k] < total,
    ensures
        selected_from(segments_from(indices, pos, total), pos) =~= Seq::new(
            indices.len(),
            |i: int| indices[i] as int,
        ),
    decreases indices.len(),
{
    if indices.len() == 0 {
        if pos < total {
            let s = segments_from(indices, pos, total);
            assert(s[0] == RowSegment::Skip((total - pos) as usize));
            assert(s.drop_first() =~= Seq::<RowSegment>::empty());
            assert(selected_from(s, pos) == selected_from(s.drop_first(), pos + (total - pos)));
        }
    } else {
        let idx = indices[0] as int;
        let rest = indices.drop_first();
        assert(forall|k: int|
            0 <= k < rest.len() ==> idx + 1 <= #[trigger] rest[k] < total) by {
            assert(forall|k: int| 0 <= k < rest.len() ==> rest[k] == indices[k + 1]);
        }
        lemma_segments_from_selected(rest, idx + 1, total);
        let tail = segments_from(rest, idx + 1, total);
        let unit = Seq::new(1, |i: int| idx + i);
        assert(unit =~= seq![idx]);
        if idx > pos {
            let s = segments_from(indices, pos, total);
            assert(s == seq![
                RowSegment::Skip((idx - pos) as usize),
                RowSegment::Select(1),
            ] + tail);
            assert(s.len() == 2 + tail.len());
            assert(s[0] == RowSegment::Skip((idx - pos) as usize));
            let s1 = s.drop_first();
            assert(s1.len() == 1 + tail.len());
            assert(s1[0] == RowSegment::Select(1usize));
            assert(s1.drop_first() =~= tail);
            assert(pos + (idx - pos) as usize == idx);
            assert(selected_from(s, pos) == selected_from(s1, idx));
            assert(selected_from(s1, idx) == Seq::new(1, |i: int| idx + i) + selected_from(
                tail,
                idx + 1,
            ));
        } else {
            let s = segments_from(indices, pos, total);
            assert(s == seq![RowSegment::Select(1)] + tail);
            assert(s[0] == RowSegment::Select(1usize));
            assert(s.drop_first() =~= tail);
            assert(selected_from(s, pos) == Seq::new(1, |i: int| pos + i) + selected_from(
                tail,
                pos + 1,
            ));
            assert(Seq::new(1, |i: int| pos + i) =~= unit);
        }
    }
}

/// Converts strictly ascending row indices, all below `total_rows`,
/// into run-length segments: the segments span exactly `total_rows`
/// rows of the stream and select exactly the given indices, in order.
pub fn indices_to_segments(indices: &[u64], total_rows: usize) -> (result: Vec<RowSegment>)
    requires
        strictly_ascending(indices@),
        forall|k: int| 0 <= k < indices@.len() ==> #[trigger] indices@[k] < total_rows,
    ensures
        result@ == segments_of(indices@, total_rows as int),
        seg_total(result@) == total_rows,
        selected_from(result@, 0) =~= Seq::new(indices@.len(), |i: int| indices@[i] as int),
{
    let n = indices.len();
    if n == 0 {
        let mut result: Vec<RowSegment> = Vec::new();
        result.push(RowSegment::Skip(total_rows));
        proof {
            assert(result@ =~= segments_of(indices@, total_rows as int));
            assert(result@[0] == RowSegment::Skip(total_rows));
            assert(result@.drop_first() =~= Seq::<RowSegment>::empty());
            assert(seg_total(result@) == total_rows + seg_total(result@.drop_first()));
            assert(selected_from(result@, 0) == selected_from(
                result@.drop_first(),
                0 + total_rows,
            ));
            assert(Seq::new(indices@.len(), |i: int| indices@[i] as int) =~= Seq::<int>::empty());
        }
        return result;
    }

    let mut result: Vec<RowSegment> = Vec::new();
    let mut current_pos: usize = 0;
    let mut i: usize = 0;

    proof {
        assert(indices@.skip(0) =~= indices@);
    }

    while i < n
        invariant
            n == indices@.len(),
            0 < n,
            0 <= i <= n,
            strictly_ascending(indices@),
            forall|k: int| 0 <= k < indices@.len() ==> #[trigger] indices@[k] < total_rows,
            i == 0 ==> current_pos == 0,
            i > 0 ==> current_pos == indices@[i - 1] + 1,
            current_pos <= total_rows,
            segments_of(indices@, total_rows as int) == result@ + segments_from(
                indices@.skip(i as int),
                current_pos as int,
                total_rows as int,
            ),
        decreases n - i,
    {
        let idx64 = indices[i];
        let idx = idx64 as usize;
        proof {
            assert(indices@[i as int] < total_rows);
            if i > 0 {
                assert(indices@[i - 1] < indices@[i as int]);
            }
            assert(indices@.skip(i as int)[0] == indices@[i as int]);
            assert(indices@.skip(i as int).drop_first() =~= indices@.skip(i + 1));
        }
        let ghost pre = result@;
        let ghost rest = segments_from(
            indices@.skip(i + 1),
            idx as int + 1,
            total_rows as int,
        );
        if idx > current_pos {
            result.push(RowSegment::Skip(idx - current_pos));
            result.push(RowSegment::Select(1));
            proof {
                assert(segments_from(
                    indices@.skip(i as int),
                    current_pos as int,
                    total_rows as int,
                ) == seq![
                    RowSegment::Skip((idx - current_pos) as usize),
                    RowSegment::Select(1),
                ] + rest);
                assert(result@ =~= pre + seq![
                    RowSegment::Skip((idx - current_pos) as usize),
                    RowSegment::Select(1),
                ]);
                assert(pre + (seq![
                    RowSegment::Skip((idx - current_pos) as usize),
                    RowSegment::Select(1),
                ] + rest) =~= result@ + rest);
            }
        } else {
            result.push(RowSegment::Select(1));
            proof {
                assert(segments_from(
                    indices@.skip(i as int),
                    current_pos as int,
                    total_rows as int,
                ) == seq![RowSegment::Select(1)] + rest);
                assert(result@ =~= pre + seq![RowSegment::Select(1)]);
                assert(pre + (seq![RowSegment::Select(1)] + rest) =~= result@ + rest);
            }
        }
        current_pos = idx + 1;
        i = i + 1;
    }

    proof {
        assert(indices@.skip(n as int) =~= Seq::<u64>::empty());
    }
    if current_pos < total_rows {
        let ghost pre = result@;
        result.push(RowSegment::Skip(total_rows - current_pos));
        proof {
            assert(segments_from(
                Seq::<u64>::empty(),
                current_pos as int,
                total_rows as int,
            ) =~= seq![RowSegment::Skip((total_rows - current_pos) as usize)]);
            assert(result@ =~= pre + seq![
                RowSegment::Skip((total_rows - current_pos) as usize),
            ]);
        }
    } else {
        proof {
            assert(segments_from(
                Seq::<u64>::empty(),
                current_pos as int,
                total_rows as int,
            ) =~= Seq::<RowSegment>::empty());
            assert(result@ + Seq::<RowSegment>::empty() =~= result@);
        }
    }

    proof {
        lemma_segments_from_total(indices@, 0, total_rows as int);
        lemma_segments_from_selected(indices@, 0, total_rows as int);
    }
    result
}

/// Two segments of the same kind merged into one run.
pub open spec fn seg_merge(a: RowSegment, b: RowSegment) -> RowSegment {
    if seg_is_skip(a) {
        RowSegment::Skip((seg_len(a) + seg_len(b)) as usize)
    } else {
        RowSegment::Select((seg_len(a) + seg_len(b)) as usize)
    }
}

/// Run-length normalization of a selection: zero-length segments are
/// dropped and consecutive segments of the same kind are merged, so
/// the result has only positive runs of strictly alternating kind.
pub open spec fn normalize(s: Seq<RowSegment>) -> Seq<RowSegment>
    decreases s.len(),
{
    if s.len() == 0 {
        Seq::empty()
    } else {
        let rest = normalize(s.drop_first());
        if seg_len(s[0]) == 0 {
            rest
        } else if rest.len() > 0 && seg_is_skip(rest[0]) == seg_is_skip(s[0]) {
            seq![seg_merge(s[0], rest[0])] + rest.drop_first()
        } else {
            seq![s[0]] + rest
        }
    }
}

/// The first segment's length never exceeds the total.
proof fn lemma_seg_total_first(s: Seq<RowSegment>)
    requires
        s.len() > 0,
    ensures
        seg_len(s[0]) <= seg_total(s),
        seg_total(s) == seg_len(s[0]) + seg_total(s.drop_first()),
{
}

/// Normalization preserves the total number of rows spanned.
pub proof fn lemma_normalize_total(s: Seq<RowSegment>)
    requires
        seg_total(s) <= usize::MAX,
    ensures
        seg_total(normalize(s)) == seg_total(s),
    decreases s.len(),
{
    if s.len() == 0 {
    } else {
        let d = s.drop_first();
        lemma_seg_total_first(s);
        lemma_normalize_total(d);
        let rest = normalize(d);
        if seg_len(s[0]) == 0 {
        } else if rest.len() > 0 && seg_is_skip(rest[0]) == seg_is_skip(s[0]) {
            lemma_seg_total_first(rest);
            let m = seg_merge(s[0], rest[0]);
            assert(seg_len(s[0]) + seg_len(rest[0]) <= usize::MAX);
            assert(seg_len(m) == seg_len(s[0]) + seg_len(rest[0]));
            let out = seq![m] + rest.drop_first();
            assert(out[0] == m);
            assert(out.drop_first() =~= rest.drop_first());
            lemma_seg_total_first(out);
        } else {
            let out = seq![s[0]] + rest;
            assert(out[0] == s[0]);
            assert(out.drop_first() =~= rest);
            lemma_seg_total_first(out);
        }
    }
}

/// Normalization preserves exactly which row positions are selected.
pub proof fn lemma_normalize_selected(s: Seq<RowSegment>, pos: int)
    requires
        seg_total(s) <= usize::MAX,
    ensures
        selected_from(normalize(s), pos) =~= selected_from(s, pos),
    decreases s.len(),
{
    if s.len() == 0 {
    } else {
        let d = s.drop_first();
        lemma_seg_total_first(s);
        let rest = normalize(d);
        let l0 = seg_len(s[0]) as int;
        lemma_normalize_selected(d, pos + l0);
        if l0 == 0 {
            lemma_normalize_selected(d, pos);
            if !seg_is_skip(s[0]) {
                assert(Seq::new(0, |i: int| pos + i) =~= Seq::<int>::empty());
                assert(Seq::<int>::empty() + selected_from(d, pos) =~= selected_from(d, pos));
            }
        } else if rest.len() > 0 && seg_is_skip(rest[0]) == seg_is_skip(s[0]) {
            lemma_seg_total_first(rest);
            lemma_normalize_total(d);
            let m = seg_merge(s[0], rest[0]);
            let lr = seg_len(rest[0]) as int;
            assert(seg_len(s[0]) + seg_len(rest[0]) <= usize::MAX);
            assert(seg_len(m) == l0 + lr);
            let out = seq![m] + rest.drop_first();
            assert(out[0] == m);
            assert(out.drop_first() =~= rest.drop_first());
            // rest unfolds across its own first element
            assert(selected_from(rest, pos + l0) == if seg_is_skip(rest[0]) {
                selected_from(rest.drop_first(), pos + l0 + lr)
            } else {
                Seq::new(lr as nat, |i: int| pos + l0 + i) + selected_from(
                    rest.drop_first(),
                    pos + l0 + lr,
                )
            });
            if seg_is_skip(s[0]) {
                assert(selected_from(out, pos) == selected_from(rest.drop_first(), pos + l0 + lr));
                assert(selected_from(s, pos) == selected_from(d, pos + l0));
            } else {
                assert(selected_from(out, pos) == Seq::new((l0 + lr) as nat, |i: int| pos + i)
                    + selected_from(rest.drop_first(), pos + l0 + lr));
                assert(selected_from(s, pos) == Seq::new(l0 as nat, |i: int| pos + i)
                    + selected_from(d, pos + l0));
                assert(Seq::new((l0 + lr) as nat, |i: int| pos + i) =~= Seq::new(
                    l0 as nat,
                    |i: int| pos + i,
                ) + Seq::new(lr as nat, |i: int| pos + l0 + i));
            }
        } else {
            let out = seq![s[0]] + rest;
            assert(out[0] == s[0]);
            assert(out.drop_first() =~= rest);
            if !seg_is_skip(s[0]) {
                assert(selected_from(out, pos) == Seq::new(l0 as nat, |i: int| pos + i)
                    + selected_from(rest, pos + l0));
                assert(selected_from(s, pos) == Seq::new(l0 as nat, |i: int| pos + i)
                    + selected_from(d, pos + l0));
            }
        }
    }
}

/// A normalized selection has only positive runs of alternating kind:
/// no segment is empty, and no two consecutive segments share a kind.
pub proof fn lemma_normalize_shape(s: Seq<RowSegment>)
    requires
        seg_total(s) <= usize::MAX,
    ensures
        forall|i: int| 0 <= i < normalize(s).len() ==> seg_len(#[trigger] normalize(s)[i]) > 0,
        forall|i: int|
            0 <= i < normalize(s).len() - 1 ==> seg_is_skip(#[trigger] normalize(s)[i])
                != seg_is_skip(normalize(s)[i + 1]),
    decreases s.len(),
{
    if s.len() == 0 {
    } else {
        let d = s.drop_first();
        lemma_seg_total_first(s);
        lemma_normalize_shape(d);
        let rest = normalize(d);
        if seg_len(s[0]) == 0 {
        } else if rest.len() > 0 && seg_is_skip(rest[0]) == seg_is_skip(s[0]) {
            lemma_normalize_total(d);
            lemma_seg_total_first(rest);
            let m = seg_merge(s[0], rest[0]);
            assert(seg_len(s[0]) + seg_len(rest[0]) <= usize::MAX);
            let out = seq![m] + rest.drop_first();
            assert(normalize(s) == out);
            assert(seg_len(m) > 0);
            assert(seg_is_skip(m) == seg_is_skip(rest[0]));
            assert(forall|i: int| 0 <= i < out.len() ==> #[trigger] out[i] == if i == 0 {
                m
            } else {
                rest[i]
            });
        } else {
            let out = seq![s[0]] + rest;
            assert(normalize(s) == out);
            assert(forall|i: int| 0 <= i < out.len() ==> #[trigger] out[i] == if i == 0 {
                s[0]
            } else {
                rest[i - 1]
            });
        }
    }
}

/// A parquet row selector, declared so its public fields are visible
/// to specifications.
#[verifier::external_type_specification]
pub struct ExRowSelector(RowSelector);

/// A parquet row selection, an opaque run-length collection of
/// selectors.
#[verifier::external_type_specification]
#[verifier::external_body]
pub struct ExRowSelection(RowSelection);

/// The run-length contents of a parquet row selection: for each run,
/// its row count and whether it skips (rather than selects).
pub uninterp spec fn selection_runs(s: RowSelection) -> Seq<(usize, bool)>;

/// The segment a parquet selector stands for.
pub open spec fn selector_seg(s: RowSelector) -> RowSegment {
    if s.skip {
        RowSegment::Skip(s.row_count)
    } else {
        RowSegment::Select(s.row_count)
    }
}

/// The run a segment stands for.
pub open spec fn seg_run(g: RowSegment) -> (usize, bool) {
    (seg_len(g) as usize, seg_is_skip(g))
}

/// The segment a run stands for.
pub open spec fn run_seg(p: (usize, bool)) -> RowSegment {
    if p.1 {
        RowSegment::Skip(p.0)
    } else {
        RowSegment::Select(p.0)
    }
}

/// The contents of a parquet row selection, read back as segments.
pub open spec fn selection_segments(s: RowSelection) -> Seq<RowSegment> {
    selection_runs(s).map_values(|p: (usize, bool)| run_seg(p))
}

/// Relies on parquet's `RowSelector::select`: it builds a non-skipping
/// selector of the given row count.
pub assume_specification[ RowSelector::select ](row_count: usize) -> (r: RowSelector)
    ensures
        r.row_count == row_count,
        !r.skip,
;

/// Relies on parquet's `RowSelector::skip`: it builds a skipping
/// selector of the given row count.
pub assume_specification[ RowSelector::skip ](row_count: usize) -> (r: RowSelector)
    ensures
        r.row_count == row_count,
        r.skip,
;

/// Relies on parquet's `RowSelection::from(Vec<RowSelector>)`: it drops
/// empty selectors and combines consecutive selectors of the same kind,
/// storing the resulting runs. The precondition rules out the overflow
/// panic in its run combining.
#[verifier::external_body]
fn selectors_to_selection(selectors: Vec<RowSelector>) -> (r: RowSelection)
    requires
        seg_total(selectors@.map_values(|s: RowSelector| selector_seg(s))) <= usize::MAX,
    ensures
        selection_runs(r) =~= normalize(
            selectors@.map_values(|s: RowSelector| selector_seg(s)),
        ).map_values(|g: RowSegment| seg_run(g)),
{
    RowSelection::from(selectors)
}

/// Reading runs back as segments undoes writing segments as runs.
proof fn lemma_runs_roundtrip(s: Seq<RowSegment>)
    ensures
        s.map_values(|g: RowSegment| seg_run(g)).map_values(|p: (usize, bool)| run_seg(p)) =~= s,
{
    let t = s.map_values(|g: RowSegment| seg_run(g)).map_values(|p: (usize, bool)| run_seg(p));
    assert(forall|i: int| 0 <= i < s.len() ==> t[i] == s[i]);
}

/// Converts sorted indices to a parquet row selection.
///
/// Indices must be strictly ascending and below `total_rows`. The
/// resulting selection holds the codec's segments in normalized
/// (run-merged) form: its runs span exactly `total_rows` rows and
/// select exactly the given indices, in order.
pub fn indices_to_row_selection(indices: &[u64], total_rows: usize) -> (r: RowSelection)
    requires
        strictly_ascending(indices@),
        forall|k: int| 0 <= k < indices@.len() ==> #[trigger] indices@[k] < total_rows,
    ensures
        selection_segments(r) == normalize(segments_of(indices@, total_rows as int)),
        seg_total(selection_segments(r)) == total_rows,
        selected_from(selection_segments(r), 0) =~= Seq::new(
            indices@.len(),
            |i: int| indices@[i] as int,
        ),
        forall|i: int|
            0 <= i < selection_segments(r).len() ==> seg_len(#[trigger] selection_segments(r)[i])
                > 0,
        forall|i: int|
            0 <= i < selection_segments(r).len() - 1 ==> seg_is_skip(
                #[trigger] selection_segments(r)[i],
            ) != seg_is_skip(selection_segments(r)[i + 1]),
{
    let segs = indices_to_segments(indices, total_rows);
    let n = segs.len();
    let mut selectors: Vec<RowSelector> = Vec::new();
    let mut j: usize = 0;
    while j < n
        invariant
            n == segs@.len(),
            0 <= j <= n,
            selectors@.len() == j,
            forall|k: int| 0 <= k < j ==> selector_seg(#[trigger] selectors@[k]) == segs@[k],
        decreases n - j,
    {
        let sel = match segs[j] {
            RowSegment::Skip(m) => RowSelector::skip(m),
            RowSegment::Select(m) => RowSelector::select(m),
        };
        selectors.push(sel);
        j = j + 1;
    }
    proof {
        assert(selectors@.map_values(|s: RowSelector| selector_seg(s)) =~= segs@);
    }
    let r = selectors_to_selection(selectors);
    proof {
        lemma_normalize_total(segs@);
        lemma_normalize_selected(segs@, 0);
        lemma_normalize_shape(segs@);
        lemma_runs_roundtrip(normalize(segs@));
    }
    r
}

/// Why a take query's indices were rejected.
#[derive(Clone, Copy, Debug, PartialEq, Eq, Structural)]
pub enum TakeQueryError {
    /// Some index is at or beyond the total row count.
    IndexOutOfBounds,
    /// The indices are not sorted ascending.
    Unsorted,
}

/// Validates and deduplicates a take query for the codec. The indices
/// must be sorted ascending (duplicates allowed) and below
/// `total_rows`; the result is their strictly ascending
/// deduplication, ready for the codec. Out-of-bounds indices are
/// reported before unsortedness.
pub fn prepare_take_indices(indices: &[u64], total_rows: usize) -> (r: Result<
    Vec<u64>,
    TakeQueryError,
>)
    ensures
        match r {
            Ok(u) => {
                &&& sorted_ascending(indices@)
                &&& forall|k: int| 0 <= k < indices@.len() ==> #[trigger] indices@[k] < total_rows
                &&& u@ == dedup_sorted(indices@)
                &&& strictly_ascending(u@)
                &&& forall|k: int| 0 <= k < u@.len() ==> #[trigger] u@[k] < total_rows
            },
            Err(TakeQueryError::IndexOutOfBounds) => exists|k: int|
                0 <= k < indices@.len() && #[trigger] indices@[k] >= total_rows,
            Err(TakeQueryError::Unsorted) => {
                &&& forall|k: int| 0 <= k < indices@.len() ==> #[trigger] indices@[k] < total_rows
                &&& !sorted_ascending(indices@)
            },
        },
{
    let n = indices.len();
    let mut i: usize = 0;
    while i < n
        invariant
            n == indices@.len(),
            0 <= i <= n,
            forall|k: int| 0 <= k < i ==> #[trigger] indices@[k] < total_rows,
        decreases n - i,
    {
        if indices[i] >= total_rows as u64 {
            proof {
                assert(indices@[i as int] >= total_rows);
            }
            return Err(TakeQueryError::IndexOutOfBounds);
        }
        i = i + 1;
    }

    let mut u: Vec<u64> = Vec::new();
    let mut j: usize = 0;
    proof {
        assert(indices@.take(0) =~= Seq::<u64>::empty());
    }
    while j < n
        invariant
            n == indices@.len(),
            0 <= j <= n,
            forall|k: int| 0 <= k < n ==> #[trigger] indices@[k] < total_rows,
            forall|a: int, b: int| 0 <= a <= b < j ==> indices@[a] <= indices@[b],
            u@ =~= dedup_sorted(indices@.take(j as int)),
            strictly_ascending(u@),
            forall|k: int| 0 <= k < u@.len() ==> #[trigger] u@[k] < total_rows,
            j > 0 ==> u@.len() > 0 && u@.last() == indices@[j - 1],
        decreases n - j,
    {
        let idx = indices[j];
        if j > 0 && idx < indices[j - 1] {
            proof {
                assert(!sorted_ascending(indices@)) by {
                    assert(indices@[j - 1] > indices@[j as int]);
                }
            }
            return Err(TakeQueryError::Unsorted);
        }
        proof {
            assert forall|a: int, b: int| 0 <= a <= b < j + 1 implies indices@[a]
                <= indices@[b] by {
                if b == j && a < j {
                    assert(indices@[a] <= indices@[j - 1]);
                }
            }
            assert(indices@.take(j + 1).drop_last() =~= indices@.take(j as int));
            assert(indices@.take(j + 1).last() == indices@[j as int]);
        }
        let ghost pre = u@;
        let push_needed: bool = if u.len() == 0 {
            true
        } else {
            u[u.len() - 1] != idx
        };
        if push_needed {
            proof {
                if j > 0 {
                    assert(pre.last() == indices@[j - 1]);
                    assert(pre.last() <= idx);
                }
            }
            u.push(idx);
            proof {
                assert(u@ =~= pre.push(idx));
                assert forall|a: int, b: int| 0 <= a < b < u@.len() implies u@[a] < u@[b] by {
                    if b == u@.len() - 1 {
                        if a == pre.len() - 1 {
                            assert(pre.last() != idx);
                        } else {
                            assert(pre[a] < pre[pre.len() - 1]);
                        }
                    }
                }
            }
        }
        proof {
            assert(u@ =~= dedup_sorted(indices@.take(j + 1)));
        }
        j = j + 1;
    }
    proof {
        assert(indices@.take(n as int) =~= indices@);
    }
    Ok(u)
}

/// Builds the parquet row selection for one take query, validating
/// the query first. Success is owed exactly when the indices are
/// sorted ascending and all below `total_rows`; the selection then
/// spans exactly `total_rows` rows and selects exactly the distinct
/// requested indices, each once, in ascending order.
pub fn take_query_selection(indices: &[u64], total_rows: usize) -> (r: Result<
    RowSelection,
    TakeQueryError,
>)
    ensures
        match r {
            Ok(sel) => {
                &&& sorted_ascending(indices@)
                &&& forall|k: int| 0 <= k < indices@.len() ==> #[trigger] indices@[k] < total_rows
                &&& selection_segments(sel) == normalize(
                    segments_of(dedup_sorted(indices@), total_rows as int),
                )
                &&& seg_total(selection_segments(sel)) == total_rows
                &&& selected_from(selection_segments(sel), 0) =~= Seq::new(
                    dedup_sorted(indices@).len(),
                    |i: int| dedup_sorted(indices@)[i] as int,
                )
            },
            Err(TakeQueryError::IndexOutOfBounds) => exists|k: int|
                0 <= k < indices@.len() && #[trigger] indices@[k] >= total_rows,
            Err(TakeQueryError::Unsorted) => !sorted_ascending(indices@),
        },
{
    let unique = match prepare_take_indices(indices, total_rows) {
        Ok(u) => u,
        Err(e) => {
            return Err(e);
        },
    };
    let sel = indices_to_row_selection(unique.as_slice(), total_rows);
    Ok(sel)
}

} // verus!
