//! Random query generation: each query is a batch of random row
//! indices, sorted ascending as the row-selection codec's callers
//! expect.

use vstd::prelude::*;

use rand::Rng;

verus! {

/// A sequence of row indices is sorted ascending (duplicates allowed).
pub open spec fn sorted_ascending(s: Seq<u64>) -> bool {
    forall|i: int, j: int| 0 <= i <= j < s.len() ==> s[i] <= s[j]
}

/// Relies on rand's thread-local `Rng::gen_range`: it returns a value
/// of the given half-open range and panics only on an empty range,
/// which the precondition rules out. The outcome is random, so nothing
/// beyond range membership is assumed of it.
#[verifier::external_body]
fn random_index(bound: u64) -> (r: u64)
    requires
        bound >= 1,
    ensures
        r < bound,
{
    rand::thread_rng().gen_range(0..bound)
}

/// Sorts row indices ascending in place, keeping exactly the same
/// collection of values.
pub fn sort_indices(v: &mut Vec<u64>)
    ensures
        sorted_ascending(final(v)@),
        final(v)@.to_multiset() == old(v)@.to_multiset(),
        final(v)@.len() == old(v)@.len(),
{
    let n = v.len();
    if n <= 1 {
        return ;
    }
    let mut i: usize = 1;
    while i < n
        invariant
            n == v@.len(),
            1 <= i <= n,
            v@.to_multiset() == old(v)@.to_multiset(),
            forall|a: int, b: int| 0 <= a <= b < i ==> v@[a] <= v@[b],
        decreases n - i,
    {
        let mut j: usize = i;
        while j > 0 && v[j - 1] > v[j]
            invariant
                n == v@.len(),
                0 <= j <= i < n,
                v@.to_multiset() == old(v)@.to_multiset(),
                forall|a: int, b: int| 0 <= a < b <= i && b != j ==> v@[a] <= v@[b],
            decreases j,
        {
            let x = v[j - 1];
            let y = v[j];
            let ghost s = v@;
            v.set(j - 1, y);
            v.set(j, x);
            proof {
                broadcast use vstd::seq_lib::group_to_multiset_ensures;
                broadcast use vstd::seq_lib::to_multiset_update;
                broadcast use vstd::multiset::group_multiset_axioms;

                let a = j - 1;
                let t1 = s.update(a as int, y);
                assert(v@ == t1.update(j as int, x));
                assert(t1[j as int] == y);
                assert(s.contains(s[a as int])) by {
                    assert(s[a as int] == s[a as int]);
                }
                assert(s.to_multiset().count(x) > 0);
                assert(t1.to_multiset() == s.to_multiset().insert(y).remove(x));
                assert(v@.to_multiset() == t1.to_multiset().insert(x).remove(y));
                assert(v@.to_multiset() =~= s.to_multiset());
            }
            j = j - 1;
        }
        proof {
            if j > 0 {
                assert forall|a: int| 0 <= a < j implies #[trigger] v@[a] <= v@[j as int] by {
                    if a < j - 1 {
                        assert(v@[a] <= v@[j - 1]);
                    }
                }
            }
            assert(forall|a: int, b: int| 0 <= a <= b < i + 1 ==> v@[a] <= v@[b]);
        }
        i = i + 1;
    }
}

/// Generates `num_queries` random queries of `rows_per_query` row
/// indices each, every index below `max_row`, each query sorted
/// ascending. The index values themselves are random; nothing more is
/// promised of them.
pub fn generate_queries(num_queries: usize, rows_per_query: usize, max_row: usize) -> (qs: Vec<
    Vec<u64>,
>)
    requires
        max_row >= 1,
    ensures
        qs@.len() == num_queries,
        forall|i: int| 0 <= i < num_queries ==> #[trigger] qs@[i]@.len() == rows_per_query,
        forall|i: int| 0 <= i < num_queries ==> sorted_ascending(#[trigger] qs@[i]@),
        forall|i: int, k: int|
            0 <= i < num_queries && 0 <= k < rows_per_query ==> #[trigger] qs@[i]@[k] < max_row
                as u64,
    {
    let mut qs: Vec<Vec<u64>> = Vec::new();
    let mut i: usize = 0;
    while i < num_queries
        invariant
            max_row >= 1,
            0 <= i <= num_queries,
            qs@.len() == i,
            forall|n: int| 0 <= n < i ==> #[trigger] qs@[n]@.len() == rows_per_query,
            forall|n: int| 0 <= n < i ==> sorted_ascending(#[trigger] qs@[n]@),
            forall|n: int, k: int|
                0 <= n < i && 0 <= k < rows_per_query ==> #[trigger] qs@[n]@[k] < max_row as u64,
        decreases num_queries - i,
    {
        let mut query: Vec<u64> = Vec::new();
        let mut k: usize = 0;
        while k < rows_per_query
            invariant
                max_row >= 1,
                0 <= k <= rows_per_query,
                query@.len() == k,
                forall|m: int| 0 <= m < k ==> #[trigger] query@[m] < max_row as u64,
            decreases rows_per_query - k,
        {
            let r = random_index(max_row as u64);
            query.push(r);
            k = k + 1;
        }
        let ghost pre = query@;
        sort_indices(&mut query);
        proof {
            broadcast use vstd::seq_lib::group_to_multiset_ensures;

            assert forall|m: int| 0 <= m < query@.len() implies #[trigger] query@[m] < max_row
                as u64 by {
                assert(query@.contains(query@[m]));
                assert(query@.to_multiset().count(query@[m]) > 0);
                assert(pre.to_multiset().count(query@[m]) > 0);
                assert(pre.contains(query@[m]));
            }
        }
        qs.push(query);
        i = i + 1;
    }
    qs
}

} // verus!
