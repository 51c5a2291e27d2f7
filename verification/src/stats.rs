//! Latency statistics indexing.
//!
//! The aggregate report (mean, population standard deviation, extrema,
//! percentiles) is computed over floating-point seconds by the
//! surrounding program. What is verified here is the percentile
//! selection rule it must use: nearest-rank indexing into the sorted
//! sample at `floor(n * percent / 100)`, deliberately not interpolated
//! — on an even-length sample the 50th percentile is the element just
//! above the midpoint, not the textbook median.

use vstd::prelude::*;

verus! {

/// Index of the `percent`-th percentile in a sorted sample of `n`
/// entries, by the nearest-rank floor rule: `floor(n * percent / 100)`.
/// Always a valid index of the sample.
pub fn percentile_index(n: usize, percent: usize) -> (r: usize)
    requires
        1 <= n,
        percent <= 99,
        n <= usize::MAX / 99,
    ensures
        r == n * percent / 100,
        r < n,
{
    proof {
        assert(n * percent <= n * 99) by (nonlinear_arith)
            requires
                percent <= 99,
                n >= 1,
        ;
        assert(n * 99 <= usize::MAX) by (nonlinear_arith)
            requires
                n <= usize::MAX / 99,
        ;
        assert(n * percent / 100 < n) by (nonlinear_arith)
            requires
                n >= 1,
                percent <= 99,
        ;
    }
    (n * percent) / 100
}

} // verus!
