//! Core logic of a columnar-storage take/scan benchmark harness:
//! the sorted-index-to-row-selection codec, the query dispatcher state
//! machine, random query generation, latency statistics indexing,
//! input format detection, and byte-size report formatting.

use vstd::prelude::*;

pub mod dispatch;
pub mod input;
pub mod queries;
pub mod scan;
pub mod selection;
pub mod stats;
pub mod uri;

verus! {

} // verus!
