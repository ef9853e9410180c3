//! Column statistics.
use vstd::prelude::*;

verus! {

/// Statistical aggregator to use for a column.
#[derive(Debug, Clone, Copy, PartialEq, Eq, Structural)]
pub enum ColumnStat {
    Mean,
    Median,
    Min,
    Max,
    P99,
    P95,
    Variance,
}

} // verus!
