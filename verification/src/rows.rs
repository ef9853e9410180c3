//! Test cases that report rows are evaluated on.
use vstd::prelude::*;

verus! {

/// A single accuracy test case: all inputs for a function call and the
/// expected output(s).
#[derive(Debug, Clone)]
pub struct TestCase<T> {
    pub inputs: Vec<T>,
    pub expected: Vec<T>,
}

} // verus!
