//! The outcome of one case and the counts reported for a whole run.

use vstd::prelude::*;

verus! {

/// What a test case reports when it is invoked: `Ok` for a pass, `Err` for a failure.
pub type TestResult = Result<(), ()>;

/// The counts of one run.
///
/// `success_count` counts the cases reached while no failure had been seen
/// yet, the first failing case included; `error_count` counts the cases
/// reached after that first failure.
#[derive(Debug, PartialEq, Eq, Clone, Copy, Structural)]
pub struct TestReport {
    pub total_tests: u32,
    pub success_count: u32,
    pub error_count: u32,
}

impl TestReport {
    /// The report of a run that reached no case.
    pub open spec fn zero() -> TestReport {
        TestReport { total_tests: 0, success_count: 0, error_count: 0 }
    }
}

impl Default for TestReport {
    fn default() -> (report: TestReport)
        ensures
            report == TestReport::zero(),
    {
        TestReport { total_tests: 0, success_count: 0, error_count: 0 }
    }
}

} // verus!
