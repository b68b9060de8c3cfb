//! How the outcomes of a run, taken in order, add up to its report.

use vstd::prelude::*;
use crate::report::{TestReport, TestResult};

verus! {

/// Every outcome is a pass.
pub open spec fn all_pass(outcomes: Seq<TestResult>) -> bool {
    forall|i: int| 0 <= i < outcomes.len() ==> outcomes[i] is Ok
}

/// The position of the first failing outcome, or the length where none fails.
pub open spec fn first_failure(outcomes: Seq<TestResult>) -> int
    decreases outcomes.len(),
{
    if outcomes.len() == 0 {
        0
    } else {
        let earlier = first_failure(outcomes.drop_last());
        if earlier < outcomes.len() - 1 || outcomes.last() is Err {
            earlier
        } else {
            outcomes.len() as int
        }
    }
}

/// The number of cases counted as successes: those up to and including the
/// first failing one, or all of them where none fails.
pub open spec fn success_slots(outcomes: Seq<TestResult>) -> int {
    if first_failure(outcomes) < outcomes.len() {
        first_failure(outcomes) + 1
    } else {
        outcomes.len() as int
    }
}

/// The number of cases counted as errors: those after the first failing one.
pub open spec fn error_slots(outcomes: Seq<TestResult>) -> int {
    outcomes.len() - success_slots(outcomes)
}

/// The report that a run with these outcomes produces.
pub open spec fn report_of(outcomes: Seq<TestResult>) -> TestReport {
    TestReport {
        total_tests: outcomes.len() as u32,
        success_count: success_slots(outcomes) as u32,
        error_count: error_slots(outcomes) as u32,
    }
}

/// The report of a run together with its status: `Ok` where no case failed,
/// `Err` from the first failure on.
pub open spec fn verdict_of(outcomes: Seq<TestResult>) -> Result<TestReport, TestReport> {
    if first_failure(outcomes) == outcomes.len() {
        Ok(report_of(outcomes))
    } else {
        Err(report_of(outcomes))
    }
}

/// `first_failure` lies within the sequence or just behind it, everything
/// before it passes, and where it lies within, the outcome there fails.
pub proof fn lemma_first_failure(outcomes: Seq<TestResult>)
    ensures
        0 <= first_failure(outcomes) <= outcomes.len(),
        forall|i: int| 0 <= i < first_failure(outcomes) ==> outcomes[i] is Ok,
        first_failure(outcomes) < outcomes.len() ==> outcomes[first_failure(outcomes)] is Err,
        first_failure(outcomes) == outcomes.len() <==> all_pass(outcomes),
    decreases outcomes.len(),
{
    if outcomes.len() > 0 {
        let front = outcomes.drop_last();
        lemma_first_failure(front);
        assert forall|i: int| 0 <= i < first_failure(outcomes) implies outcomes[i] is Ok by {
            if i < front.len() {
                assert(front[i] == outcomes[i]);
            }
        }
        if first_failure(outcomes) < outcomes.len() {
            let k = first_failure(outcomes);
            if k < front.len() {
                assert(front[k] == outcomes[k]);
            }
        }
    }
}

/// A run that reached no case reports nothing and is a success.
pub proof fn lemma_no_cases(outcomes: Seq<TestResult>)
    requires
        outcomes.len() == 0,
    ensures
        verdict_of(outcomes) == Ok::<TestReport, TestReport>(TestReport::zero()),
{
}

/// Where every case passes, the run is a success: every case is counted
/// as a success and none as an error.
pub proof fn lemma_all_pass(outcomes: Seq<TestResult>)
    requires
        all_pass(outcomes),
    ensures
        verdict_of(outcomes) is Ok,
        success_slots(outcomes) == outcomes.len(),
        error_slots(outcomes) == 0,
{
    lemma_first_failure(outcomes);
}

/// Where some case fails, the run is a failure. The cases up to and
/// including the first failing one are counted as successes, and the
/// errors are the cases behind it, however many of them fail.
pub proof fn lemma_some_failure(outcomes: Seq<TestResult>, failing: int)
    requires
        0 <= failing < outcomes.len(),
        outcomes[failing] is Err,
    ensures
        verdict_of(outcomes) is Err,
        0 <= first_failure(outcomes) <= failing,
        outcomes[first_failure(outcomes)] is Err,
        forall|i: int| 0 <= i < first_failure(outcomes) ==> outcomes[i] is Ok,
        success_slots(outcomes) == first_failure(outcomes) + 1,
        error_slots(outcomes) == outcomes.len() - 1 - first_failure(outcomes),
{
    lemma_first_failure(outcomes);
    if first_failure(outcomes) > failing {
        assert(outcomes[failing] is Ok);
    }
}

/// The running tally of a run: the counts so far and whether every case so
/// far has left the status clean.
pub struct Tally {
    report: TestReport,
    status: TestResult,
    seen: Ghost<Seq<TestResult>>,
}

impl Tally {
    #[verifier::type_invariant]
    spec fn consistent(&self) -> bool {
        &&& self.seen@.len() <= u32::MAX
        &&& self.report == report_of(self.seen@)
        &&& self.status is Ok <==> first_failure(self.seen@) == self.seen@.len()
    }

    /// The outcomes recorded so far, oldest first.
    pub closed spec fn history(&self) -> Seq<TestResult> {
        self.seen@
    }

    /// A tally that has recorded nothing.
    pub fn new() -> (tally: Tally)
        ensures
            tally.history() == Seq::<TestResult>::empty(),
    {
        Tally { report: TestReport::default(), status: Ok(()), seen: Ghost(Seq::empty()) }
    }

    /// The number of outcomes recorded so far.
    pub fn recorded(&self) -> (n: u32)
        ensures
            n == self.history().len(),
    {
        proof {
            use_type_invariant(self);
        }
        self.report.total_tests
    }

    /// Records the outcome of the next case.
    ///
    /// While the status is clean the case is counted as a success and the
    /// status becomes the case's own outcome; afterwards every case is
    /// counted as an error.
    pub fn record(&mut self, outcome: TestResult)
        requires
            old(self).history().len() < u32::MAX,
        ensures
            final(self).history() == old(self).history().push(outcome),
    {
        proof {
            use_type_invariant(&*self);
            lemma_first_failure(self.seen@);
            lemma_first_failure(self.seen@.push(outcome));
            assert(self.seen@.push(outcome).drop_last() =~= self.seen@);
        }
        let mut report = self.report;
        let status = match self.status {
            Ok(()) => {
                report.success_count = report.success_count + 1;
                outcome
            },
            Err(()) => {
                report.error_count = report.error_count + 1;
                Err(())
            },
        };
        report.total_tests = report.total_tests + 1;
        *self = Tally { report, status, seen: Ghost(self.seen@.push(outcome)) };
    }

    /// The report of the outcomes recorded, as `Ok` where the status stayed
    /// clean and as `Err` otherwise.
    pub fn finish(&self) -> (verdict: Result<TestReport, TestReport>)
        ensures
            verdict == verdict_of(self.history()),
    {
        proof {
            use_type_invariant(self);
        }
        match self.status {
            Ok(()) => Ok(self.report),
            Err(()) => Err(self.report),
        }
    }
}

} // verus!
