//! Execution: a runner attempts every registered case once, in
//! registration order, and keeps the report of its latest run.

use vstd::prelude::*;
use crate::context::Context;
use crate::report::{TestReport, TestResult};
use crate::schedule::{attempt_calls, lemma_schedule_extends, schedule, Call};
use crate::tally::{verdict_of, Tally};

verus! {

/// A built context together with the report of its latest run, if any.
pub struct Runner<'a> {
    describe: Context<'a>,
    report: Option<Result<TestReport, TestReport>>,
    outcomes: Ghost<Seq<TestResult>>,
    calls: Ghost<Seq<Call>>,
}

/// Builds a runner: hands `body` one fresh context to register into, and
/// wraps what it registered. The name is a label that is not kept.
pub fn describe<'a, 'b, F>(_block_name: &'b str, body: F) -> (runner: Runner<'a>) where
    F: 'a + FnOnce(&mut Context<'a>) -> (),

    requires
        forall|c: &mut Context<'a>| c.is_blank() ==> #[trigger] call_requires(body, (c,)),
    ensures
        exists|c: &mut Context<'a>|
            c.is_blank() && #[trigger] call_ensures(body, (c,), ()) && runner.context() == *final(c),
        runner.last_report() is None,
        runner.outcomes() == Seq::<TestResult>::empty(),
        runner.calls() == Seq::<Call>::empty(),
{
    let mut c = Context::new();
    body(&mut c);
    Runner { describe: c, report: None, outcomes: Ghost(Seq::empty()), calls: Ghost(Seq::empty()) }
}

impl<'a> Runner<'a> {
    /// The context that this runner was built from.
    pub closed spec fn context(&self) -> Context<'a> {
        self.describe
    }

    /// The verdict stored by the latest run, `None` before the first.
    pub closed spec fn last_report(&self) -> Option<Result<TestReport, TestReport>> {
        self.report
    }

    /// The outcomes behind the stored verdict, in the order of the cases;
    /// empty before the first run.
    pub closed spec fn outcomes(&self) -> Seq<TestResult> {
        self.outcomes@
    }

    /// The invocations of hooks and cases made since the latest run began,
    /// oldest first.
    pub closed spec fn calls(&self) -> Seq<Call> {
        self.calls@
    }

    /// Between two states of a runner nothing was registered or lost.
    pub open spec fn same_registrations(&self, earlier: &Runner<'a>) -> bool {
        &&& self.context().wf() == earlier.context().wf()
        &&& self.context().cases() == earlier.context().cases()
        &&& self.context().hooks() == earlier.context().hooks()
    }

    /// The number of test cases registered.
    pub fn case_count(&self) -> (n: usize)
        ensures
            n == self.context().cases().len(),
    {
        self.describe.count_cases()
    }

    /// Attempts the case at `index`: invokes every before-hook in
    /// registration order, then the case, and hands back what the case
    /// reported. Nothing is stored but the invocations made.
    pub fn attempt(&mut self, index: usize) -> (outcome: TestResult)
        requires
            old(self).context().wf(),
            index < old(self).context().cases().len(),
        ensures
            old(self).context().cases()[index as int](outcome),
            forall|j: int|
                0 <= j < old(self).context().hooks().len() ==> #[trigger] old(self).context().hooks()[j],
            final(self).calls() == old(self).calls() + attempt_calls(
                old(self).context().hook_count(),
                index as int,
            ),
            final(self).same_registrations(old(self)),
            final(self).last_report() == old(self).last_report(),
            final(self).outcomes() == old(self).outcomes(),
    {
        let (outcome, Ghost(made)) = self.describe.attempt(index);
        self.calls = Ghost(self.calls@ + made);
        outcome
    }

    /// Stores the verdict of a finished tally as the report of the latest run.
    pub fn complete(&mut self, tally: Tally)
        ensures
            final(self).last_report() == Some(verdict_of(tally.history())),
            final(self).outcomes() == tally.history(),
            final(self).context() == old(self).context(),
            final(self).calls() == old(self).calls(),
    {
        self.report = Some(tally.finish());
        self.outcomes = Ghost(tally.history());
    }

    /// Attempts every registered case once, in registration order, and
    /// stores the verdict. A failing case does not end the run: every case
    /// after it is attempted as well.
    ///
    /// The value returned says that the run was carried out, which it
    /// always is; what the cases reported is in the stored verdict.
    ///
    /// A panic raised inside a hook or a case is not caught here: it
    /// unwinds through this function. An embedding that counts such a
    /// fault as a failure of the one case drives the run itself, with
    /// `attempt`, `Tally::record` and `complete`, and puts its barrier
    /// around each attempt.
    pub fn run(&mut self) -> (ran: Result<(), ()>)
        requires
            old(self).context().wf(),
            old(self).context().cases().len() <= u32::MAX,
        ensures
            ran is Ok,
            final(self).same_registrations(old(self)),
            final(self).outcomes().len() == old(self).context().cases().len(),
            forall|i: int|
                0 <= i < final(self).outcomes().len() ==> old(self).context().cases()[i](
                    #[trigger] final(self).outcomes()[i],
                ),
            final(self).last_report() == Some(verdict_of(final(self).outcomes())),
            old(self).context().cases().len() > 0 ==> forall|j: int|
                0 <= j < old(self).context().hooks().len() ==> #[trigger] old(self).context().hooks()[j],
            old(self).context().cases().len() == 0 ==> final(self).last_report() == Some(
                Ok::<TestReport, TestReport>(TestReport::zero()),
            ),
            final(self).calls() == schedule(
                old(self).context().hook_count(),
                old(self).context().cases().len(),
            ),
    {
        let mut tally = Tally::new();
        let total = self.describe.count_cases();
        let ghost hooks = self.describe.hook_count();
        self.calls = Ghost(Seq::empty());
        assert(self.calls@ =~= schedule(hooks, 0));
        let mut index: usize = 0;
        while index < total
            invariant
                index <= total,
                total == self.context().cases().len(),
                total <= u32::MAX,
                hooks == self.context().hook_count(),
                self.context().wf(),
                self.same_registrations(old(self)),
                tally.history().len() == index,
                forall|i: int|
                    0 <= i < index ==> old(self).context().cases()[i](#[trigger] tally.history()[i]),
                self.calls() == schedule(hooks, index as nat),
                index > 0 ==> forall|j: int|
                    0 <= j < old(self).context().hooks().len() ==> #[trigger] old(self).context().hooks()[j],
            decreases total - index,
        {
            let outcome = self.attempt(index);
            tally.record(outcome);
            proof {
                lemma_schedule_extends(hooks, index as nat);
            }
            index = index + 1;
        }
        self.complete(tally);
        Ok(())
    }

    /// The verdict of the latest run: its report as `Ok` where no case
    /// failed, as `Err` otherwise. Before the first run it is the empty
    /// report as `Ok`.
    pub fn result(&self) -> (verdict: Result<TestReport, TestReport>)
        ensures
            verdict == match self.last_report() {
                Some(stored) => stored,
                None => Ok(TestReport::zero()),
            },
    {
        match self.report {
            Some(stored) => stored,
            None => Ok(TestReport::default()),
        }
    }
}

} // verus!
