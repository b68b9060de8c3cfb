//! Registration: the one flat list of test cases and the one flat list of
//! before-hooks that nested `describe` blocks all append to.

use vstd::prelude::*;
use crate::report::TestResult;
use crate::schedule::{attempt_calls, Call};

verus! {

/// A registered test case, whatever closure stands behind it.
trait Case {
    /// The case can be invoked.
    spec fn ready(&self) -> bool;

    /// The case may report `outcome` when it is invoked.
    spec fn allows(&self, outcome: TestResult) -> bool;

    fn invoke(&mut self) -> (outcome: TestResult)
        requires
            old(self).ready(),
        ensures
            old(self).allows(outcome),
            final(self).ready(),
            forall|o: TestResult| final(self).allows(o) == old(self).allows(o),
    ;
}

/// A registered before-hook, whatever closure stands behind it.
trait Hook {
    /// The hook can be invoked.
    spec fn ready(&self) -> bool;

    /// What holds once an invocation of the hook has returned.
    spec fn promises(&self) -> bool;

    fn invoke(&mut self)
        requires
            old(self).ready(),
        ensures
            old(self).promises(),
            final(self).ready(),
            final(self).promises() == old(self).promises(),
    ;
}

/// A test case given as a closure.
struct CaseFn<F> {
    body: F,
}

/// A before-hook given as a closure.
struct HookFn<F> {
    body: F,
}

impl<F: FnMut() -> TestResult> Case for CaseFn<F> {
    spec fn ready(&self) -> bool {
        call_requires(self.body, ())
    }

    spec fn allows(&self, outcome: TestResult) -> bool {
        call_ensures(self.body, (), outcome)
    }

    fn invoke(&mut self) -> (outcome: TestResult) {
        (self.body)()
    }
}

impl<F: FnMut() -> ()> Hook for HookFn<F> {
    spec fn ready(&self) -> bool {
        call_requires(self.body, ())
    }

    spec fn promises(&self) -> bool {
        call_ensures(self.body, (), ())
    }

    fn invoke(&mut self) {
        (self.body)()
    }
}

// An entry of either list is a tuple of one: Verus follows a trait object
// through a tuple and through a sequence of tuples.
fn case_entry<'a, F: 'a + FnMut() -> TestResult>(body: F) -> (entry: (Box<dyn Case + 'a>,))
    ensures
        entry.0.ready() == call_requires(body, ()),
        forall|o: TestResult| entry.0.allows(o) == call_ensures(body, (), o),
{
    (Box::new(CaseFn { body }),)
}

fn hook_entry<'a, F: 'a + FnMut() -> ()>(body: F) -> (entry: (Box<dyn Hook + 'a>,))
    ensures
        entry.0.ready() == call_requires(body, ()),
        entry.0.promises() == call_ensures(body, (), ()),
{
    (Box::new(HookFn { body }),)
}

/// The test cases and before-hooks registered so far, each list in
/// registration order.
///
/// There is one context for a whole tree of `describe` blocks: a nested
/// block registers into the same two lists, so a hook registered anywhere
/// runs before every case.
pub struct Context<'a> {
    tests: Vec<(Box<dyn Case + 'a>,)>,
    before_each: Vec<(Box<dyn Hook + 'a>,)>,
}

impl<'a> Context<'a> {
    /// Every registered case and hook can be invoked.
    pub closed spec fn wf(&self) -> bool {
        &&& forall|i: int| 0 <= i < self.tests@.len() ==> (#[trigger] self.tests@[i]).0.ready()
        &&& forall|j: int|
            0 <= j < self.before_each@.len() ==> (#[trigger] self.before_each@[j]).0.ready()
    }

    /// For each registered case, in registration order, the outcomes that
    /// the case may report when it is invoked.
    pub closed spec fn cases(&self) -> Seq<spec_fn(TestResult) -> bool> {
        Seq::new(self.tests@.len(), |i: int| |o: TestResult| self.tests@[i].0.allows(o))
    }

    /// For each registered before-hook, in registration order, what holds
    /// once an invocation of the hook has returned.
    pub closed spec fn hooks(&self) -> Seq<bool> {
        Seq::new(self.before_each@.len(), |j: int| self.before_each@[j].0.promises())
    }

    /// The number of before-hooks registered.
    pub open spec fn hook_count(&self) -> nat {
        self.hooks().len()
    }

    /// Nothing is registered.
    pub open spec fn is_blank(&self) -> bool {
        self.wf() && self.cases().len() == 0 && self.hook_count() == 0
    }

    /// A context with nothing registered.
    pub(crate) fn new() -> (context: Context<'a>)
        ensures
            context.is_blank(),
    {
        Context { tests: Vec::new(), before_each: Vec::new() }
    }

    /// The number of test cases registered.
    pub fn count_cases(&self) -> (n: usize)
        ensures
            n == self.cases().len(),
    {
        self.tests.len()
    }

    /// Runs `body` on this same context: a nested block registers into the
    /// one flat list, and its name is a label that is not kept.
    pub fn describe<F>(&mut self, _name: &'a str, mut body: F) where F: 'a + FnMut(&mut Context<'a>) -> ()
        requires
            forall|c: &mut Context<'a>| *c == *old(self) ==> #[trigger] call_requires(body, (c,)),
        ensures
            exists|c: &mut Context<'a>|
                *c == *old(self) && #[trigger] call_ensures(body, (c,), ()) && *final(c) == *final(self),
    {
        body(self)
    }

    /// Registers a test case behind the cases registered so far. The name
    /// is a label for the reader and is not kept.
    pub fn it<F>(&mut self, _name: &'a str, body: F) where F: 'a + FnMut() -> TestResult
        requires
            call_requires(body, ()),
        ensures
            final(self).cases() == old(self).cases().push(|o: TestResult| call_ensures(body, (), o)),
            final(self).hooks() == old(self).hooks(),
            old(self).wf() ==> final(self).wf(),
    {
        self.tests.push(case_entry(body));
        proof {
            assert(final(self).hooks() =~= old(self).hooks());
            assert(final(self).cases() =~~= old(self).cases().push(
                |o: TestResult| call_ensures(body, (), o),
            ));
        }
    }

    /// Registers a before-hook behind the hooks registered so far.
    pub fn before<F>(&mut self, body: F) where F: 'a + FnMut() -> ()
        requires
            call_requires(body, ()),
        ensures
            final(self).cases() == old(self).cases(),
            final(self).hooks() == old(self).hooks().push(call_ensures(body, (), ())),
            old(self).wf() ==> final(self).wf(),
    {
        self.before_each.push(hook_entry(body));
        proof {
            assert(final(self).cases() =~~= old(self).cases());
            assert(final(self).hooks() =~= old(self).hooks().push(call_ensures(body, (), ())));
        }
    }

    /// Attempts the case at `index`: invokes every before-hook in
    /// registration order, then the case, and hands back what the case
    /// reported together with the invocations made. Every hook has
    /// returned by then, so what each of them promises holds.
    pub(crate) fn attempt(&mut self, index: usize) -> (attempt: (TestResult, Ghost<Seq<Call>>))
        requires
            old(self).wf(),
            index < old(self).cases().len(),
        ensures
            old(self).cases()[index as int](attempt.0),
            attempt.1@ == attempt_calls(old(self).hook_count(), index as int),
            forall|j: int| 0 <= j < old(self).hooks().len() ==> #[trigger] old(self).hooks()[j],
            final(self).wf(),
            final(self).cases() == old(self).cases(),
            final(self).hooks() == old(self).hooks(),
    {
        let ghost mut calls: Seq<Call> = Seq::empty();
        let mut j: usize = 0;
        while j < self.before_each.len()
            invariant
                j <= self.before_each@.len(),
                self.wf(),
                self.tests == old(self).tests,
                self.before_each@.len() == old(self).before_each@.len(),
                self.hooks() == old(self).hooks(),
                forall|k: int| 0 <= k < j ==> #[trigger] old(self).hooks()[k],
                calls == Seq::new(j as nat, |k: int| Call::Hook(k)),
            decreases self.before_each@.len() - j,
        {
            let ghost before = self.hooks();
            self.before_each[j].0.invoke();
            proof {
                assert(self.hooks() =~= before);
                assert(before[j as int]);
                calls = calls.push(Call::Hook(j as int));
                assert(calls =~= Seq::new((j + 1) as nat, |k: int| Call::Hook(k)));
            }
            j = j + 1;
        }
        let outcome = self.tests[index].0.invoke();
        proof {
            calls = calls.push(Call::Case(index as int));
            assert(calls =~= attempt_calls(self.hook_count(), index as int));
            assert(final(self).cases() =~~= old(self).cases());
            assert(final(self).hooks() =~= old(self).hooks());
        }
        (outcome, Ghost(calls))
    }
}

} // verus!
