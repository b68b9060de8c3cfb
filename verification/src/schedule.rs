//! The order in which a run invokes the registered hooks and cases.

use vstd::prelude::*;
use vstd::arithmetic::div_mod::lemma_fundamental_div_mod_converse;
use vstd::arithmetic::mul::{lemma_mul_inequality, lemma_mul_is_distributive_add_other_way};
use vstd::multiset::lemma_multiset_empty_len;
use vstd::seq_lib::{lemma_multiset_commutative, to_multiset_build, to_multiset_len};

verus! {

/// One invocation of a registered callable, named by its position in its list.
pub enum Call {
    /// The before-hook registered at this position.
    Hook(int),
    /// The test case registered at this position.
    Case(int),
}

/// The invocations that make up the attempt of one case: every hook once,
/// in registration order, then the case itself.
pub open spec fn attempt_calls(hooks: nat, case: int) -> Seq<Call> {
    Seq::new(hooks + 1, |j: int| if j < hooks { Call::Hook(j) } else { Call::Case(case) })
}

/// The invocations of a whole run over `cases` cases and `hooks` hooks:
/// position `k` belongs to the attempt of case `k / (hooks + 1)`.
pub open spec fn schedule(hooks: nat, cases: nat) -> Seq<Call> {
    Seq::new(
        cases * (hooks + 1),
        |k: int| attempt_calls(hooks, k / (hooks + 1) as int)[k % (hooks + 1) as int],
    )
}

/// A run over one more case is the run over the cases before it, followed
/// by the attempt of that case.
pub proof fn lemma_schedule_extends(hooks: nat, cases: nat)
    ensures
        schedule(hooks, cases + 1) == schedule(hooks, cases) + attempt_calls(hooks, cases as int),
{
    let width = (hooks + 1) as int;
    let longer = schedule(hooks, cases + 1);
    let joined = schedule(hooks, cases) + attempt_calls(hooks, cases as int);
    lemma_mul_is_distributive_add_other_way(width, cases as int, 1);
    assert(longer.len() == joined.len());
    assert forall|k: int| 0 <= k < longer.len() implies longer[k] == joined[k] by {
        if k >= cases * width {
            lemma_fundamental_div_mod_converse(k, width, cases as int, k - cases * width);
        }
    }
    assert(longer =~= joined);
}

/// Within a run, the attempt of case `case` starts at position
/// `case * (hooks + 1)`: hook `j` is invoked `j` places later, and the case
/// itself right behind the last hook.
pub proof fn lemma_schedule_places(hooks: nat, cases: nat, case: int)
    requires
        0 <= case < cases,
    ensures
        case * (hooks + 1) + hooks < schedule(hooks, cases).len(),
        forall|j: int| 0 <= j < hooks ==>
            schedule(hooks, cases)[case * (hooks + 1) + j] == Call::Hook(j),
        schedule(hooks, cases)[case * (hooks + 1) + hooks] == Call::Case(case),
{
    let width = (hooks + 1) as int;
    lemma_mul_inequality(case + 1, cases as int, width);
    lemma_mul_is_distributive_add_other_way(width, case, 1);
    assert forall|j: int| 0 <= j <= hooks implies #[trigger] schedule(hooks, cases)[case * width + j]
        == attempt_calls(hooks, case)[j] by {
        lemma_fundamental_div_mod_converse(case * width + j, width, case, j);
    }
}

/// Whatever the cases before it report, a case registered later is
/// invoked later in the same run: a failing case does not end the run.
pub proof fn lemma_later_case_attempted(hooks: nat, cases: nat, failing: int, later: int)
    requires
        0 <= failing < later < cases,
    ensures
        failing * (hooks + 1) + hooks < later * (hooks + 1) + hooks < schedule(hooks, cases).len(),
        schedule(hooks, cases)[failing * (hooks + 1) + hooks] == Call::Case(failing),
        schedule(hooks, cases)[later * (hooks + 1) + hooks] == Call::Case(later),
{
    lemma_schedule_places(hooks, cases, failing);
    lemma_schedule_places(hooks, cases, later);
    lemma_mul_inequality(failing + 1, later, (hooks + 1) as int);
    lemma_mul_is_distributive_add_other_way((hooks + 1) as int, failing, 1);
}

/// How often `call` is made in `calls`.
pub open spec fn times(calls: Seq<Call>, call: Call) -> nat {
    calls.to_multiset().count(call)
}

/// How often a run over `cases` cases and `hooks` hooks makes `call`: a
/// registered hook is invoked once for each case, a registered case once,
/// and nothing else is invoked.
pub open spec fn expected_times(hooks: nat, cases: nat, call: Call) -> nat {
    match call {
        Call::Hook(j) => if 0 <= j < hooks { cases } else { 0 },
        Call::Case(i) => if 0 <= i < cases { 1 } else { 0 },
    }
}

proof fn lemma_hook_calls_times(hooks: nat, call: Call)
    ensures
        times(Seq::new(hooks, |j: int| Call::Hook(j)), call) == match call {
            Call::Hook(j) => if 0 <= j < hooks { 1nat } else { 0nat },
            Call::Case(_) => 0nat,
        },
    decreases hooks,
{
    broadcast use vstd::multiset::group_multiset_axioms;

    let all = Seq::new(hooks, |j: int| Call::Hook(j));
    if hooks == 0 {
        to_multiset_len(all);
        lemma_multiset_empty_len(all.to_multiset());
    } else {
        let fewer = Seq::new((hooks - 1) as nat, |j: int| Call::Hook(j));
        lemma_hook_calls_times((hooks - 1) as nat, call);
        assert(all =~= fewer.push(Call::Hook(hooks - 1)));
        to_multiset_build(fewer, Call::Hook(hooks - 1));
    }
}

/// The attempt of one case invokes every registered hook once and the
/// case once, and nothing else.
pub proof fn lemma_attempt_times(hooks: nat, case: int, call: Call)
    ensures
        times(attempt_calls(hooks, case), call) == match call {
            Call::Hook(j) => if 0 <= j < hooks { 1nat } else { 0nat },
            Call::Case(i) => if i == case { 1nat } else { 0nat },
        },
{
    broadcast use vstd::multiset::group_multiset_axioms;

    let before = Seq::new(hooks, |j: int| Call::Hook(j));
    lemma_hook_calls_times(hooks, call);
    assert(attempt_calls(hooks, case) =~= before.push(Call::Case(case)));
    to_multiset_build(before, Call::Case(case));
}

/// A whole run invokes every registered hook exactly once for each case,
/// and every registered case exactly once.
pub proof fn lemma_schedule_times(hooks: nat, cases: nat, call: Call)
    ensures
        times(schedule(hooks, cases), call) == expected_times(hooks, cases, call),
    decreases cases,
{
    broadcast use vstd::multiset::group_multiset_axioms;

    if cases == 0 {
        to_multiset_len(schedule(hooks, 0));
        lemma_multiset_empty_len(schedule(hooks, 0).to_multiset());
    } else {
        let fewer = (cases - 1) as nat;
        lemma_schedule_times(hooks, fewer, call);
        lemma_schedule_extends(hooks, fewer);
        lemma_attempt_times(hooks, fewer as int, call);
        lemma_multiset_commutative(schedule(hooks, fewer), attempt_calls(hooks, fewer as int));
    }
}

} // verus!
