use rspec::{describe, TestReport};
use std::cell::RefCell;
use std::sync::atomic::{AtomicUsize, Ordering};

#[test]
fn no_cases_give_an_empty_ok_report() {
    let mut runner = describe("empty", |_ctx| {});
    assert_eq!(runner.run(), Ok(()));
    assert_eq!(
        runner.result(),
        Ok(TestReport { total_tests: 0, success_count: 0, error_count: 0 })
    );
}

#[test]
fn result_before_any_run_is_the_empty_ok_report() {
    let runner = describe("not run", |ctx| {
        ctx.it("never attempted", || Err(()));
    });
    assert_eq!(runner.result(), Ok(TestReport::default()));
    assert_eq!(
        TestReport::default(),
        TestReport { total_tests: 0, success_count: 0, error_count: 0 }
    );
}

#[test]
fn three_passing_cases_are_three_successes() {
    let mut runner = describe("all pass", |ctx| {
        ctx.it("one", || Ok(()));
        ctx.it("two", || Ok(()));
        ctx.it("three", || Ok(()));
    });
    assert_eq!(runner.run(), Ok(()));
    assert_eq!(
        runner.result(),
        Ok(TestReport { total_tests: 3, success_count: 3, error_count: 0 })
    );
}

#[test]
fn fail_fail_pass_counts_one_success_and_two_errors() {
    let mut runner = describe("fail first", |ctx| {
        ctx.it("one", || Err(()));
        ctx.it("two", || Err(()));
        ctx.it("three", || Ok(()));
    });
    assert_eq!(runner.run(), Ok(()));
    assert_eq!(
        runner.result(),
        Err(TestReport { total_tests: 3, success_count: 1, error_count: 2 })
    );
}

#[test]
fn errors_are_the_cases_behind_the_first_failure() {
    let mut runner = describe("fail in the middle", |ctx| {
        ctx.it("one", || Ok(()));
        ctx.it("two", || Ok(()));
        ctx.it("three", || Err(()));
        ctx.it("four", || Ok(()));
        ctx.it("five", || Err(()));
        ctx.it("six", || Ok(()));
    });
    runner.run().unwrap();
    assert_eq!(
        runner.result(),
        Err(TestReport { total_tests: 6, success_count: 3, error_count: 3 })
    );
}

#[test]
fn a_failing_last_case_counts_no_error() {
    let mut runner = describe("fail last", |ctx| {
        ctx.it("one", || Ok(()));
        ctx.it("two", || Err(()));
    });
    runner.run().unwrap();
    assert_eq!(
        runner.result(),
        Err(TestReport { total_tests: 2, success_count: 2, error_count: 0 })
    );
}

#[test]
fn a_failing_case_does_not_stop_the_cases_behind_it() {
    let counter = AtomicUsize::new(0);
    let mut runner = describe("fail then pass", |ctx| {
        ctx.it("fails", || Err(()));
        ctx.it("still attempted", || {
            counter.fetch_add(1, Ordering::Relaxed);
            Ok(())
        });
        ctx.it("attempted as well", || {
            counter.fetch_add(1, Ordering::Relaxed);
            Err(())
        });
    });
    runner.run().unwrap();
    assert_eq!(
        runner.result(),
        Err(TestReport { total_tests: 3, success_count: 1, error_count: 2 })
    );
    assert_eq!(counter.load(Ordering::Relaxed), 2);
}

#[test]
fn one_hook_runs_once_for_each_of_three_nested_cases() {
    let hooked = AtomicUsize::new(0);
    let mut runner = describe("hooked", |ctx| {
        ctx.it("first", || Ok(()));
        ctx.describe("group", |ctx| {
            ctx.before(|| {
                hooked.fetch_add(1, Ordering::Relaxed);
            });
            ctx.it("second", || Ok(()));
            ctx.describe("deeper", |ctx| {
                ctx.it("third", || Ok(()));
            });
        });
    });
    runner.run().unwrap();
    assert_eq!(hooked.load(Ordering::Relaxed), 3);
    assert_eq!(
        runner.result(),
        Ok(TestReport { total_tests: 3, success_count: 3, error_count: 0 })
    );
}

#[test]
fn hooks_run_in_registration_order_before_every_case() {
    let log = RefCell::new(Vec::new());
    let mut runner = describe("ordered", |ctx| {
        ctx.before(|| log.borrow_mut().push("hook a"));
        ctx.it("one", || {
            log.borrow_mut().push("case one");
            Ok(())
        });
        ctx.describe("inner", |ctx| {
            ctx.before(|| log.borrow_mut().push("hook b"));
            ctx.it("two", || {
                log.borrow_mut().push("case two");
                Err(())
            });
        });
    });
    runner.run().unwrap();
    assert_eq!(
        *log.borrow(),
        vec!["hook a", "hook b", "case one", "hook a", "hook b", "case two"]
    );
}

#[test]
fn hooks_without_cases_are_never_invoked() {
    let hooked = AtomicUsize::new(0);
    let mut runner = describe("hooks only", |ctx| {
        ctx.before(|| {
            hooked.fetch_add(1, Ordering::Relaxed);
        });
    });
    runner.run().unwrap();
    assert_eq!(hooked.load(Ordering::Relaxed), 0);
    assert_eq!(runner.result(), Ok(TestReport::default()));
}

#[test]
fn a_second_run_repeats_every_case_and_replaces_the_report() {
    let attempts = AtomicUsize::new(0);
    let mut runner = describe("flaky", |ctx| {
        ctx.it("fails the first time only", || {
            if attempts.fetch_add(1, Ordering::Relaxed) == 0 {
                Err(())
            } else {
                Ok(())
            }
        });
        ctx.it("passes", || Ok(()));
    });
    runner.run().unwrap();
    assert_eq!(
        runner.result(),
        Err(TestReport { total_tests: 2, success_count: 1, error_count: 1 })
    );
    runner.run().unwrap();
    assert_eq!(
        runner.result(),
        Ok(TestReport { total_tests: 2, success_count: 2, error_count: 0 })
    );
    assert_eq!(attempts.load(Ordering::Relaxed), 2);
}
