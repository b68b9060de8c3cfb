use expectest::prelude::expect;
use expectest::matchers::be_ok;
use rspec::describe;
use std::sync::atomic::{AtomicUsize, Ordering};

#[test]
fn it_create_a_runner_that_can_be_runned() {
    let mut runner = describe("A root", |ctx| {
        ctx.it("is expected to run", || {
            assert_eq!(true, true);
            Ok(())
        })
    });
    expect(runner.run()).to(be_ok());
}

#[test]
fn effectively_run_tests() {
    let ran = &mut false;

    {
        let mut runner = describe("A root", |ctx| {
            ctx.it("is expected to run", || {
                *ran = true;
                Ok(())
            })
        });
        runner.run().unwrap()
    }

    assert_eq!(true, *ran)
}

#[test]
fn effectively_run_two_tests() {
    let ran_counter = &mut AtomicUsize::new(0);

    {
        let mut runner = describe("A root", |ctx| {
            ctx.it("first run",  || { ran_counter.fetch_add(1, Ordering::Relaxed); Ok(()) });
            ctx.it("second run", || { ran_counter.fetch_add(1, Ordering::Relaxed); Ok(()) });
        });
        let _ = runner.run().unwrap();
    }

    assert_eq!(2, ran_counter.load(Ordering::Relaxed))
}

#[test]
fn effectively_run_two_tests_in_nested_describe() {
    let ran_counter = &mut AtomicUsize::new(0);

    {
        let mut runner = describe("A root", |ctx| {
            ctx.describe("first describe", |ctx| {
                ctx.it("first run",  || {
                    ran_counter.fetch_add(1, Ordering::Relaxed); Ok(())
                });
            });
            ctx.describe("second describe", |ctx| {
                ctx.it("second run",  || {
                    ran_counter.fetch_add(1, Ordering::Relaxed); Ok(())
                });
            });
            ctx.describe("third describe", |ctx| {
                ctx.describe("fourth describe", |ctx| {
                    ctx.it("third run",  || {
                        ran_counter.fetch_add(1, Ordering::Relaxed); Ok(())
                    });
                })
            })
        });
        let _ = runner.run().unwrap();
    }

    assert_eq!(3, ran_counter.load(Ordering::Relaxed))
}

#[test]
fn a_case_may_change_what_it_captured() {
    let mut seen = Vec::new();
    {
        let mut runner = describe("stateful", |ctx| {
            let mut calls = 0;
            ctx.before(move || { calls += 1; assert!(calls <= 2); });
            ctx.it("first", || { seen.push(1); Ok(()) });
        });
        runner.run().unwrap();
        runner.run().unwrap();
    }
    assert_eq!(seen, vec![1, 1]);
}
