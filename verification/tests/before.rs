use expectest::prelude::expect;
use expectest::matchers::be_equal_to;
use rspec::describe;
use std::sync::atomic::{AtomicUsize, Ordering};

#[test]
fn can_be_called_inside_describe() {
    let ran_counter = &mut AtomicUsize::new(0);

    {
        let mut runner = describe("a root", |ctx| {
            ctx.before(|| { ran_counter.fetch_add(1, Ordering::Relaxed); });
            ctx.it("first", || { Ok(()) });
            ctx.it("second", || { Ok(()) });
            ctx.it("third", || { Ok(()) });
        });
        runner.run().unwrap();
    }

    expect(ran_counter.load(Ordering::Relaxed)).to(be_equal_to(3));
}
