use rspec::describe;

#[test]
fn it_has_a_root_describe_function() {
    describe("A Test", |_ctx| {});
}

#[test]
fn it_can_call_describe_inside_describe_body() {
    describe("A Root", |ctx| {
        ctx.describe("nested describe", |_ctx| {})
    });
}

#[test]
fn it_can_call_it_inside_describe_body() {
    describe("A root", |ctx| {
        ctx.it("is a test", || { Ok(()) })
    });
}
