//! A small behaviour-driven test engine: test cases and setup hooks are
//! registered through nested `describe` / `it` / `before` calls, then a
//! runner invokes every case in registration order and reports the tally.

pub mod report;
pub mod tally;
pub mod schedule;
pub mod context;
pub mod runner;

pub use report::{TestReport, TestResult};
pub use tally::Tally;
pub use context::Context;
pub use runner::{describe, Runner};
