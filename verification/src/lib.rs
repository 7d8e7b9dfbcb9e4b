//! A flaky-test hunting library: it models the engine that runs compiled test
//! binaries over and over, extracts individual test-case failures from their
//! free-form output, aggregates failure rates per test name, and manages the
//! promotion of at most one execution recording per distinct failing test.
//!
//! The process spawning, filesystem moves and terminal output live outside
//! this crate; the decisions they follow — which command to run, which lines
//! open a failure block, which recording to keep — are all made here, under
//! contract.
pub mod args;
pub mod parser;
pub mod report;
pub mod runner;
pub mod text;
