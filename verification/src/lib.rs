//! A built-in self-test runner for tests organized into a dynamic tree.
//!
//! A test case, upon completion, reports that it passed, passed with a
//! warning, failed, or branched into further child cases. The runner assigns
//! every spawned case a fresh task id and a hierarchical path name, keeps the
//! set of in-flight cases, decides which permanent transcript line each
//! completion produces, and aggregates the overall pass/fail outcome of the
//! run. Completions are handed to the runner one at a time, in whatever order
//! the cases happen to finish.

pub mod report;
pub mod runner;
pub mod scons;
pub mod tree;
