//! Drives a build or test command over the combinations of a project's
//! optional features.
//!
//! The crate has two parts. The enumerator ([`feature_set`], built on the
//! index combinations of [`combination`]) lists every feature set of one up to
//! all-but-one features, in a fixed order and one at a time. The orchestrator
//! ([`orchestrator`]) turns each feature set into an [`invocation`], runs them
//! in order through an executor that the caller supplies, and gathers the
//! failures into one outcome.

pub mod binomial;
pub mod combination;
pub mod feature_set;
pub mod invocation;
pub mod options;
pub mod orchestrator;
pub mod outcome;
