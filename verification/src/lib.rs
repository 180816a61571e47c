//! Core of a parameter-sweep simulation harness.
//!
//! A sweep is described by scalar parameters that are either fixed or
//! linearly spaced ranges; the library expands such a description into the
//! cartesian product of fully concrete run configurations, derives a
//! deterministic seed for every path, and models the machinery that executes
//! the resulting runs: a bounded permit pool, a run-to-completion error
//! aggregator, and the per-run agent lifecycle scheduler.

pub mod agents;
pub mod batch;
pub mod decimal;
pub mod parameters;
pub mod seed;
pub mod settings;
pub mod simulations;
