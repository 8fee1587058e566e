//! A verified core of an incremental-computation engine.
//!
//! The engine memoizes the results of tracked queries, records which other
//! queries and inputs each one read, and re-executes only the queries whose
//! transitive inputs changed between world states ("revisions").  This crate
//! verifies the revision/durability model, key interning with deferred
//! deletion, the accumulator ingredient (a revision-tracked side-channel log
//! of values emitted during query execution), and the runtime bookkeeping and
//! cancellation state machine that coordinate them.

pub mod key;
pub mod revision;
pub mod interner;
pub mod ingredient;
pub mod runtime;
pub mod database;
pub mod accumulator;
pub mod function;
