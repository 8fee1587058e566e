//! Vocabulary shared by every storage kind that participates in dependency
//! tracking and revision-turnover sweeps.

use vstd::prelude::*;
use crate::key::{DatabaseKeyIndex, DependencyIndex};

verus! {

/// How an ingredient reacts when it is found on a dependency cycle.
#[derive(Clone, Copy, PartialEq, Eq, Structural, Debug)]
pub enum CycleRecoveryStrategy {
    /// Participating in a cycle is an invariant violation.
    Panic,
    /// The ingredient can supply a fallback value to break the cycle.
    Fallback,
}

/// An informational notification emitted by the engine; never control flow.
#[derive(Clone, Copy, PartialEq, Eq, Structural, Debug)]
pub enum EventKind {
    /// The values accumulated for `executor_key` were discarded because the
    /// query re-ran and no longer produces the output at `accumulator`.
    DidDiscardAccumulated { executor_key: DatabaseKeyIndex, accumulator: DependencyIndex },
}

/// A notification handed to the host's event sink.
#[derive(Clone, Copy, PartialEq, Eq, Structural, Debug)]
pub struct Event {
    pub kind: EventKind,
}

} // verus!
