//! The shared coordination object: the revision counter, the active-query
//! stack, dependency-edge bookkeeping, and the cancellation state machine.

use vstd::prelude::*;
use crate::key::{DatabaseKeyIndex, DependencyIndex};
use crate::revision::{Durability, Revision, StampedValue};

verus! {

/// One frame of the active-query stack: the query being executed, the
/// durability its reads have narrowed to so far, and the revision under
/// which it began executing.
#[derive(Clone, Copy, PartialEq, Eq, Structural, Debug)]
pub struct ActiveQuery {
    pub database_key_index: DatabaseKeyIndex,
    pub durability: Durability,
    pub changed_at: Revision,
}

/// A recorded forward dependency edge: while executing, `reader` read
/// `dependency`, which carried `durability` and was attributed to
/// `at_revision`.
#[derive(Clone, Copy, PartialEq, Eq, Structural, Debug)]
pub struct TrackedRead {
    pub reader: DatabaseKeyIndex,
    pub dependency: DependencyIndex,
    pub durability: Durability,
    pub at_revision: Revision,
}

/// A recorded reverse edge: while executing, `producer` wrote the output
/// addressed by `output`.
#[derive(Clone, Copy, PartialEq, Eq, Structural, Debug)]
pub struct QueryOutput {
    pub producer: DatabaseKeyIndex,
    pub output: DependencyIndex,
}

/// The cancellation state machine's states.  A writer that intends to mutate
/// an input moves the shared state from `Running` to `PendingWrite`; every
/// in-flight query observing `PendingWrite` must unwind, and once all have,
/// the writer commits the new revision and the state returns to `Running`.
#[derive(Clone, Copy, PartialEq, Eq, Structural, Debug)]
pub enum RuntimeState {
    Running,
    PendingWrite,
}

/// The marker carried by an unwinding computation whose revision became
/// stale before it completed.  Callers must treat it as "stale, retry",
/// never as a computed result.
#[derive(Clone, Copy, PartialEq, Eq, Structural, Hash, Debug)]
pub enum Cancelled {
    /// A writer is waiting to commit a new revision.
    PendingWrite,
}

/// The engine's shared coordination object.
pub struct Runtime {
    revision: Revision,
    stack: Vec<ActiveQuery>,
    outputs: Vec<QueryOutput>,
    reads: Vec<TrackedRead>,
    state: RuntimeState,
}

impl Runtime {
    /// The revision of the current consistent snapshot of all inputs.
    pub closed spec fn revision(self) -> Revision {
        self.revision
    }

    /// The active-query stack, innermost call last.
    pub closed spec fn stack_view(self) -> Seq<ActiveQuery> {
        self.stack@
    }

    /// Every reverse edge recorded so far.
    pub closed spec fn outputs_view(self) -> Seq<QueryOutput> {
        self.outputs@
    }

    /// Every forward dependency edge recorded so far.
    pub closed spec fn reads_view(self) -> Seq<TrackedRead> {
        self.reads@
    }

    /// The cancellation state machine's current state.
    pub closed spec fn state(self) -> RuntimeState {
        self.state
    }

    /// The innermost query currently executing, if any.
    pub open spec fn active(self) -> Option<ActiveQuery> {
        if self.stack_view().len() > 0 {
            Some(self.stack_view().last())
        } else {
            None
        }
    }

    /// The identity of the innermost executing query.
    pub open spec fn active_key(self) -> DatabaseKeyIndex
        recommends
            self.active() is Some,
    {
        self.active().unwrap().database_key_index
    }

    /// The durability the innermost executing query's reads have narrowed to.
    pub open spec fn active_durability(self) -> Durability
        recommends
            self.active() is Some,
    {
        self.active().unwrap().durability
    }

    /// A fresh runtime: first revision, no active query, no recorded edges,
    /// and no pending write.
    pub fn new() -> (r: Runtime)
        ensures
            r.revision().value() == 1,
            r.stack_view() == Seq::<ActiveQuery>::empty(),
            r.outputs_view() == Seq::<QueryOutput>::empty(),
            r.reads_view() == Seq::<TrackedRead>::empty(),
            r.state() == RuntimeState::Running,
    {
        Runtime {
            revision: Revision::start(),
            stack: Vec::new(),
            outputs: Vec::new(),
            reads: Vec::new(),
            state: RuntimeState::Running,
        }
    }

    /// The current revision.
    pub fn current_revision(&self) -> (r: Revision)
        ensures
            r == self.revision(),
    {
        self.revision
    }

    /// The innermost executing query and the stamp its reads have narrowed
    /// to, or nothing outside any tracked-function execution.
    pub fn active_query(&self) -> (r: Option<(DatabaseKeyIndex, StampedValue<()>)>)
        ensures
            match self.active() {
                Some(aq) => r == Some(
                    (
                        aq.database_key_index,
                        StampedValue { value: (), durability: aq.durability, changed_at: aq.changed_at },
                    ),
                ),
                None => r is None,
            },
    {
        let n = self.stack.len();
        if n > 0 {
            let aq = self.stack[n - 1];
            Some(
                (
                    aq.database_key_index,
                    StampedValue { value: (), durability: aq.durability, changed_at: aq.changed_at },
                ),
            )
        } else {
            None
        }
    }

    /// Pushes a frame for `key` onto the active-query stack; its reads start
    /// at `durability` and are attributed to the current revision.
    pub fn push_active_query(&mut self, key: DatabaseKeyIndex, durability: Durability)
        ensures
            final(self).stack_view() == old(self).stack_view().push(
                ActiveQuery {
                    database_key_index: key,
                    durability,
                    changed_at: old(self).revision(),
                },
            ),
            final(self).revision() == old(self).revision(),
            final(self).outputs_view() == old(self).outputs_view(),
            final(self).reads_view() == old(self).reads_view(),
            final(self).state() == old(self).state(),
    {
        let changed_at = self.revision;
        self.stack.push(ActiveQuery { database_key_index: key, durability, changed_at });
    }

    /// Pops the innermost frame, returning it, or nothing if no query was
    /// active.
    pub fn pop_active_query(&mut self) -> (r: Option<ActiveQuery>)
        ensures
            r == old(self).active(),
            final(self).stack_view() == (if old(self).stack_view().len() > 0 {
                old(self).stack_view().drop_last()
            } else {
                old(self).stack_view()
            }),
            final(self).revision() == old(self).revision(),
            final(self).outputs_view() == old(self).outputs_view(),
            final(self).reads_view() == old(self).reads_view(),
            final(self).state() == old(self).state(),
    {
        self.stack.pop()
    }

    /// Records that the active query produced output at `output`.
    pub fn add_output(&mut self, output: DependencyIndex)
        requires
            old(self).active() is Some,
        ensures
            final(self).outputs_view() == old(self).outputs_view().push(
                QueryOutput { producer: old(self).active().unwrap().database_key_index, output },
            ),
            final(self).stack_view() == old(self).stack_view(),
            final(self).revision() == old(self).revision(),
            final(self).reads_view() == old(self).reads_view(),
            final(self).state() == old(self).state(),
    {
        let n = self.stack.len();
        let producer = self.stack[n - 1].database_key_index;
        self.outputs.push(QueryOutput { producer, output });
    }

    /// Records a forward dependency edge from the active query to
    /// `dependency`; outside any tracked-function execution the read is not
    /// tracked and nothing changes.
    pub fn report_tracked_read(
        &mut self,
        dependency: DependencyIndex,
        durability: Durability,
        at_revision: Revision,
    )
        ensures
            final(self).reads_view() == (match old(self).active() {
                Some(aq) => old(self).reads_view().push(
                    TrackedRead {
                        reader: aq.database_key_index,
                        dependency,
                        durability,
                        at_revision,
                    },
                ),
                None => old(self).reads_view(),
            }),
            final(self).stack_view() == old(self).stack_view(),
            final(self).revision() == old(self).revision(),
            final(self).outputs_view() == old(self).outputs_view(),
            final(self).state() == old(self).state(),
    {
        let n = self.stack.len();
        if n > 0 {
            let reader = self.stack[n - 1].database_key_index;
            self.reads.push(TrackedRead { reader, dependency, durability, at_revision });
        }
    }

    /// A writer announces its intent to mutate an input: `Running` becomes
    /// `PendingWrite`.  Returns whether this writer won the transition; a
    /// second writer finds the state already pending and must wait, with
    /// nothing changed.
    pub fn set_cancellation_flag(&mut self) -> (r: bool)
        ensures
            r == (old(self).state() == RuntimeState::Running),
            r ==> final(self).state() == RuntimeState::PendingWrite,
            !r ==> *final(self) == *old(self),
            final(self).stack_view() == old(self).stack_view(),
            final(self).revision() == old(self).revision(),
            final(self).outputs_view() == old(self).outputs_view(),
            final(self).reads_view() == old(self).reads_view(),
    {
        match self.state {
            RuntimeState::Running => {
                self.state = RuntimeState::PendingWrite;
                true
            },
            RuntimeState::PendingWrite => false,
        }
    }

    /// An engine re-entry point: an in-flight computation asks whether it
    /// may continue.  While a write is pending the answer is the
    /// distinguishable `Cancelled` marker, never a normal continuation; the
    /// caller must unwind with it.
    pub fn check_cancellation(&self) -> (r: Result<(), Cancelled>)
        ensures
            self.state() == RuntimeState::PendingWrite ==> r == Err::<(), Cancelled>(
                Cancelled::PendingWrite,
            ),
            self.state() == RuntimeState::Running ==> r == Ok::<(), Cancelled>(()),
    {
        match self.state {
            RuntimeState::Running => Ok(()),
            RuntimeState::PendingWrite => Err(Cancelled::PendingWrite),
        }
    }

    /// The pending writer commits: once every in-flight query on the old
    /// revision has unwound (the stack is empty), the revision is
    /// incremented exactly once and the state returns to `Running`.
    pub fn commit_revision(&mut self)
        requires
            old(self).state() == RuntimeState::PendingWrite,
            old(self).stack_view().len() == 0,
            old(self).revision().value() < u64::MAX,
        ensures
            final(self).revision().value() == old(self).revision().value() + 1,
            final(self).state() == RuntimeState::Running,
            final(self).stack_view() == old(self).stack_view(),
            final(self).outputs_view() == old(self).outputs_view(),
            final(self).reads_view() == old(self).reads_view(),
    {
        self.revision = self.revision.next();
        self.state = RuntimeState::Running;
    }

    /// The recorded forward dependency edges, for inspection.
    pub fn tracked_reads(&self) -> (r: &Vec<TrackedRead>)
        ensures
            r@ == self.reads_view(),
    {
        &self.reads
    }

    /// The recorded reverse edges, for inspection.
    pub fn recorded_outputs(&self) -> (r: &Vec<QueryOutput>)
        ensures
            r@ == self.outputs_view(),
    {
        &self.outputs
    }
}

} // verus!
