//! The narrow handle through which an ingredient asks the host whether a
//! producing query may have changed.

use vstd::prelude::*;
use crate::key::DependencyIndex;
use crate::revision::Revision;

verus! {

/// Implemented by the host database.  `maybe_changed_after` is conservative:
/// a `true` answer means "assume changed" and forces recomputation upstream,
/// while `false` is a hard guarantee of no change since `revision`.
pub trait Database {
    /// What the host answers for each dependency and revision.
    spec fn changed_after(&self, dependency: DependencyIndex, revision: Revision) -> bool;

    /// Whether `dependency` may have changed since `revision`.
    fn maybe_changed_after(&self, dependency: DependencyIndex, revision: Revision) -> (r: bool)
        ensures
            r == self.changed_after(dependency, revision),
    ;
}

/// The revision at which `dependency` last changed, according to the most
/// recent recording in `log`; unrecorded dependencies are unknown.
pub open spec fn last_change_in(
    log: Seq<(DependencyIndex, Revision)>,
    dependency: DependencyIndex,
) -> Option<Revision>
    decreases log.len(),
{
    if log.len() == 0 {
        None
    } else if log.last().0 == dependency {
        Some(log.last().1)
    } else {
        last_change_in(log.drop_last(), dependency)
    }
}

/// A host database over plain inputs: it remembers, per dependency, the
/// revision at which the input last changed, and answers change queries
/// conservatively - an unknown dependency is assumed changed.
pub struct InputDatabase {
    log: Vec<(DependencyIndex, Revision)>,
}

impl InputDatabase {
    /// The change log recorded so far, oldest first.
    pub closed spec fn log_view(self) -> Seq<(DependencyIndex, Revision)> {
        self.log@
    }

    /// The revision at which `dependency` last changed, if it was ever
    /// recorded.
    pub open spec fn last_change(self, dependency: DependencyIndex) -> Option<Revision> {
        last_change_in(self.log_view(), dependency)
    }

    /// A database that knows of no inputs; every change query is answered
    /// conservatively.
    pub fn new() -> (r: InputDatabase)
        ensures
            r.log_view() == Seq::<(DependencyIndex, Revision)>::empty(),
    {
        InputDatabase { log: Vec::new() }
    }

    /// Records that `dependency` changed at `revision`; later recordings for
    /// the same dependency shadow earlier ones.
    pub fn record_change(&mut self, dependency: DependencyIndex, revision: Revision)
        ensures
            final(self).log_view() == old(self).log_view().push((dependency, revision)),
            final(self).last_change(dependency) == Some(revision),
            forall|d2: DependencyIndex|
                d2 != dependency ==> #[trigger] final(self).last_change(d2) == old(
                    self,
                ).last_change(d2),
    {
        self.log.push((dependency, revision));
        proof {
            assert(self.log@.drop_last() == old(self).log@);
        }
    }
}

impl Database for InputDatabase {
    /// A dependency may have changed since `revision` unless a recording
    /// shows its last change happened at or before `revision`.
    open spec fn changed_after(&self, dependency: DependencyIndex, revision: Revision) -> bool {
        match self.last_change(dependency) {
            Some(r) => r.value() > revision.value(),
            None => true,
        }
    }

    fn maybe_changed_after(&self, dependency: DependencyIndex, revision: Revision) -> (r: bool) {
        let n = self.log.len();
        let mut i: usize = n;
        proof {
            assert(self.log@.take(n as int) == self.log@);
        }
        while i > 0
            invariant
                i <= n,
                n == self.log@.len(),
                last_change_in(self.log@, dependency) == last_change_in(
                    self.log@.take(i as int),
                    dependency,
                ),
            decreases i,
        {
            let entry = self.log[i - 1];
            if entry.0 == dependency {
                proof {
                    assert(self.log@.take(i as int).last() == self.log@[i - 1]);
                }
                return entry.1.is_after(revision);
            }
            proof {
                assert(self.log@.take(i as int).drop_last() == self.log@.take(i - 1));
                assert(self.log@.take(i as int).last() == self.log@[i - 1]);
            }
            i = i - 1;
        }
        proof {
            assert(self.log@.take(0) == Seq::<(DependencyIndex, Revision)>::empty());
        }
        true
    }
}

} // verus!
