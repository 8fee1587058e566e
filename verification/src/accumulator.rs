//! The accumulator ingredient: a revision-tracked, per-query ordered log of
//! values emitted during query execution.
//!
//! Values pushed while a query executes are appended, in call order, to that
//! query's `in_progress` snapshot.  A snapshot is trusted for reads only
//! under the exact revision it is stamped with: under any other revision the
//! stored values are invisible, never served as approximate.

use vstd::prelude::*;
use vstd::pervasive::cloned;
use crate::database::Database;
use crate::ingredient::{CycleRecoveryStrategy, Event, EventKind};
use crate::interner::{sweep_slot, InternSlot, Interner};
use crate::key::{DatabaseKeyIndex, DependencyIndex, Id, IngredientIndex};
use crate::revision::{dur_min, Durability, Revision};
use crate::runtime::{QueryOutput, Runtime, TrackedRead};
use crate::function::QueryOrigin;

verus! {

/// One snapshot of the values a query emitted: the revision and durability
/// they were produced under, and the emitted values in insertion order,
/// not deduplicated.
pub struct AccumulatedValuesSnapshot<Data> {
    pub produced_at: Revision,
    pub durability: Durability,
    pub values: Vec<Data>,
}

/// The per-producing-query record: the last confirmed-complete revision's
/// snapshot, and the snapshot accumulated in the most recently executed
/// revision.
pub struct AccumulatedValues<Data> {
    pub previous: AccumulatedValuesSnapshot<Data>,
    pub in_progress: AccumulatedValuesSnapshot<Data>,
}

/// Emitting a value can fail only through misuse.
#[derive(Clone, Copy, PartialEq, Eq, Structural, Debug)]
pub enum AccumulateError {
    /// No query was executing; there is no log to attribute the value to.
    NoActiveQuery,
}

/// No two stored entries belong to the same producing query.
pub open spec fn entry_keys_unique<Data>(
    s: Seq<(DependencyIndex, AccumulatedValues<Data>)>,
) -> bool {
    forall|i: int, j: int|
        0 <= i < s.len() && 0 <= j < s.len() && i != j ==> (#[trigger] s[i]).0 != (
        #[trigger] s[j]).0
}

/// Whether some entry belongs to the producing query `q`.
pub open spec fn seq_has_entry<Data>(
    s: Seq<(DependencyIndex, AccumulatedValues<Data>)>,
    q: DependencyIndex,
) -> bool {
    exists|i: int| 0 <= i < s.len() && (#[trigger] s[i]).0 == q
}

/// The entry belonging to the producing query `q`, if one exists.
pub closed spec fn seq_entry_of<Data>(
    s: Seq<(DependencyIndex, AccumulatedValues<Data>)>,
    q: DependencyIndex,
) -> Option<AccumulatedValues<Data>> {
    if seq_has_entry(s, q) {
        let i = choose|i: int| 0 <= i < s.len() && (#[trigger] s[i]).0 == q;
        Some(s[i].1)
    } else {
        None
    }
}

proof fn lemma_entry_of_at<Data>(s: Seq<(DependencyIndex, AccumulatedValues<Data>)>, i: int)
    requires
        entry_keys_unique(s),
        0 <= i < s.len(),
    ensures
        seq_entry_of(s, s[i].0) == Some(s[i].1),
{
    let q = s[i].0;
    assert(seq_has_entry(s, q));
    let j = choose|j: int| 0 <= j < s.len() && (#[trigger] s[j]).0 == q;
    assert(j == i);
}

/// Replacing the entry at `i` (keeping its key) updates that key's entry and
/// leaves every other key's entry untouched.
proof fn lemma_entry_update<Data>(
    s: Seq<(DependencyIndex, AccumulatedValues<Data>)>,
    i: int,
    av: AccumulatedValues<Data>,
)
    requires
        entry_keys_unique(s),
        0 <= i < s.len(),
    ensures
        ({
            let q = s[i].0;
            let s2 = s.remove(i).push((q, av));
            &&& entry_keys_unique(s2)
            &&& seq_entry_of(s2, q) == Some(av)
            &&& forall|q2: DependencyIndex|
                q2 != q ==> #[trigger] seq_entry_of(s2, q2) == seq_entry_of(s, q2)
            &&& forall|q2: DependencyIndex|
                q2 != q ==> #[trigger] seq_has_entry(s2, q2) == seq_has_entry(s, q2)
            &&& forall|j: int|
                0 <= j < s2.len() ==> exists|oj: int|
                    0 <= oj < s.len() && (#[trigger] s2[j]).0 == s[oj].0
        }),
{
    let q = s[i].0;
    let r = s.remove(i);
    let s2 = r.push((q, av));
    assert(forall|j: int| 0 <= j < i ==> #[trigger] r[j] == s[j]);
    assert(forall|j: int| i <= j < r.len() ==> #[trigger] r[j] == s[j + 1]);
    assert(forall|j: int| 0 <= j < r.len() ==> #[trigger] s2[j] == r[j]);
    assert(s2[r.len() as int] == (q, av));
    assert(entry_keys_unique(s2)) by {
        assert forall|a: int, b: int|
            0 <= a < s2.len() && 0 <= b < s2.len() && a != b implies (#[trigger] s2[a]).0 != (
        #[trigger] s2[b]).0 by {
            let oa = if a == s2.len() - 1 {
                i
            } else if a < i {
                a
            } else {
                a + 1
            };
            let ob = if b == s2.len() - 1 {
                i
            } else if b < i {
                b
            } else {
                b + 1
            };
            assert(s2[a].0 == s[oa].0);
            assert(s2[b].0 == s[ob].0);
        }
    }
    lemma_entry_of_at(s2, r.len() as int);
    assert forall|q2: DependencyIndex| q2 != q implies #[trigger] seq_has_entry(s2, q2)
        == seq_has_entry(s, q2) by {
        if seq_has_entry(s2, q2) {
            let a = choose|a: int| 0 <= a < s2.len() && (#[trigger] s2[a]).0 == q2;
            let oa = if a == s2.len() - 1 {
                i
            } else if a < i {
                a
            } else {
                a + 1
            };
            assert(s[oa].0 == q2);
        }
        if seq_has_entry(s, q2) {
            let a = choose|a: int| 0 <= a < s.len() && (#[trigger] s[a]).0 == q2;
            let na = if a < i {
                a
            } else {
                a - 1
            };
            assert(a != i);
            assert(s2[na].0 == q2);
        }
    }
    assert forall|q2: DependencyIndex| q2 != q implies #[trigger] seq_entry_of(s2, q2)
        == seq_entry_of(s, q2) by {
        if seq_has_entry(s, q2) {
            let a = choose|a: int| 0 <= a < s.len() && (#[trigger] s[a]).0 == q2;
            let na = if a < i {
                a
            } else {
                a - 1
            };
            assert(a != i);
            assert(s2[na] == s[a]);
            lemma_entry_of_at(s, a);
            lemma_entry_of_at(s2, na);
        }
    }
    assert forall|j: int| 0 <= j < s2.len() implies exists|oj: int|
        0 <= oj < s.len() && (#[trigger] s2[j]).0 == s[oj].0 by {
        let oa = if j == s2.len() - 1 {
            i
        } else if j < i {
            j
        } else {
            j + 1
        };
        assert(0 <= oa < s.len() && s2[j].0 == s[oa].0);
    }
}

/// Appending an entry for a key not yet present adds that key's entry and
/// leaves every other key's entry untouched.
proof fn lemma_entry_append<Data>(
    s: Seq<(DependencyIndex, AccumulatedValues<Data>)>,
    q: DependencyIndex,
    av: AccumulatedValues<Data>,
)
    requires
        entry_keys_unique(s),
        !seq_has_entry(s, q),
    ensures
        ({
            let s2 = s.push((q, av));
            &&& entry_keys_unique(s2)
            &&& seq_entry_of(s2, q) == Some(av)
            &&& forall|q2: DependencyIndex|
                q2 != q ==> #[trigger] seq_entry_of(s2, q2) == seq_entry_of(s, q2)
            &&& forall|q2: DependencyIndex|
                q2 != q ==> #[trigger] seq_has_entry(s2, q2) == seq_has_entry(s, q2)
            &&& forall|j: int|
                0 <= j < s2.len() ==> (#[trigger] s2[j]).0 == q || exists|oj: int|
                    0 <= oj < s.len() && s2[j].0 == s[oj].0
        }),
{
    let s2 = s.push((q, av));
    assert(forall|j: int| 0 <= j < s.len() ==> #[trigger] s2[j] == s[j]);
    assert(s2[s.len() as int] == (q, av));
    assert(entry_keys_unique(s2)) by {
        assert forall|a: int, b: int|
            0 <= a < s2.len() && 0 <= b < s2.len() && a != b implies (#[trigger] s2[a]).0 != (
        #[trigger] s2[b]).0 by {
            if a < s.len() && b < s.len() {
            } else if a == s.len() {
                assert(s2[b].0 == s[b].0);
            } else {
                assert(s2[a].0 == s[a].0);
            }
        }
    }
    lemma_entry_of_at(s2, s.len() as int);
    assert forall|q2: DependencyIndex| q2 != q implies #[trigger] seq_has_entry(s2, q2)
        == seq_has_entry(s, q2) by {
        if seq_has_entry(s2, q2) {
            let a = choose|a: int| 0 <= a < s2.len() && (#[trigger] s2[a]).0 == q2;
            assert(a != s.len());
            assert(s[a].0 == q2);
        }
        if seq_has_entry(s, q2) {
            let a = choose|a: int| 0 <= a < s.len() && (#[trigger] s[a]).0 == q2;
            assert(s2[a].0 == q2);
        }
    }
    assert forall|q2: DependencyIndex| q2 != q implies #[trigger] seq_entry_of(s2, q2)
        == seq_entry_of(s, q2) by {
        if seq_has_entry(s, q2) {
            let a = choose|a: int| 0 <= a < s.len() && (#[trigger] s[a]).0 == q2;
            lemma_entry_of_at(s, a);
            lemma_entry_of_at(s2, a);
        }
    }
    assert forall|j: int| 0 <= j < s2.len() implies (#[trigger] s2[j]).0 == q || exists|oj: int|
        0 <= oj < s.len() && s2[j].0 == s[oj].0 by {
        if j < s.len() {
            assert(0 <= j < s.len() && s2[j].0 == s[j].0);
        }
    }
}

/// Removing the entry at `i` drops that key's entry and leaves every other
/// key's entry untouched.
proof fn lemma_entry_remove<Data>(s: Seq<(DependencyIndex, AccumulatedValues<Data>)>, i: int)
    requires
        entry_keys_unique(s),
        0 <= i < s.len(),
    ensures
        ({
            let q = s[i].0;
            let s2 = s.remove(i);
            &&& entry_keys_unique(s2)
            &&& !seq_has_entry(s2, q)
            &&& seq_entry_of(s2, q) == None::<AccumulatedValues<Data>>
            &&& forall|q2: DependencyIndex|
                q2 != q ==> #[trigger] seq_entry_of(s2, q2) == seq_entry_of(s, q2)
            &&& forall|q2: DependencyIndex|
                q2 != q ==> #[trigger] seq_has_entry(s2, q2) == seq_has_entry(s, q2)
            &&& forall|j: int|
                0 <= j < s2.len() ==> exists|oj: int|
                    0 <= oj < s.len() && (#[trigger] s2[j]).0 == s[oj].0
        }),
{
    let q = s[i].0;
    let s2 = s.remove(i);
    assert(forall|j: int| 0 <= j < i ==> #[trigger] s2[j] == s[j]);
    assert(forall|j: int| i <= j < s2.len() ==> #[trigger] s2[j] == s[j + 1]);
    assert(entry_keys_unique(s2)) by {
        assert forall|a: int, b: int|
            0 <= a < s2.len() && 0 <= b < s2.len() && a != b implies (#[trigger] s2[a]).0 != (
        #[trigger] s2[b]).0 by {
            let oa = if a < i {
                a
            } else {
                a + 1
            };
            let ob = if b < i {
                b
            } else {
                b + 1
            };
            assert(s2[a].0 == s[oa].0);
            assert(s2[b].0 == s[ob].0);
        }
    }
    assert(!seq_has_entry(s2, q)) by {
        if seq_has_entry(s2, q) {
            let a = choose|a: int| 0 <= a < s2.len() && (#[trigger] s2[a]).0 == q;
            let oa = if a < i {
                a
            } else {
                a + 1
            };
            assert(s[oa].0 == q);
            assert(oa != i);
        }
    }
    assert forall|q2: DependencyIndex| q2 != q implies #[trigger] seq_has_entry(s2, q2)
        == seq_has_entry(s, q2) by {
        if seq_has_entry(s2, q2) {
            let a = choose|a: int| 0 <= a < s2.len() && (#[trigger] s2[a]).0 == q2;
            let oa = if a < i {
                a
            } else {
                a + 1
            };
            assert(s[oa].0 == q2);
        }
        if seq_has_entry(s, q2) {
            let a = choose|a: int| 0 <= a < s.len() && (#[trigger] s[a]).0 == q2;
            assert(a != i);
            let na = if a < i {
                a
            } else {
                a - 1
            };
            assert(s2[na].0 == q2);
        }
    }
    assert forall|q2: DependencyIndex| q2 != q implies #[trigger] seq_entry_of(s2, q2)
        == seq_entry_of(s, q2) by {
        if seq_has_entry(s, q2) {
            let a = choose|a: int| 0 <= a < s.len() && (#[trigger] s[a]).0 == q2;
            assert(a != i);
            let na = if a < i {
                a
            } else {
                a - 1
            };
            assert(s2[na] == s[a]);
            lemma_entry_of_at(s, a);
            lemma_entry_of_at(s2, na);
        }
    }
    assert forall|j: int| 0 <= j < s2.len() implies exists|oj: int|
        0 <= oj < s.len() && (#[trigger] s2[j]).0 == s[oj].0 by {
        let oa = if j < i {
            j
        } else {
            j + 1
        };
        assert(0 <= oa < s.len() && s2[j].0 == s[oa].0);
    }
}

/// Implemented by a host's storage for each declared accumulator: it ties
/// the accumulator to its value type and locates the backing ingredient, so
/// generated accessors can reach it through the database handle.
pub trait Accumulator {
    /// The type of the values this accumulator logs.
    type Data: Clone;

    /// The backing ingredient inside the host's storage.
    fn accumulator_ingredient(&self) -> &AccumulatorIngredient<Self::Data>;
}

/// Stores, per producing query, the ordered log of values that query emitted,
/// keyed through an interner that turns the producing query's identity into
/// the slot-addressing half of a dependency index.
pub struct AccumulatorIngredient<Data: Clone> {
    index: IngredientIndex,
    interner: Interner,
    entries: Vec<(DependencyIndex, AccumulatedValues<Data>)>,
    debug_name: &'static str,
}

impl<Data: Clone> AccumulatorIngredient<Data> {
    /// The identity this ingredient was registered under.
    pub closed spec fn ingredient_index(self) -> IngredientIndex {
        self.index
    }

    /// The interner that keys this ingredient's dependency indices.
    pub closed spec fn key_interner(self) -> Interner {
        self.interner
    }

    /// The stored per-query entries.
    pub closed spec fn entries_view(self) -> Seq<(DependencyIndex, AccumulatedValues<Data>)> {
        self.entries@
    }

    /// The name this ingredient reports for diagnostics.
    pub closed spec fn debug_name_spec(self) -> &'static str {
        self.debug_name
    }

    /// Whether an entry exists for the producing query `q`.
    pub open spec fn has_entry(self, q: DependencyIndex) -> bool {
        seq_has_entry(self.entries_view(), q)
    }

    /// The entry stored for the producing query `q`, if any.
    pub open spec fn entry_of(self, q: DependencyIndex) -> Option<AccumulatedValues<Data>> {
        seq_entry_of(self.entries_view(), q)
    }

    /// The values a read for `q` observes under revision `current`: the
    /// `in_progress` values exactly when they were produced at `current`,
    /// else nothing - stale values are invisible.
    pub open spec fn read_values(self, q: DependencyIndex, current: Revision) -> Seq<Data> {
        match self.entry_of(q) {
            Some(e) => if e.in_progress.produced_at == current {
                e.in_progress.values@
            } else {
                Seq::<Data>::empty()
            },
            None => Seq::<Data>::empty(),
        }
    }

    /// Well-formedness: the interner is well formed, no producing query has
    /// two entries, and every entry's key is interned.
    pub open spec fn wf(self) -> bool {
        &&& self.key_interner().wf()
        &&& entry_keys_unique(self.entries_view())
        &&& forall|i: int|
            0 <= i < self.entries_view().len() ==> self.key_interner().interned(
                (#[trigger] self.entries_view()[i]).0,
            )
    }

    /// An accumulator with no entries.
    pub fn new(index: IngredientIndex, debug_name: &'static str) -> (r: Self)
        ensures
            r.wf(),
            r.ingredient_index() == index,
            r.debug_name_spec() == debug_name,
            r.entries_view() == Seq::<(DependencyIndex, AccumulatedValues<Data>)>::empty(),
            forall|q: DependencyIndex| #[trigger]
                r.entry_of(q) == None::<AccumulatedValues<Data>>,
            forall|id: Id| #[trigger] r.key_interner().slot(id) == InternSlot::Free,
            r.key_interner().slot_count() == 0,
    {
        let r = AccumulatorIngredient {
            index,
            interner: Interner::new(),
            entries: Vec::new(),
            debug_name,
        };
        proof {
            assert forall|q: DependencyIndex| #[trigger]
                r.entry_of(q) == None::<AccumulatedValues<Data>> by {
                assert(!seq_has_entry(r.entries@, q));
            }
        }
        r
    }

    /// The name this ingredient reports for diagnostics.
    pub fn debug_name(&self) -> (r: &'static str)
        ensures
            r == self.debug_name_spec(),
    {
        self.debug_name
    }

    /// The dependency-graph endpoint addressing the slot of this ingredient
    /// that logs values for the producing query `key`: this ingredient's
    /// identity, paired with the interned id of `key`.  Deterministic: the
    /// same key always yields the same endpoint, because at most one id
    /// names a key.
    pub fn dependency_index(&mut self, key: DependencyIndex) -> (r: DependencyIndex)
        requires
            old(self).wf(),
            old(self).key_interner().slot_count() < u32::MAX as int,
        ensures
            final(self).wf(),
            final(self).ingredient_index() == old(self).ingredient_index(),
            final(self).debug_name_spec() == old(self).debug_name_spec(),
            final(self).entries_view() == old(self).entries_view(),
            r.ingredient_index == old(self).ingredient_index(),
            r.key_index is Some,
            final(self).key_interner().occupied_with(r.key_index.unwrap(), key),
            forall|id2: Id| #[trigger]
                old(self).key_interner().occupied_with(id2, key) ==> r.key_index == Some(id2),
            final(self).key_interner().slot_count() <= old(self).key_interner().slot_count() + 1,
            forall|id2: Id|
                id2 != r.key_index.unwrap() ==> #[trigger] final(self).key_interner().slot(id2)
                    == old(self).key_interner().slot(id2),
            old(self).key_interner().interned(key) ==> final(self).key_interner() == old(
                self,
            ).key_interner(),
            !old(self).key_interner().interned(key) ==> old(self).key_interner().slot(
                r.key_index.unwrap(),
            ) == InternSlot::Free,
    {
        let id = self.interner.intern(key);
        proof {
            assert forall|i: int|
                0 <= i < self.entries@.len() implies self.key_interner().interned(
                (#[trigger] self.entries@[i]).0,
            ) by {
                let k2 = self.entries@[i].0;
                let id2 = choose|id2: Id| old(self).key_interner().occupied_with(id2, k2);
                assert(self.key_interner().occupied_with(id2, k2));
            }
        }
        DependencyIndex { ingredient_index: self.index, key_index: Some(id) }
    }

    /// Everything one successful emission changes, relating the states of
    /// the ingredient and the runtime before and after the call.  `q` is the
    /// active query's dependency endpoint, `rev` the current revision and
    /// `d` the active query's durability.
    pub open spec fn push_post(
        pre: Self,
        post: Self,
        rt_pre: Runtime,
        rt_post: Runtime,
        value: Data,
    ) -> bool {
        let q = rt_pre.active_key().as_dependency();
        let rev = rt_pre.revision();
        let d = rt_pre.active_durability();
        &&& post.wf()
        &&& post.ingredient_index() == pre.ingredient_index()
        &&& post.debug_name_spec() == pre.debug_name_spec()
        // the runtime changes only by the recorded reverse edge
        &&& rt_post.revision() == rt_pre.revision()
        &&& rt_post.stack_view() == rt_pre.stack_view()
        &&& rt_post.reads_view() == rt_pre.reads_view()
        &&& rt_post.state() == rt_pre.state()
        &&& exists|id: Id|
            #[trigger] post.key_interner().occupied_with(id, q) && rt_post.outputs_view()
                == rt_pre.outputs_view().push(
                (QueryOutput {
                    producer: rt_pre.active_key(),
                    output: (DependencyIndex {
                        ingredient_index: pre.ingredient_index(),
                        key_index: Some(id),
                    }),
                }),
            )
        // the active query's log under the current revision grows by the value,
        // and is empty under every other revision
        &&& post.read_values(q, rev) == pre.read_values(q, rev).push(value)
        &&& forall|r2: Revision|
            r2 != rev ==> #[trigger] post.read_values(q, r2) == Seq::<Data>::empty()
        &&& forall|q2: DependencyIndex|
            q2 != q ==> #[trigger] post.entry_of(q2) == pre.entry_of(q2)
        &&& post.has_entry(q)
        &&& ({
            let e = post.entry_of(q).unwrap();
            &&& e.in_progress.produced_at == rev
            &&& e.in_progress.durability == dur_min(
                match pre.entry_of(q) {
                    Some(e0) => if e0.in_progress.produced_at == rev {
                        e0.in_progress.durability
                    } else {
                        d
                    },
                    None => d,
                },
                d,
            )
            &&& match pre.entry_of(q) {
                Some(e0) => e.previous == e0.previous,
                None => e.previous.produced_at == rev && e.previous.durability == d
                    && e.previous.values@ == Seq::<Data>::empty(),
            }
        })
        // already-allocated interner slots never change meaning
        &&& forall|id2: Id, k2: DependencyIndex|
            #[trigger] pre.key_interner().occupied_with(id2, k2)
                ==> post.key_interner().occupied_with(id2, k2)
        &&& forall|id2: Id|
            #[trigger] pre.key_interner().deleted_at(id2) ==> post.key_interner().deleted_at(id2)
        &&& post.key_interner().slot_count() <= pre.key_interner().slot_count() + 1
        &&& pre.key_interner().interned(q) ==> post.key_interner() == pre.key_interner()
    }

    /// Emits `value` into the active query's log: appended in call order,
    /// stamped with the current revision, narrowing the stored durability to
    /// the weakest contributor.  The first emission a revision observes
    /// clears the values left over from earlier revisions.  Valid only while
    /// a query is executing; see `try_push` for the guarded variant.
    pub fn push(&mut self, runtime: &mut Runtime, value: Data)
        requires
            old(self).wf(),
            old(runtime).active() is Some,
            old(self).key_interner().slot_count() < u32::MAX as int,
        ensures
            Self::push_post(*old(self), *final(self), *old(runtime), *final(runtime), value),
    {
        let current_revision = runtime.current_revision();
        let pair = runtime.active_query().unwrap();
        let active_key = pair.0;
        let durability = pair.1.durability;
        let q = active_key.to_dependency();
        let dep = self.dependency_index(q);
        let ghost id = dep.key_index.unwrap();
        let ghost mid_self = *self;
        runtime.add_output(dep);
        match self.find_entry(q) {
            None => {
                let mut values: Vec<Data> = Vec::new();
                values.push(value);
                let entry = AccumulatedValues {
                    previous: AccumulatedValuesSnapshot {
                        produced_at: current_revision,
                        durability,
                        values: Vec::new(),
                    },
                    in_progress: AccumulatedValuesSnapshot {
                        produced_at: current_revision,
                        durability,
                        values,
                    },
                };
                let ghost entry_g = entry;
                proof {
                    lemma_entry_append(mid_self.entries@, q, entry_g);
                }
                self.entries.push((q, entry));
                proof {
                    self.lemma_push_wf(mid_self, q);
                    assert(old(self).entry_of(q) == None::<AccumulatedValues<Data>>);
                    assert(self.read_values(q, current_revision) == old(self).read_values(
                        q,
                        current_revision,
                    ).push(value));
                }
            },
            Some(i) => {
                proof {
                    lemma_entry_of_at(mid_self.entries@, i as int);
                }
                let pair2 = self.entries.remove(i);
                let mut av = pair2.1;
                if av.in_progress.produced_at != current_revision {
                    av.in_progress.produced_at = current_revision;
                    av.in_progress.durability = durability;
                    av.in_progress.values.clear();
                }
                av.in_progress.values.push(value);
                av.in_progress.durability = av.in_progress.durability.min_with(durability);
                let ghost av_g = av;
                proof {
                    lemma_entry_update(mid_self.entries@, i as int, av_g);
                }
                self.entries.push((pair2.0, av));
                proof {
                    self.lemma_push_wf(mid_self, q);
                    assert(self.read_values(q, current_revision) == old(self).read_values(
                        q,
                        current_revision,
                    ).push(value));
                }
            },
        }
        proof {
            assert(self.key_interner().occupied_with(id, q));
            assert forall|id2: Id, k2: DependencyIndex|
                #[trigger] old(self).key_interner().occupied_with(id2, k2) implies self
                .key_interner().occupied_with(id2, k2) by {
                if id2 != id {
                    assert(self.key_interner().slot(id2) == old(self).key_interner().slot(id2));
                } else {
                    assert(old(self).key_interner().interned(k2));
                }
            }
            assert forall|id2: Id| #[trigger]
                old(self).key_interner().deleted_at(id2) implies self.key_interner().deleted_at(
                id2,
            ) by {
                assert(id2 != id);
                assert(self.key_interner().slot(id2) == old(self).key_interner().slot(id2));
            }
        }
    }

    /// Helper: after the entry update, every stored key is still interned.
    proof fn lemma_push_wf(self, mid: Self, q: DependencyIndex)
        requires
            mid.wf(),
            self.key_interner() == mid.key_interner(),
            entry_keys_unique(self.entries_view()),
            forall|j: int|
                0 <= j < self.entries_view().len() ==> (#[trigger] self.entries_view()[j]).0 == q
                    || exists|oj: int|
                    0 <= oj < mid.entries_view().len() && self.entries_view()[j].0
                        == mid.entries_view()[oj].0,
            mid.key_interner().interned(q),
        ensures
            self.wf(),
    {
        assert forall|j: int|
            0 <= j < self.entries_view().len() implies self.key_interner().interned(
            (#[trigger] self.entries_view()[j]).0,
        ) by {
            let k2 = self.entries_view()[j].0;
            if k2 == q {
            } else {
                if exists|oj: int|
                    0 <= oj < mid.entries_view().len() && self.entries_view()[j].0
                        == mid.entries_view()[oj].0 {
                    let oj = choose|oj: int|
                        0 <= oj < mid.entries_view().len() && self.entries_view()[j].0
                            == mid.entries_view()[oj].0;
                    assert(mid.key_interner().interned(mid.entries_view()[oj].0));
                }
            }
        }
    }

    /// Guarded emission: with no active query the call is refused and
    /// nothing - neither the stored entries nor the runtime - changes;
    /// otherwise it emits exactly as `push` does.
    pub fn try_push(&mut self, runtime: &mut Runtime, value: Data) -> (r: Result<
        (),
        AccumulateError,
    >)
        requires
            old(self).wf(),
            old(self).key_interner().slot_count() < u32::MAX as int,
        ensures
            old(runtime).active() is None ==> ({
                &&& r == Err::<(), AccumulateError>(AccumulateError::NoActiveQuery)
                &&& *final(self) == *old(self)
                &&& *final(runtime) == *old(runtime)
            }),
            old(runtime).active() is Some ==> r == Ok::<(), AccumulateError>(())
                && Self::push_post(*old(self), *final(self), *old(runtime), *final(runtime), value),
    {
        if runtime.active_query().is_some() {
            self.push(runtime, value);
            Ok(())
        } else {
            Err(AccumulateError::NoActiveQuery)
        }
    }

    /// Collects the values the current revision may observe for `query`,
    /// appending clones of them to `output` in emission order, and reports a
    /// tracked read of this accumulator against the dependency graph when an
    /// entry exists.  Values stamped with any other revision are invisible:
    /// what is appended is exactly `read_values`, never an approximation.
    pub fn produced_by(
        &self,
        runtime: &mut Runtime,
        query: DatabaseKeyIndex,
        output: &mut Vec<Data>,
    )
        requires
            self.wf(),
        ensures
            ({
                let q = query.as_dependency();
                let vs = self.read_values(q, old(runtime).revision());
                &&& final(output)@.len() == old(output)@.len() + vs.len()
                &&& forall|i: int|
                    0 <= i < old(output)@.len() ==> #[trigger] final(output)@[i] == old(
                        output,
                    )@[i]
                &&& forall|i: int|
                    0 <= i < vs.len() ==> cloned::<Data>(
                        vs[i],
                        #[trigger] final(output)@[old(output)@.len() + i],
                    )
                &&& final(runtime).revision() == old(runtime).revision()
                &&& final(runtime).stack_view() == old(runtime).stack_view()
                &&& final(runtime).outputs_view() == old(runtime).outputs_view()
                &&& final(runtime).state() == old(runtime).state()
                &&& !self.has_entry(q) ==> *final(runtime) == *old(runtime) && final(output)@
                    == old(output)@
                &&& self.has_entry(q) ==> (match old(runtime).active() {
                    Some(aq) => exists|id: Id|
                        #[trigger] self.key_interner().occupied_with(id, q)
                            && final(runtime).reads_view() == old(runtime).reads_view().push(
                            (TrackedRead {
                                reader: aq.database_key_index,
                                dependency: (DependencyIndex {
                                    ingredient_index: self.ingredient_index(),
                                    key_index: Some(id),
                                }),
                                durability: self.entry_of(q).unwrap().in_progress.durability,
                                at_revision: old(runtime).revision(),
                            }),
                        ),
                    None => final(runtime).reads_view() == old(runtime).reads_view(),
                })
            }),
    {
        let q = query.to_dependency();
        let current_revision = runtime.current_revision();
        match self.find_entry(q) {
            None => {},
            Some(i) => {
                proof {
                    lemma_entry_of_at(self.entries@, i as int);
                    assert(self.key_interner().interned(self.entries@[i as int].0));
                }
                let id = self.interner.lookup(q).unwrap();
                let dep = DependencyIndex { ingredient_index: self.index, key_index: Some(id) };
                let e = &self.entries[i].1;
                runtime.report_tracked_read(dep, e.in_progress.durability, current_revision);
                if e.in_progress.produced_at == current_revision {
                    let m = e.in_progress.values.len();
                    let mut j: usize = 0;
                    while j < m
                        invariant
                            j <= m,
                            m == e.in_progress.values@.len(),
                            output@.len() == old(output)@.len() + j,
                            forall|k: int|
                                0 <= k < old(output)@.len() ==> #[trigger] output@[k] == old(
                                    output,
                                )@[k],
                            forall|k: int|
                                0 <= k < j ==> cloned::<Data>(
                                    e.in_progress.values@[k],
                                    #[trigger] output@[old(output)@.len() + k],
                                ),
                        decreases m - j,
                    {
                        let item = &e.in_progress.values[j];
                        output.push(item.clone());
                        j += 1;
                    }
                }
            },
        }
    }

    /// Whether the value logged at `input` - one interned slot of this
    /// ingredient - may have changed since `revision`.  Conservative: a
    /// missing, unknown or swept key, or a missing entry, is assumed changed
    /// rather than refused; an existing entry defers to what the host
    /// answers for the producing query itself.
    pub fn maybe_changed_after<DB: Database>(
        &self,
        db: &DB,
        input: DependencyIndex,
        revision: Revision,
    ) -> (r: bool)
        requires
            self.wf(),
            input.ingredient_index == self.ingredient_index(),
        ensures
            r == (match input.key_index {
                Some(id) => match self.key_interner().resolve(id) {
                    Some(q) => if self.has_entry(q) {
                        db.changed_after(q, revision)
                    } else {
                        true
                    },
                    None => true,
                },
                None => true,
            }),
    {
        let id = match input.key_index {
            Some(id) => id,
            None => {
                return true;
            },
        };
        match self.interner.data(id) {
            None => true,
            Some(q) => {
                match self.find_entry(q) {
                    None => true,
                    Some(i) => {
                        proof {
                            assert(seq_has_entry(self.entries@, q));
                        }
                        db.maybe_changed_after(q, revision)
                    },
                }
            },
        }
    }

    /// Accumulators must never participate in a dependency cycle.
    pub fn cycle_recovery_strategy(&self) -> (r: CycleRecoveryStrategy)
        ensures
            r == CycleRecoveryStrategy::Panic,
    {
        CycleRecoveryStrategy::Panic
    }

    /// Accumulators are leaves with respect to provenance: no dependencies
    /// are recorded for their slots.
    pub fn origin(&self, _key: Id) -> (r: Option<QueryOrigin>)
        ensures
            r is None,
    {
        None
    }

    /// Called when the producer of `output_key` was reconfirmed unchanged in
    /// the new revision: the entry's freshness is extended to the current
    /// revision without recomputation, its values and durability untouched.
    pub fn mark_validated_output(
        &mut self,
        runtime: &Runtime,
        executor: DatabaseKeyIndex,
        output_key: Option<Id>,
    )
        requires
            old(self).wf(),
            output_key is Some,
        ensures
            final(self).wf(),
            final(self).ingredient_index() == old(self).ingredient_index(),
            final(self).debug_name_spec() == old(self).debug_name_spec(),
            final(self).key_interner() == old(self).key_interner(),
            !old(self).has_entry(executor.as_dependency()) ==> *final(self) == *old(self),
            forall|q2: DependencyIndex|
                q2 != executor.as_dependency() ==> #[trigger] final(self).entry_of(q2) == old(
                    self,
                ).entry_of(q2),
            forall|q2: DependencyIndex|
                q2 != executor.as_dependency() ==> #[trigger] final(self).has_entry(q2) == old(
                    self,
                ).has_entry(q2),
            old(self).has_entry(executor.as_dependency()) ==> ({
                let e0 = old(self).entry_of(executor.as_dependency()).unwrap();
                let e = final(self).entry_of(executor.as_dependency()).unwrap();
                &&& final(self).has_entry(executor.as_dependency())
                &&& e.previous == e0.previous
                &&& e.in_progress.values == e0.in_progress.values
                &&& e.in_progress.durability == e0.in_progress.durability
                &&& e.in_progress.produced_at == runtime.revision()
            }),
    {
        let q = executor.to_dependency();
        match self.find_entry(q) {
            None => {},
            Some(i) => {
                proof {
                    lemma_entry_of_at(self.entries@, i as int);
                }
                let pair = self.entries.remove(i);
                let mut av = pair.1;
                av.in_progress.produced_at = runtime.current_revision();
                let ghost av_g = av;
                proof {
                    lemma_entry_update(old(self).entries@, i as int, av_g);
                }
                self.entries.push((pair.0, av));
                proof {
                    self.lemma_push_wf(*old(self), q);
                }
            },
        }
    }

    /// Called when the producer re-ran and no longer emits this output: all
    /// state stored for the entry is discarded, its interned id is
    /// tombstoned, and a discard notification is returned for observability.
    /// The tombstoned id still resolves until the next per-revision reset
    /// sweeps it, so a second identical call is a no-op: it finds no entry,
    /// deletes nothing and reports nothing - the notification is
    /// informational only, never control flow.
    pub fn remove_stale_output(
        &mut self,
        executor: DatabaseKeyIndex,
        stale_output_key: Option<Id>,
    ) -> (r: Option<Event>)
        requires
            old(self).wf(),
            stale_output_key is Some,
            old(self).key_interner().resolve(stale_output_key.unwrap()) == Some(
                executor.as_dependency(),
            ),
            old(self).has_entry(executor.as_dependency()) ==> old(
                self,
            ).key_interner().occupied_with(stale_output_key.unwrap(), executor.as_dependency()),
        ensures
            final(self).wf(),
            final(self).ingredient_index() == old(self).ingredient_index(),
            final(self).debug_name_spec() == old(self).debug_name_spec(),
            final(self).entry_of(executor.as_dependency()) == None::<AccumulatedValues<Data>>,
            !final(self).has_entry(executor.as_dependency()),
            forall|rev: Revision| #[trigger]
                final(self).read_values(executor.as_dependency(), rev) == Seq::<Data>::empty(),
            forall|q2: DependencyIndex|
                q2 != executor.as_dependency() ==> #[trigger] final(self).entry_of(q2) == old(
                    self,
                ).entry_of(q2),
            forall|q2: DependencyIndex|
                q2 != executor.as_dependency() ==> #[trigger] final(self).has_entry(q2) == old(
                    self,
                ).has_entry(q2),
            !old(self).has_entry(executor.as_dependency()) ==> *final(self) == *old(self) && r
                is None,
            old(self).has_entry(executor.as_dependency()) ==> ({
                &&& r == Some(
                    (Event {
                        kind: EventKind::DidDiscardAccumulated {
                            executor_key: executor,
                            accumulator: (DependencyIndex {
                                ingredient_index: old(self).ingredient_index(),
                                key_index: stale_output_key,
                            }),
                        },
                    }),
                )
                &&& final(self).key_interner().deleted_at(stale_output_key.unwrap())
                &&& final(self).key_interner().resolve(stale_output_key.unwrap()) == Some(
                    executor.as_dependency(),
                )
                &&& forall|id2: Id|
                    id2 != stale_output_key.unwrap()
                        ==> #[trigger] final(self).key_interner().slot(id2) == old(
                        self,
                    ).key_interner().slot(id2)
            }),
    {
        let q = executor.to_dependency();
        let id = stale_output_key.unwrap();
        match self.find_entry(q) {
            None => {
                proof {
                    assert(seq_entry_of(self.entries@, q) == None::<AccumulatedValues<Data>>);
                }
                None
            },
            Some(i) => {
                proof {
                    lemma_entry_remove(self.entries@, i as int);
                }
                self.entries.remove(i);
                self.interner.delete_index(id);
                proof {
                    assert forall|j: int|
                        0 <= j < self.entries@.len() implies self.key_interner().interned(
                        (#[trigger] self.entries@[j]).0,
                    ) by {
                        let k2 = self.entries@[j].0;
                        assert(old(self).key_interner().interned(k2));
                        let id2 = choose|id2: Id|
                            old(self).key_interner().occupied_with(id2, k2);
                        assert(k2 != q);
                        assert(id2 != id);
                        assert(self.key_interner().occupied_with(id2, k2));
                    }
                }
                Some(
                    Event {
                        kind: EventKind::DidDiscardAccumulated {
                            executor_key: executor,
                            accumulator: DependencyIndex {
                                ingredient_index: self.index,
                                key_index: Some(id),
                            },
                        },
                    },
                )
            },
        }
    }

    /// Relates the ingredient's state after one per-revision reset to its
    /// state before: the entries are untouched, occupied interner slots keep
    /// their meaning, and every tombstoned slot is freed.
    pub open spec fn is_reset_of(post: Self, pre: Self) -> bool {
        &&& post.ingredient_index() == pre.ingredient_index()
        &&& post.debug_name_spec() == pre.debug_name_spec()
        &&& post.entries_view() == pre.entries_view()
        &&& post.key_interner().slot_count() == pre.key_interner().slot_count()
        &&& forall|id: Id| #[trigger]
            post.key_interner().slot(id) == sweep_slot(pre.key_interner().slot(id))
    }

    /// Per-revision maintenance: sweeps the interner's tombstoned slots, so
    /// ids deleted by `remove_stale_output` stop resolving; live ids and the
    /// stored entries are unaffected.
    pub fn reset_for_new_revision(&mut self)
        requires
            old(self).wf(),
        ensures
            final(self).wf(),
            Self::is_reset_of(*final(self), *old(self)),
    {
        self.interner.clear_deleted_indices();
        proof {
            assert forall|j: int|
                0 <= j < self.entries@.len() implies self.key_interner().interned(
                (#[trigger] self.entries@[j]).0,
            ) by {
                let k2 = self.entries@[j].0;
                assert(old(self).key_interner().interned(k2));
                let id2 = choose|id2: Id| old(self).key_interner().occupied_with(id2, k2);
                assert(self.key_interner().slot(id2) == sweep_slot(
                    old(self).key_interner().slot(id2),
                ));
                assert(self.key_interner().occupied_with(id2, k2));
            }
        }
    }

    /// Isolation across revisions: if a read under revision `r1` observes
    /// any values for a query, a read under any other revision observes
    /// none - stored values are tied to the single revision they were
    /// produced at.
    pub proof fn lemma_isolation_across_revisions(
        acc: Self,
        q: DependencyIndex,
        r1: Revision,
        r2: Revision,
    )
        requires
            r1 != r2,
            acc.read_values(q, r1).len() > 0,
        ensures
            acc.read_values(q, r2) == Seq::<Data>::empty(),
    {
    }

    /// Emission order is kept: two consecutive emissions under one revision
    /// leave the active query's readable values grown by exactly those two
    /// values, in call order - `produced_by` then hands them out in that
    /// order.
    pub proof fn lemma_emission_order_kept(
        pre: Self,
        mid: Self,
        post: Self,
        rt0: Runtime,
        rt1: Runtime,
        rt2: Runtime,
        v1: Data,
        v2: Data,
    )
        requires
            rt0.active() is Some,
            Self::push_post(pre, mid, rt0, rt1, v1),
            Self::push_post(mid, post, rt1, rt2, v2),
        ensures
            post.read_values(rt0.active_key().as_dependency(), rt0.revision()) == pre.read_values(
                rt0.active_key().as_dependency(),
                rt0.revision(),
            ).push(v1).push(v2),
    {
        assert(rt1.active() == rt0.active());
    }

    /// A snapshot left behind by an abandoned or superseded run is
    /// invisible: whatever values an entry holds, a read under any revision
    /// other than the one they were produced at observes none of them.
    pub proof fn lemma_stale_snapshot_invisible(acc: Self, q: DependencyIndex, current: Revision)
        requires
            acc.entry_of(q) matches Some(e) && e.in_progress.produced_at != current,
        ensures
            acc.read_values(q, current) == Seq::<Data>::empty(),
    {
    }

    /// Idempotent reset: running the per-revision reset twice consecutively,
    /// with no intervening operation, changes nothing observable over
    /// running it once.
    pub proof fn lemma_reset_idempotent(pre: Self, once: Self, twice: Self)
        requires
            Self::is_reset_of(once, pre),
            Self::is_reset_of(twice, once),
        ensures
            twice.ingredient_index() == once.ingredient_index(),
            twice.debug_name_spec() == once.debug_name_spec(),
            twice.entries_view() == once.entries_view(),
            forall|q: DependencyIndex| #[trigger] twice.entry_of(q) == once.entry_of(q),
            forall|q: DependencyIndex, rev: Revision| #[trigger]
                twice.read_values(q, rev) == once.read_values(q, rev),
            twice.key_interner().slot_count() == once.key_interner().slot_count(),
            forall|id: Id| #[trigger]
                twice.key_interner().slot(id) == once.key_interner().slot(id),
    {
        assert forall|id: Id| #[trigger]
            twice.key_interner().slot(id) == once.key_interner().slot(id) by {
            assert(once.key_interner().slot(id) == sweep_slot(pre.key_interner().slot(id)));
        }
    }

    /// Stale-output removal, completed: once `remove_stale_output` has
    /// tombstoned an entry's id, the next per-revision reset leaves the id
    /// unresolvable.
    pub proof fn lemma_removed_key_unresolvable(removed: Self, reset: Self, id: Id)
        requires
            removed.key_interner().deleted_at(id),
            Self::is_reset_of(reset, removed),
        ensures
            reset.key_interner().resolve(id) is None,
    {
    }

    /// The index of the entry for `q`, if one exists.
    fn find_entry(&self, q: DependencyIndex) -> (r: Option<usize>)
        ensures
            match r {
                Some(i) => i < self.entries_view().len() && self.entries_view()[i as int].0 == q,
                None => !self.has_entry(q),
            },
    {
        let n = self.entries.len();
        let mut i: usize = 0;
        while i < n
            invariant
                n == self.entries@.len(),
                i <= n,
                forall|j: int| 0 <= j < i ==> (#[trigger] self.entries@[j]).0 != q,
            decreases n - i,
        {
            if self.entries[i].0 == q {
                return Some(i);
            }
            i += 1;
        }
        None
    }
}

} // verus!
