//! Bidirectional key-to-compact-id mapping with deferred deletion.
//!
//! Interning the same key twice returns the same id.  Deleting an id marks a
//! tombstone without freeing the slot, so readers that are still validating
//! the revision in which the deletion happened can resolve it; an explicit
//! per-revision sweep frees tombstoned slots, after which their ids may be
//! reused.

use vstd::prelude::*;
use crate::key::{DependencyIndex, Id};

verus! {

/// One slot of the interner: the key it carries, if any, and whether that
/// key has been tombstoned.
#[derive(Clone, Copy, PartialEq, Eq, Structural, Debug)]
pub enum InternSlot {
    /// The slot's id currently names this key.
    Occupied(DependencyIndex),
    /// The key was deleted but the slot is not yet swept; the id still
    /// resolves to the key.
    Deleted(DependencyIndex),
    /// The slot carries no key; its id does not resolve.
    Free,
}

/// What the per-revision sweep does to one slot: tombstones are freed,
/// everything else is kept.
pub open spec fn sweep_slot(s: InternSlot) -> InternSlot {
    match s {
        InternSlot::Deleted(_) => InternSlot::Free,
        _ => s,
    }
}

/// Owns the key-to-id mapping for one ingredient.
pub struct Interner {
    slots: Vec<InternSlot>,
}

impl Interner {
    /// The slot an id addresses; out-of-range ids behave as free slots.
    pub closed spec fn slot(self, id: Id) -> InternSlot {
        if id.value < self.slots@.len() {
            self.slots@[id.value as int]
        } else {
            InternSlot::Free
        }
    }

    /// How many slots have been allocated so far.
    pub closed spec fn slot_count(self) -> int {
        self.slots@.len() as int
    }

    /// Whether `id` currently names `key`.
    pub open spec fn occupied_with(self, id: Id, key: DependencyIndex) -> bool {
        self.slot(id) == InternSlot::Occupied(key)
    }

    /// Whether `id` names some key that is not tombstoned.
    pub open spec fn is_occupied(self, id: Id) -> bool {
        self.slot(id) is Occupied
    }

    /// Whether `id` is tombstoned: deleted but not yet swept.
    pub open spec fn deleted_at(self, id: Id) -> bool {
        self.slot(id) is Deleted
    }

    /// The key `id` resolves to; tombstoned ids still resolve until the
    /// sweep frees them.
    pub open spec fn resolve(self, id: Id) -> Option<DependencyIndex> {
        match self.slot(id) {
            InternSlot::Occupied(k) => Some(k),
            InternSlot::Deleted(k) => Some(k),
            InternSlot::Free => None,
        }
    }

    /// Whether some id currently names `key`.
    pub open spec fn interned(self, key: DependencyIndex) -> bool {
        exists|id: Id| self.occupied_with(id, key)
    }

    /// Well-formedness: ids fit the compact integer type, and no two
    /// occupied slots carry the same key.
    pub closed spec fn wf(self) -> bool {
        &&& self.slots@.len() <= u32::MAX as int
        &&& forall|i: int, j: int|
            0 <= i < self.slots@.len() && 0 <= j < self.slots@.len() && i != j
                && #[trigger] self.slots@[i] is Occupied && #[trigger] self.slots@[j] is Occupied
                ==> self.slots@[i] != self.slots@[j]
    }

    /// An interner with no keys.
    pub fn new() -> (r: Interner)
        ensures
            r.wf(),
            r.slot_count() == 0,
            forall|id: Id| #[trigger] r.slot(id) == InternSlot::Free,
    {
        Interner { slots: Vec::new() }
    }

    /// Returns an existing id for a previously interned key, else allocates
    /// one; idempotent: at most one id names a key, so interning a seen key
    /// returns exactly that id.  Already-allocated slots never change
    /// meaning.
    pub fn intern(&mut self, key: DependencyIndex) -> (id: Id)
        requires
            old(self).wf(),
            old(self).slot_count() < u32::MAX as int,
        ensures
            final(self).wf(),
            final(self).occupied_with(id, key),
            forall|id2: Id| #[trigger] old(self).occupied_with(id2, key) ==> id2 == id,
            final(self).slot_count() <= old(self).slot_count() + 1,
            forall|id2: Id| id2 != id ==> #[trigger] final(self).slot(id2) == old(self).slot(id2),
            old(self).interned(key) ==> *final(self) == *old(self) && old(self).occupied_with(
                id,
                key,
            ),
            !old(self).interned(key) ==> old(self).slot(id) == InternSlot::Free,
    {
        let n = self.slots.len();
        let mut first_free: Option<usize> = None;
        let mut i: usize = 0;
        while i < n
            invariant
                n == self.slots@.len(),
                self.wf(),
                self.slot_count() < u32::MAX as int,
                i <= n,
                forall|j: int|
                    0 <= j < i ==> #[trigger] self.slots@[j] != InternSlot::Occupied(key),
                match first_free {
                    Some(f) => f < i && self.slots@[f as int] == InternSlot::Free,
                    None => forall|j: int| 0 <= j < i ==> !(#[trigger] self.slots@[j] is Free),
                },
            decreases n - i,
        {
            match self.slots[i] {
                InternSlot::Occupied(k) => {
                    if k == key {
                        let id = Id { value: i as u32 };
                        proof {
                            assert(self.occupied_with(id, key));
                            assert forall|id2: Id| #[trigger]
                                self.occupied_with(id2, key) implies id2 == id by {
                                if id2.value != id.value {
                                    assert(self.slots@[id2.value as int] == InternSlot::Occupied(
                                        key,
                                    ));
                                    assert(self.slots@[i as int] == InternSlot::Occupied(key));
                                }
                            }
                        }
                        return id;
                    }
                },
                InternSlot::Deleted(_) => {},
                InternSlot::Free => {
                    if first_free.is_none() {
                        first_free = Some(i);
                    }
                },
            }
            i += 1;
        }
        proof {
            assert(!self.interned(key)) by {
                assert forall|id2: Id| !self.occupied_with(id2, key) by {
                    if id2.value < self.slots@.len() {
                        assert(self.slots@[id2.value as int] != InternSlot::Occupied(key));
                    }
                }
            }
        }
        match first_free {
            Some(f) => {
                self.slots.set(f, InternSlot::Occupied(key));
                let id = Id { value: f as u32 };
                proof {
                    assert(self.occupied_with(id, key));
                }
                id
            },
            None => {
                self.slots.push(InternSlot::Occupied(key));
                let id = Id { value: n as u32 };
                proof {
                    assert(self.slots@[n as int] == InternSlot::Occupied(key));
                    assert(self.occupied_with(id, key));
                }
                id
            },
        }
    }

    /// The id currently naming `key`, if any; tombstoned keys do not count.
    /// At most one id names a key, so the answer is the only one.
    pub fn lookup(&self, key: DependencyIndex) -> (r: Option<Id>)
        requires
            self.wf(),
        ensures
            match r {
                Some(id) => self.occupied_with(id, key) && forall|id2: Id| #[trigger]
                    self.occupied_with(id2, key) ==> id2 == id,
                None => !self.interned(key),
            },
    {
        let n = self.slots.len();
        let mut i: usize = 0;
        while i < n
            invariant
                n == self.slots@.len(),
                self.wf(),
                i <= n,
                forall|j: int|
                    0 <= j < i ==> #[trigger] self.slots@[j] != InternSlot::Occupied(key),
            decreases n - i,
        {
            if let InternSlot::Occupied(k) = self.slots[i] {
                if k == key {
                    let id = Id { value: i as u32 };
                    proof {
                        assert(self.occupied_with(id, key));
                        assert forall|id2: Id| #[trigger]
                            self.occupied_with(id2, key) implies id2 == id by {
                            if id2.value != id.value {
                                assert(self.slots@[id2.value as int] == InternSlot::Occupied(key));
                                assert(self.slots@[i as int] == InternSlot::Occupied(key));
                            }
                        }
                    }
                    return Some(id);
                }
            }
            i += 1;
        }
        proof {
            assert forall|id2: Id| !self.occupied_with(id2, key) by {
                if id2.value < self.slots@.len() {
                    assert(self.slots@[id2.value as int] != InternSlot::Occupied(key));
                }
            }
        }
        None
    }

    /// Inverse lookup: the key `id` resolves to, or nothing if `id` is
    /// unknown or already swept.
    pub fn data(&self, id: Id) -> (r: Option<DependencyIndex>)
        ensures
            r == self.resolve(id),
    {
        let v = id.value as usize;
        if v < self.slots.len() {
            match self.slots[v] {
                InternSlot::Occupied(k) => Some(k),
                InternSlot::Deleted(k) => Some(k),
                InternSlot::Free => None,
            }
        } else {
            None
        }
    }

    /// Tombstones `id` without freeing its slot: the id still resolves, but
    /// the key no longer counts as interned.
    pub fn delete_index(&mut self, id: Id)
        requires
            old(self).wf(),
            old(self).is_occupied(id),
        ensures
            final(self).wf(),
            final(self).deleted_at(id),
            final(self).resolve(id) == old(self).resolve(id),
            final(self).slot_count() == old(self).slot_count(),
            forall|id2: Id| id2 != id ==> #[trigger] final(self).slot(id2) == old(self).slot(id2),
    {
        let v = id.value as usize;
        let slot = self.slots[v];
        if let InternSlot::Occupied(k) = slot {
            self.slots.set(v, InternSlot::Deleted(k));
        } else {
            proof {
                assert(false);
            }
        }
    }

    /// Frees every tombstoned slot; invoked once per revision turnover.
    /// Occupied slots keep their meaning, so every live id still resolves.
    pub fn clear_deleted_indices(&mut self)
        requires
            old(self).wf(),
        ensures
            final(self).wf(),
            final(self).slot_count() == old(self).slot_count(),
            forall|id2: Id| #[trigger] final(self).slot(id2) == sweep_slot(old(self).slot(id2)),
    {
        let n = self.slots.len();
        let mut i: usize = 0;
        while i < n
            invariant
                n == self.slots@.len(),
                i <= n,
                old(self).wf(),
                forall|j: int|
                    0 <= j < i ==> #[trigger] self.slots@[j] == sweep_slot(old(self).slots@[j]),
                forall|j: int| i <= j < n ==> #[trigger] self.slots@[j] == old(self).slots@[j],
            decreases n - i,
        {
            if let InternSlot::Deleted(_) = self.slots[i] {
                self.slots.set(i, InternSlot::Free);
            }
            i += 1;
        }
        proof {
            assert forall|id2: Id| #[trigger] self.slot(id2) == sweep_slot(old(self).slot(id2))
            by {
                if id2.value < self.slots@.len() {
                } else {
                }
            }
            assert(self.wf()) by {
                assert forall|a: int, b: int|
                    0 <= a < self.slots@.len() && 0 <= b < self.slots@.len() && a != b
                        && #[trigger] self.slots@[a] is Occupied
                        && #[trigger] self.slots@[b] is Occupied implies self.slots@[a]
                    != self.slots@[b] by {
                    assert(self.slots@[a] == sweep_slot(old(self).slots@[a]));
                    assert(self.slots@[b] == sweep_slot(old(self).slots@[b]));
                }
            }
        }
    }
}

} // verus!
