//! The memoized-function ingredient's provenance records.

use vstd::prelude::*;
use crate::key::{DependencyIndex, Id};

verus! {

/// The provenance of one memoized result: the dependency edges recorded
/// while it was computed.
pub struct QueryOrigin {
    pub edges: Vec<DependencyIndex>,
}

/// The provenance stored for `key` by the most recent memo in `memos`, if
/// any.
pub open spec fn origin_in(memos: Seq<(Id, QueryOrigin)>, key: Id) -> Option<Seq<DependencyIndex>>
    decreases memos.len(),
{
    if memos.len() == 0 {
        None
    } else if memos.last().0 == key {
        Some(memos.last().1.edges@)
    } else {
        origin_in(memos.drop_last(), key)
    }
}

/// The slice of a memoized-function ingredient that the dependency-graph
/// validator consults: which dependencies each memoized result was computed
/// from.
pub struct FunctionIngredient {
    memo_map: Vec<(Id, QueryOrigin)>,
}

impl FunctionIngredient {
    /// The stored memos, oldest first; later memos for a key shadow earlier
    /// ones.
    pub closed spec fn memo_view(self) -> Seq<(Id, QueryOrigin)> {
        self.memo_map@
    }

    /// The dependencies recorded for `key`, if a memo exists.
    pub open spec fn origin_of(self, key: Id) -> Option<Seq<DependencyIndex>> {
        origin_in(self.memo_view(), key)
    }

    /// An ingredient with no memos.
    pub fn new() -> (r: FunctionIngredient)
        ensures
            r.memo_view() == Seq::<(Id, QueryOrigin)>::empty(),
    {
        FunctionIngredient { memo_map: Vec::new() }
    }

    /// Stores the provenance recorded while computing `key`.
    pub fn insert_memo(&mut self, key: Id, origin: QueryOrigin)
        ensures
            final(self).origin_of(key) == Some(origin.edges@),
            forall|k2: Id| k2 != key ==> #[trigger] final(self).origin_of(k2) == old(
                self,
            ).origin_of(k2),
    {
        self.memo_map.push((key, origin));
        proof {
            assert(self.memo_map@.drop_last() == old(self).memo_map@);
        }
    }

    /// The set of dependencies recorded for `key`, or nothing if no memo
    /// exists for it.
    pub fn origin(&self, key: Id) -> (r: Option<QueryOrigin>)
        ensures
            match self.origin_of(key) {
                Some(edges) => r matches Some(o) && o.edges@ == edges,
                None => r is None,
            },
    {
        let n = self.memo_map.len();
        let mut i: usize = n;
        proof {
            assert(self.memo_map@.take(n as int) == self.memo_map@);
        }
        while i > 0
            invariant
                i <= n,
                n == self.memo_map@.len(),
                origin_in(self.memo_map@, key) == origin_in(
                    self.memo_map@.take(i as int),
                    key,
                ),
            decreases i,
        {
            if self.memo_map[i - 1].0 == key {
                proof {
                    assert(self.memo_map@.take(i as int).last() == self.memo_map@[i - 1]);
                }
                let stored = &self.memo_map[i - 1].1;
                let mut edges: Vec<DependencyIndex> = Vec::new();
                let m = stored.edges.len();
                let mut j: usize = 0;
                while j < m
                    invariant
                        j <= m,
                        m == stored.edges@.len(),
                        edges@ == stored.edges@.take(j as int),
                    decreases m - j,
                {
                    edges.push(stored.edges[j]);
                    proof {
                        assert(stored.edges@.take(j + 1) == stored.edges@.take(j as int).push(
                            stored.edges@[j as int],
                        ));
                    }
                    j += 1;
                }
                proof {
                    assert(stored.edges@.take(m as int) == stored.edges@);
                }
                return Some(QueryOrigin { edges });
            }
            proof {
                assert(self.memo_map@.take(i as int).drop_last() == self.memo_map@.take(i - 1));
                assert(self.memo_map@.take(i as int).last() == self.memo_map@[i - 1]);
            }
            i = i - 1;
        }
        proof {
            assert(self.memo_map@.take(0) == Seq::<(Id, QueryOrigin)>::empty());
        }
        None
    }
}

} // verus!
