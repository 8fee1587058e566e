//! Revisions, durabilities and stamped values.

use vstd::prelude::*;
use vstd::seq_lib::group_to_multiset_ensures;

verus! {

/// Monotonically increasing counter identifying one consistent snapshot of
/// all inputs; incremented exactly once per committed input mutation.
#[derive(Clone, Copy, PartialEq, Eq, Structural, Hash, Debug)]
pub struct Revision {
    counter: u64,
}

impl Revision {
    /// The underlying counter value; revisions are ordered by it.
    pub closed spec fn value(self) -> u64 {
        self.counter
    }

    /// The first revision of a fresh runtime.
    pub fn start() -> (r: Revision)
        ensures
            r.value() == 1,
    {
        Revision { counter: 1 }
    }

    /// The immediately following revision.
    pub fn next(self) -> (r: Revision)
        requires
            self.value() < u64::MAX,
        ensures
            r.value() == self.value() + 1,
    {
        Revision { counter: self.counter + 1 }
    }

    /// Whether this revision is strictly later than `other`.
    pub fn is_after(self, other: Revision) -> (r: bool)
        ensures
            r == (self.value() > other.value()),
    {
        self.counter > other.counter
    }
}

/// Coarse hint on how often a value changes; combined across contributors by
/// taking the minimum, so the weakest contributor wins.
#[derive(Clone, Copy, PartialEq, Eq, Structural, Hash, Debug)]
pub enum Durability {
    Low,
    Medium,
    High,
}

/// The combination of two durabilities: the weaker of the two.
pub open spec fn dur_min(a: Durability, b: Durability) -> Durability {
    if a.rank() <= b.rank() {
        a
    } else {
        b
    }
}

impl Durability {
    /// Total order on durabilities: `Low` changes most often, `High` least.
    pub open spec fn rank(self) -> int {
        match self {
            Durability::Low => 0,
            Durability::Medium => 1,
            Durability::High => 2,
        }
    }

    /// Executable counterpart of [`Durability::rank`].
    pub fn rank_value(self) -> (r: u8)
        ensures
            r as int == self.rank(),
    {
        match self {
            Durability::Low => 0,
            Durability::Medium => 1,
            Durability::High => 2,
        }
    }

    /// The weaker of `self` and `other`.
    pub fn min_with(self, other: Durability) -> (r: Durability)
        ensures
            r == dur_min(self, other),
    {
        if self.rank_value() <= other.rank_value() {
            self
        } else {
            other
        }
    }
}

/// A value tagged with the durability and revision under which it was
/// produced.
#[derive(Clone, Copy, PartialEq, Eq, Structural, Hash, Debug)]
pub struct StampedValue<T> {
    pub value: T,
    pub durability: Durability,
    pub changed_at: Revision,
}

/// The weakest durability among a non-empty sequence of contributors, folded
/// in emission order.
pub open spec fn min_of(s: Seq<Durability>) -> Durability
    recommends
        s.len() > 0,
    decreases s.len(),
{
    if s.len() <= 1 {
        s[0]
    } else {
        dur_min(min_of(s.drop_last()), s.last())
    }
}

/// The folded minimum is no stronger than any contributor.
pub proof fn lemma_min_of_lower_bound(s: Seq<Durability>, i: int)
    requires
        0 <= i < s.len(),
    ensures
        min_of(s).rank() <= s[i].rank(),
    decreases s.len(),
{
    if s.len() > 1 {
        if i == s.len() - 1 {
        } else {
            lemma_min_of_lower_bound(s.drop_last(), i);
        }
    }
}

/// The folded minimum is itself one of the contributors.
pub proof fn lemma_min_of_membership(s: Seq<Durability>)
    requires
        s.len() > 0,
    ensures
        s.contains(min_of(s)),
    decreases s.len(),
{
    if s.len() <= 1 {
        assert(s[0] == min_of(s));
    } else {
        lemma_min_of_membership(s.drop_last());
        if min_of(s) == s.last() {
        } else {
            let j = choose|j: int| 0 <= j < s.drop_last().len() && s.drop_last()[j] == min_of(s);
            assert(s[j] == min_of(s));
        }
    }
}

/// A single contributor is its own minimum; this is where the fold that
/// repeated emissions perform starts.
pub proof fn lemma_min_of_singleton(d: Durability)
    ensures
        min_of(seq![d]) == d,
{
}

/// Folding one more contributor narrows the minimum by one pairwise step;
/// this is how repeated emissions accumulate the stored durability.
pub proof fn lemma_min_of_step(s: Seq<Durability>, d: Durability)
    requires
        s.len() > 0,
    ensures
        min_of(s.push(d)) == dur_min(min_of(s), d),
{
    assert(s.push(d).drop_last() == s);
}

/// Durability monotonicity, as one law over a whole revision's emissions.
/// The fold that repeated emissions perform - `lemma_min_of_singleton`
/// starts it, `lemma_min_of_step` narrows it once per further emission,
/// matching the per-call `dur_min` clause of the accumulator's `push` -
/// yields the weakest emitted durability: one of the emissions, no stronger
/// than any of them, and dependent only on which durabilities were emitted,
/// never on their order.
pub proof fn lemma_durability_monotonicity(ds: Seq<Durability>)
    requires
        ds.len() > 0,
    ensures
        ds.contains(min_of(ds)),
        forall|i: int| 0 <= i < ds.len() ==> min_of(ds).rank() <= ds[i].rank(),
        forall|ds2: Seq<Durability>|
            ds2.to_multiset() == ds.to_multiset() ==> #[trigger] min_of(ds2) == min_of(ds),
{
    lemma_min_of_membership(ds);
    assert forall|i: int| 0 <= i < ds.len() implies min_of(ds).rank() <= ds[i].rank() by {
        lemma_min_of_lower_bound(ds, i);
    }
    assert forall|ds2: Seq<Durability>|
        ds2.to_multiset() == ds.to_multiset() implies #[trigger] min_of(ds2) == min_of(ds) by {
        lemma_min_of_order_independent(ds, ds2);
    }
}

/// The weakest durability among the contributors depends only on which
/// durabilities were emitted, never on their order: two emission orders with
/// the same multiset of durabilities fold to the same stored durability.
pub proof fn lemma_min_of_order_independent(s1: Seq<Durability>, s2: Seq<Durability>)
    requires
        s1.len() > 0,
        s1.to_multiset() == s2.to_multiset(),
    ensures
        min_of(s1) == min_of(s2),
{
    broadcast use group_to_multiset_ensures;

    assert(s1.to_multiset().len() == s1.len());
    assert(s2.to_multiset().len() == s2.len());
    lemma_min_of_membership(s1);
    lemma_min_of_membership(s2);
    assert(s1.to_multiset().count(min_of(s1)) > 0);
    assert(s2.to_multiset().count(min_of(s2)) > 0);
    assert(s2.contains(min_of(s1)));
    assert(s1.contains(min_of(s2)));
    let i1 = choose|i: int| 0 <= i < s1.len() && s1[i] == min_of(s2);
    let i2 = choose|i: int| 0 <= i < s2.len() && s2[i] == min_of(s1);
    lemma_min_of_lower_bound(s1, i1);
    lemma_min_of_lower_bound(s2, i2);
}

} // verus!
