//! Compact identifiers addressing entities inside the engine.

use vstd::prelude::*;

verus! {

/// Compact integer identifying one logical entity within an ingredient's
/// namespace.
#[derive(Clone, Copy, PartialEq, Eq, Structural, Hash, Debug)]
pub struct Id {
    pub value: u32,
}

/// Identifies one ingredient registered with the host database.
#[derive(Clone, Copy, PartialEq, Eq, Structural, Hash, Debug)]
pub struct IngredientIndex {
    pub value: u32,
}

/// Addresses one ingredient instance, or a specific slot within it; used
/// uniformly as a dependency-graph edge endpoint across all ingredient kinds.
#[derive(Clone, Copy, PartialEq, Eq, Structural, Hash, Debug)]
pub struct DependencyIndex {
    pub ingredient_index: IngredientIndex,
    pub key_index: Option<Id>,
}

/// Names one specific slot of one ingredient; unlike `DependencyIndex`, the
/// key part is always present.
#[derive(Clone, Copy, PartialEq, Eq, Structural, Hash, Debug)]
pub struct DatabaseKeyIndex {
    pub ingredient_index: IngredientIndex,
    pub key_index: Id,
}

impl DatabaseKeyIndex {
    /// The dependency-graph endpoint that addresses this slot.
    pub open spec fn as_dependency(self) -> DependencyIndex {
        DependencyIndex {
            ingredient_index: self.ingredient_index,
            key_index: Some(self.key_index),
        }
    }

    /// Executable counterpart of [`DatabaseKeyIndex::as_dependency`].
    pub fn to_dependency(self) -> (r: DependencyIndex)
        ensures
            r == self.as_dependency(),
    {
        DependencyIndex {
            ingredient_index: self.ingredient_index,
            key_index: Some(self.key_index),
        }
    }
}

} // verus!
