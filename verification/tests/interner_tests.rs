use incremental::interner::Interner;
use incremental::key::{DependencyIndex, Id, IngredientIndex};

fn key(n: u32) -> DependencyIndex {
    DependencyIndex {
        ingredient_index: IngredientIndex { value: 1 },
        key_index: Some(Id { value: n }),
    }
}

#[test]
fn interning_is_idempotent() {
    let mut interner = Interner::new();
    let a = interner.intern(key(10));
    let b = interner.intern(key(11));
    assert_ne!(a, b);
    assert_eq!(interner.intern(key(10)), a);
    assert_eq!(interner.intern(key(11)), b);
    assert_eq!(interner.data(a), Some(key(10)));
    assert_eq!(interner.data(b), Some(key(11)));
    assert_eq!(interner.lookup(key(10)), Some(a));
    assert_eq!(interner.data(Id { value: 99 }), None);
}

#[test]
fn deletion_is_deferred_until_the_sweep() {
    let mut interner = Interner::new();
    let a = interner.intern(key(10));
    interner.delete_index(a);

    // a tombstoned id still resolves, but its key is no longer interned
    // and its slot is not yet reusable
    assert_eq!(interner.data(a), Some(key(10)));
    assert_eq!(interner.lookup(key(10)), None);
    let b = interner.intern(key(11));
    assert_ne!(b, a);

    // the sweep frees the slot: the id stops resolving and may be reused
    interner.clear_deleted_indices();
    assert_eq!(interner.data(a), None);
    assert_eq!(interner.data(b), Some(key(11)));
    let c = interner.intern(key(12));
    assert_eq!(c, a);
}

#[test]
fn sweeping_with_no_tombstones_changes_nothing() {
    let mut interner = Interner::new();
    let a = interner.intern(key(10));
    interner.clear_deleted_indices();
    interner.clear_deleted_indices();
    assert_eq!(interner.data(a), Some(key(10)));
    assert_eq!(interner.intern(key(10)), a);
}
