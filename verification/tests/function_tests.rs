use incremental::database::{Database, InputDatabase};
use incremental::function::{FunctionIngredient, QueryOrigin};
use incremental::key::{DependencyIndex, Id, IngredientIndex};
use incremental::runtime::Runtime;

fn dep(n: u32) -> DependencyIndex {
    DependencyIndex {
        ingredient_index: IngredientIndex { value: 2 },
        key_index: Some(Id { value: n }),
    }
}

#[test]
fn origin_reports_the_recorded_provenance() {
    let mut function = FunctionIngredient::new();
    assert!(function.origin(Id { value: 0 }).is_none());

    function.insert_memo(Id { value: 0 }, QueryOrigin { edges: vec![dep(1), dep(2)] });
    function.insert_memo(Id { value: 1 }, QueryOrigin { edges: vec![] });

    let origin = function.origin(Id { value: 0 }).expect("a memo exists");
    assert_eq!(origin.edges, vec![dep(1), dep(2)]);
    let empty = function.origin(Id { value: 1 }).expect("a memo exists");
    assert!(empty.edges.is_empty());
    assert!(function.origin(Id { value: 2 }).is_none());

    // a newer memo for the same key shadows the older one
    function.insert_memo(Id { value: 0 }, QueryOrigin { edges: vec![dep(3)] });
    let origin = function.origin(Id { value: 0 }).expect("a memo exists");
    assert_eq!(origin.edges, vec![dep(3)]);
}

#[test]
fn unknown_inputs_are_assumed_changed() {
    let mut runtime = Runtime::new();
    let mut db = InputDatabase::new();
    let rev1 = runtime.current_revision();
    assert!(db.maybe_changed_after(dep(0), rev1));

    assert!(runtime.set_cancellation_flag());
    runtime.commit_revision();
    let rev2 = runtime.current_revision();

    db.record_change(dep(0), rev2);
    assert!(db.maybe_changed_after(dep(0), rev1));
    assert!(!db.maybe_changed_after(dep(0), rev2));

    // the most recent recording wins
    db.record_change(dep(0), rev1);
    assert!(!db.maybe_changed_after(dep(0), rev1));
}
