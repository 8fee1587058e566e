use incremental::key::{DatabaseKeyIndex, DependencyIndex, Id, IngredientIndex};
use incremental::revision::{Durability, Revision};
use incremental::runtime::{Cancelled, Runtime};

fn query_key(n: u32) -> DatabaseKeyIndex {
    DatabaseKeyIndex { ingredient_index: IngredientIndex { value: 1 }, key_index: Id { value: n } }
}

#[test]
fn active_query_follows_the_stack() {
    let mut runtime = Runtime::new();
    assert!(runtime.active_query().is_none());

    runtime.push_active_query(query_key(0), Durability::High);
    runtime.push_active_query(query_key(1), Durability::Low);

    let (key, stamp) = runtime.active_query().expect("a query is active");
    assert_eq!(key, query_key(1));
    assert_eq!(stamp.durability, Durability::Low);
    assert_eq!(stamp.changed_at, runtime.current_revision());

    let popped = runtime.pop_active_query().expect("a frame was popped");
    assert_eq!(popped.database_key_index, query_key(1));
    let (key, _) = runtime.active_query().expect("the outer query is active again");
    assert_eq!(key, query_key(0));

    runtime.pop_active_query();
    assert!(runtime.active_query().is_none());
    assert!(runtime.pop_active_query().is_none());
}

#[test]
fn reads_outside_a_query_are_not_tracked() {
    let mut runtime = Runtime::new();
    let dep = DependencyIndex { ingredient_index: IngredientIndex { value: 3 }, key_index: None };
    let rev = runtime.current_revision();
    runtime.report_tracked_read(dep, Durability::Low, rev);
    assert!(runtime.tracked_reads().is_empty());

    runtime.push_active_query(query_key(0), Durability::High);
    runtime.report_tracked_read(dep, Durability::Low, rev);
    let read = runtime.tracked_reads()[0];
    assert_eq!(read.reader, query_key(0));
    assert_eq!(read.dependency, dep);
    assert_eq!(read.durability, Durability::Low);
    assert_eq!(read.at_revision, rev);
}

#[test]
fn outputs_are_attributed_to_the_active_query() {
    let mut runtime = Runtime::new();
    let dep = DependencyIndex {
        ingredient_index: IngredientIndex { value: 3 },
        key_index: Some(Id { value: 0 }),
    };
    runtime.push_active_query(query_key(4), Durability::Medium);
    runtime.add_output(dep);
    let out = runtime.recorded_outputs()[0];
    assert_eq!(out.producer, query_key(4));
    assert_eq!(out.output, dep);
}

#[test]
fn cancellation_protocol_releases_readers_then_commits() {
    let mut runtime = Runtime::new();
    let rev1 = runtime.current_revision();

    // a query is in flight on the old revision; no write pending, so its
    // re-entry points let it continue
    runtime.push_active_query(query_key(0), Durability::High);
    assert_eq!(runtime.check_cancellation(), Ok(()));

    // a writer announces itself; a second writer must wait
    assert!(runtime.set_cancellation_flag());
    assert!(!runtime.set_cancellation_flag());

    // every re-entry point now answers with the marker, never a
    // continuation; the in-flight query unwinds its stack with it
    assert_eq!(runtime.check_cancellation(), Err(Cancelled::PendingWrite));
    runtime.pop_active_query();

    // all readers unwound: the revision advances exactly once
    runtime.commit_revision();
    assert_eq!(runtime.check_cancellation(), Ok(()));
    let rev2 = runtime.current_revision();
    assert_eq!(rev2, rev1.next());
    assert!(rev2.is_after(rev1));
    assert!(!rev1.is_after(rev2));
}

#[test]
fn revisions_start_at_one_and_advance_per_commit() {
    let mut runtime = Runtime::new();
    assert_eq!(runtime.current_revision(), Revision::start());
    for _ in 0..3 {
        assert!(runtime.set_cancellation_flag());
        runtime.commit_revision();
    }
    assert_eq!(
        runtime.current_revision(),
        Revision::start().next().next().next(),
    );
}
