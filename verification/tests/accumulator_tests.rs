use incremental::accumulator::{AccumulateError, AccumulatorIngredient};
use incremental::database::InputDatabase;
use incremental::ingredient::{CycleRecoveryStrategy, EventKind};
use incremental::key::{DatabaseKeyIndex, DependencyIndex, Id, IngredientIndex};
use incremental::revision::Durability;
use incremental::runtime::Runtime;

fn acc_index() -> IngredientIndex {
    IngredientIndex { value: 7 }
}

fn query_key(n: u32) -> DatabaseKeyIndex {
    DatabaseKeyIndex { ingredient_index: IngredientIndex { value: 1 }, key_index: Id { value: n } }
}

fn collect(
    acc: &AccumulatorIngredient<String>,
    runtime: &mut Runtime,
    query: DatabaseKeyIndex,
) -> Vec<String> {
    let mut out: Vec<String> = Vec::new();
    acc.produced_by(runtime, query, &mut out);
    out
}

#[test]
fn emits_in_call_order_and_resets_on_new_revision() {
    let mut runtime = Runtime::new();
    let mut acc: AccumulatorIngredient<String> = AccumulatorIngredient::new(acc_index(), "logs");
    let q = query_key(0);

    runtime.push_active_query(q, Durability::High);
    acc.push(&mut runtime, String::from("v1"));
    acc.push(&mut runtime, String::from("v2"));
    runtime.pop_active_query();

    assert_eq!(collect(&acc, &mut runtime, q), vec![String::from("v1"), String::from("v2")]);

    // advance to the next revision with no new emissions for q
    assert!(runtime.set_cancellation_flag());
    runtime.commit_revision();

    assert_eq!(collect(&acc, &mut runtime, q), Vec::<String>::new());
}

#[test]
fn stale_values_cleared_on_first_emission_of_new_revision() {
    let mut runtime = Runtime::new();
    let mut acc: AccumulatorIngredient<String> = AccumulatorIngredient::new(acc_index(), "logs");
    let q = query_key(0);

    runtime.push_active_query(q, Durability::High);
    acc.push(&mut runtime, String::from("old"));
    runtime.pop_active_query();

    assert!(runtime.set_cancellation_flag());
    runtime.commit_revision();

    runtime.push_active_query(q, Durability::High);
    acc.push(&mut runtime, String::from("new"));
    runtime.pop_active_query();

    assert_eq!(collect(&acc, &mut runtime, q), vec![String::from("new")]);
}

#[test]
fn reset_twice_is_idempotent() {
    // two ingredients receive the same operations; one is reset once, the
    // other twice; every observation agrees afterwards
    let mut runtime_a = Runtime::new();
    let mut runtime_b = Runtime::new();
    let mut once: AccumulatorIngredient<String> = AccumulatorIngredient::new(acc_index(), "logs");
    let mut twice: AccumulatorIngredient<String> = AccumulatorIngredient::new(acc_index(), "logs");
    let q = query_key(0);
    let keep = query_key(1);

    for (runtime, acc) in [(&mut runtime_a, &mut once), (&mut runtime_b, &mut twice)] {
        runtime.push_active_query(q, Durability::Low);
        acc.push(runtime, String::from("dropped"));
        runtime.pop_active_query();
        runtime.push_active_query(keep, Durability::Low);
        acc.push(runtime, String::from("kept"));
        runtime.pop_active_query();
        let id = runtime.recorded_outputs()[0].output.key_index;
        acc.remove_stale_output(q, id);
    }

    once.reset_for_new_revision();
    twice.reset_for_new_revision();
    twice.reset_for_new_revision();

    let db = InputDatabase::new();
    for n in 0..4u32 {
        let input = DependencyIndex { ingredient_index: acc_index(), key_index: Some(Id { value: n }) };
        let rev = runtime_a.current_revision();
        assert_eq!(
            once.maybe_changed_after(&db, input, rev),
            twice.maybe_changed_after(&db, input, rev),
        );
    }
    assert_eq!(
        collect(&once, &mut runtime_a, keep),
        collect(&twice, &mut runtime_b, keep),
    );
    assert_eq!(collect(&once, &mut runtime_a, q), Vec::<String>::new());
    assert_eq!(collect(&twice, &mut runtime_b, q), Vec::<String>::new());
}

fn stored_durability_after(emissions: &[Durability]) -> Durability {
    let mut runtime = Runtime::new();
    let mut acc: AccumulatorIngredient<String> = AccumulatorIngredient::new(acc_index(), "logs");
    let q = query_key(0);
    for d in emissions {
        runtime.push_active_query(q, *d);
        acc.push(&mut runtime, String::from("v"));
        runtime.pop_active_query();
    }
    // a read reports the entry's durability into the dependency graph
    let mut out: Vec<String> = Vec::new();
    runtime.push_active_query(query_key(9), Durability::High);
    acc.produced_by(&mut runtime, q, &mut out);
    let read = runtime.tracked_reads()[runtime.tracked_reads().len() - 1];
    read.durability
}

#[test]
fn durability_narrows_to_weakest_contributor() {
    let high = Durability::High;
    let medium = Durability::Medium;
    let low = Durability::Low;
    assert_eq!(stored_durability_after(&[high, medium, low]), low);
    assert_eq!(stored_durability_after(&[low, medium, high]), low);
    assert_eq!(stored_durability_after(&[medium, high]), medium);
    assert_eq!(stored_durability_after(&[high]), high);
    assert_eq!(stored_durability_after(&[high, low, high]), low);
}

#[test]
fn removed_stale_output_is_gone_and_key_stops_resolving() {
    let mut runtime = Runtime::new();
    let mut acc: AccumulatorIngredient<String> = AccumulatorIngredient::new(acc_index(), "logs");
    let q = query_key(0);

    runtime.push_active_query(q, Durability::High);
    acc.push(&mut runtime, String::from("v1"));
    runtime.pop_active_query();

    let output = runtime.recorded_outputs()[0].output;
    assert_eq!(output.ingredient_index, acc_index());
    let id = output.key_index;

    let event = acc.remove_stale_output(q, id).expect("an entry was removed");
    assert_eq!(
        event.kind,
        EventKind::DidDiscardAccumulated { executor_key: q, accumulator: output },
    );

    // subsequent reads for that query return nothing
    assert_eq!(collect(&acc, &mut runtime, q), Vec::<String>::new());

    // a second identical removal is a no-op: no event, no change
    assert!(acc.remove_stale_output(q, id).is_none());
    assert_eq!(collect(&acc, &mut runtime, q), Vec::<String>::new());

    // with the entry gone, any change query for the slot is answered
    // conservatively, before and after the sweep
    let db = InputDatabase::new();
    let rev = runtime.current_revision();
    assert!(acc.maybe_changed_after(&db, output, rev));

    // after the per-revision sweep the interned key no longer resolves
    acc.reset_for_new_revision();
    assert!(acc.maybe_changed_after(&db, output, rev));
}

#[test]
fn emitting_outside_a_query_is_rejected_and_changes_nothing() {
    let mut runtime = Runtime::new();
    let mut acc: AccumulatorIngredient<String> = AccumulatorIngredient::new(acc_index(), "logs");
    let q = query_key(0);

    runtime.push_active_query(q, Durability::High);
    acc.push(&mut runtime, String::from("kept"));
    runtime.pop_active_query();

    let before = collect(&acc, &mut runtime, q);
    let outputs_before = runtime.recorded_outputs().len();

    let result = acc.try_push(&mut runtime, String::from("rejected"));
    assert_eq!(result, Err(AccumulateError::NoActiveQuery));

    assert_eq!(collect(&acc, &mut runtime, q), before);
    assert_eq!(runtime.recorded_outputs().len(), outputs_before);

    // with a query active again, the guarded emission goes through
    runtime.push_active_query(q, Durability::High);
    assert_eq!(acc.try_push(&mut runtime, String::from("accepted")), Ok(()));
    runtime.pop_active_query();
    assert_eq!(
        collect(&acc, &mut runtime, q),
        vec![String::from("kept"), String::from("accepted")],
    );
}

#[test]
fn mark_validated_output_extends_freshness() {
    let mut runtime = Runtime::new();
    let mut acc: AccumulatorIngredient<String> = AccumulatorIngredient::new(acc_index(), "logs");
    let q = query_key(0);

    runtime.push_active_query(q, Durability::High);
    acc.push(&mut runtime, String::from("v1"));
    runtime.pop_active_query();
    let id = runtime.recorded_outputs()[0].output.key_index;

    assert!(runtime.set_cancellation_flag());
    runtime.commit_revision();
    assert_eq!(collect(&acc, &mut runtime, q), Vec::<String>::new());

    // the producer was reconfirmed unchanged: the values become visible in
    // the new revision without recomputation
    acc.mark_validated_output(&runtime, q, id);
    assert_eq!(collect(&acc, &mut runtime, q), vec![String::from("v1")]);
}

#[test]
fn maybe_changed_after_defers_to_the_producing_query() {
    let mut runtime = Runtime::new();
    let mut acc: AccumulatorIngredient<String> = AccumulatorIngredient::new(acc_index(), "logs");
    let q = query_key(0);

    runtime.push_active_query(q, Durability::High);
    acc.push(&mut runtime, String::from("v1"));
    runtime.pop_active_query();
    let input = runtime.recorded_outputs()[0].output;

    let rev1 = runtime.current_revision();
    assert!(runtime.set_cancellation_flag());
    runtime.commit_revision();
    let rev2 = runtime.current_revision();

    let mut db = InputDatabase::new();
    // an unrecorded producing query is conservatively assumed changed
    assert!(acc.maybe_changed_after(&db, input, rev2));

    // the producer last changed at rev2: changed since rev1, not since rev2
    db.record_change(q.to_dependency(), rev2);
    assert!(acc.maybe_changed_after(&db, input, rev1));
    assert!(!acc.maybe_changed_after(&db, input, rev2));

    // an id this ingredient never interned is assumed changed
    let unknown = DependencyIndex {
        ingredient_index: acc_index(),
        key_index: Some(Id { value: 100 }),
    };
    assert!(acc.maybe_changed_after(&db, unknown, rev2));

    // a keyless input is answered conservatively, not refused
    let keyless = DependencyIndex { ingredient_index: acc_index(), key_index: None };
    assert!(acc.maybe_changed_after(&db, keyless, rev2));
}

#[test]
fn accumulators_declare_their_ingredient_contract() {
    let acc: AccumulatorIngredient<String> = AccumulatorIngredient::new(acc_index(), "logs");
    assert_eq!(acc.cycle_recovery_strategy(), CycleRecoveryStrategy::Panic);
    assert!(acc.origin(Id { value: 0 }).is_none());
    assert_eq!(acc.debug_name(), "logs");
}
