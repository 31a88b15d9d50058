use move_fuzzer::crash::{Crash, CrashSet, Error, WorkerEvent};
use move_fuzzer::mutator::SuiMutator;
use move_fuzzer::pass_log::ByteMutator;
use move_fuzzer::value::Value;
use move_fuzzer::worker::{is_callable, StatefulWorker, MUTATIONS_PER_CALL};

/// Leaves the bytes as they are.
struct Keep;

impl ByteMutator for Keep {
    fn mutate_bytes(&mut self, _input: &mut Vec<u8>, _count: usize) {}
}

fn overflow() -> Error {
    Error::Unknown { message: "overflow".to_string() }
}

fn function_name(v: &Value) -> String {
    match v {
        Value::Function(name, _, _) => name.clone(),
        other => panic!("not a function: {:?}", other),
    }
}

fn bank_worker(seed: u64) -> StatefulWorker<Keep> {
    StatefulWorker::new(
        SuiMutator::new(seed, Keep, true),
        seed,
        vec![("deposit".to_string(), vec![Value::U64(0)])],
        vec![("fuzz_withdraw".to_string(), vec![Value::U64(0)], vec![])],
        2,
    )
}

fn sorted_names(calls: &[Value]) -> Vec<String> {
    let mut names: Vec<String> = calls.iter().map(function_name).collect();
    names.sort();
    names
}

#[test]
fn call_sequence_length_counts_pools_and_extension() {
    let w = StatefulWorker::new(
        SuiMutator::new(5, Keep, true),
        5,
        vec![("a".to_string(), vec![]), ("b".to_string(), vec![Value::Bool(true)])],
        vec![
            ("fuzz_x".to_string(), vec![], vec![]),
            ("fuzz_init".to_string(), vec![], vec![]),
            ("fuzz_y".to_string(), vec![Value::U8(1)], vec![Value::U8(0)]),
        ],
        3,
    );
    for size in 0..6u32 {
        assert_eq!(w.generate_call_sequence(size).len(), 4 + size as usize);
    }
}

#[test]
fn fuzz_init_is_never_scheduled() {
    let w = StatefulWorker::new(
        SuiMutator::new(5, Keep, true),
        5,
        vec![],
        vec![
            ("fuzz_init".to_string(), vec![], vec![]),
            ("fuzz_step".to_string(), vec![], vec![]),
            ("fuzz_init".to_string(), vec![], vec![]),
        ],
        1,
    );
    let names = sorted_names(&w.generate_call_sequence(0));
    assert_eq!(names, vec!["fuzz_init".to_string(), "fuzz_step".to_string()]);
}

#[test]
fn pool_extension_is_seeded_and_ordered() {
    // With seed 1 every pick over a pool of n calls is 1 % n.
    let w = StatefulWorker::new(
        SuiMutator::new(1, Keep, true),
        9,
        vec![("t".to_string(), vec![])],
        vec![("fuzz_a".to_string(), vec![], vec![])],
        4,
    );
    let pool = w.extend_call_pool(3);
    let names: Vec<String> = pool.iter().map(function_name).collect();
    assert_eq!(names, vec!["fuzz_a", "t", "t", "t", "t"]);
}

#[test]
fn shuffle_keeps_the_multiset() {
    let w = bank_worker(11);
    for size in 0..5u32 {
        let pool = w.extend_call_pool(size);
        let seq = w.generate_call_sequence(size);
        assert_eq!(sorted_names(&seq), sorted_names(&pool));
        for call in &seq {
            assert!(pool.iter().any(|p| p == call));
        }
    }
}

#[test]
fn bank_scenario_sequence() {
    let mut w = bank_worker(1);
    let n = w.next_sequence_size();
    assert!((1..=2).contains(&n));
    let first = w.generate_call_sequence(1);
    assert_eq!(first.len(), 3);
    let again = bank_worker(1).generate_call_sequence(1);
    assert_eq!(sorted_names(&first), sorted_names(&again));
    assert_eq!(sorted_names(&first), vec!["deposit", "deposit", "fuzz_withdraw"]);
}

#[test]
fn bank_scenario_crash_reported_once() {
    let mut w = bank_worker(1);
    let module = "bank".to_string();
    let deposit = Value::Function("deposit".to_string(), vec![Value::U64(0)], None);
    let first = w.observe_failure(&module, &deposit, vec![Value::U64(7)], overflow());
    assert_eq!(
        first,
        Some(WorkerEvent::NewCrash("deposit".to_string(), vec![Value::U64(7)], overflow()))
    );
    let second = w.observe_failure(&module, &deposit, vec![Value::U64(7)], overflow());
    assert_eq!(second, None);
}

#[test]
fn differently_shaped_input_is_a_new_crash() {
    let mut w = bank_worker(1);
    let module = "bank".to_string();
    let deposit = Value::Function("deposit".to_string(), vec![Value::U64(0)], None);
    assert!(w.observe_failure(&module, &deposit, vec![Value::U64(7)], overflow()).is_some());
    assert!(w.observe_failure(&module, &deposit, vec![Value::U64(7)], overflow()).is_none());
    assert!(w.observe_failure(&module, &deposit, vec![Value::U64(8)], overflow()).is_some());
    assert!(w.observe_failure(&module, &deposit, vec![Value::U32(7)], overflow()).is_some());
    let other_error = Error::Unknown { message: "abort".to_string() };
    assert!(w.observe_failure(&module, &deposit, vec![Value::U64(7)], other_error).is_some());
    let withdraw = Value::Function("withdraw".to_string(), vec![], None);
    assert!(w.observe_failure(&module, &withdraw, vec![Value::U64(7)], overflow()).is_some());
    assert!(w.observe_failure(&"vault".to_string(), &deposit, vec![Value::U64(7)], overflow()).is_some());
}

#[test]
fn inputs_of_a_call_are_mutated_params() {
    let mut w = bank_worker(3);
    let f = Value::Function(
        "deposit".to_string(),
        vec![Value::U64(123456), Value::Bool(true)],
        None,
    );
    assert!(is_callable(&f));
    assert_eq!(MUTATIONS_PER_CALL, 4);
    let inputs = w.prepare_inputs(&f, Some(9));
    assert_eq!(inputs, vec![Value::U64(456), Value::Bool(true)]);
}

#[test]
fn callable_needs_mutable_params() {
    assert!(is_callable(&Value::Function("f".to_string(), vec![], None)));
    assert!(!is_callable(&Value::Function("f".to_string(), vec![Value::Address([0; 32])], None)));
    assert!(!is_callable(&Value::U8(0)));
}

#[test]
fn crash_set_by_signature() {
    let mut set = CrashSet::new();
    let c = Crash::new(&"m".to_string(), &"f".to_string(), &vec![Value::U8(1)], &overflow());
    let d = Crash::new(&"m".to_string(), &"f".to_string(), &vec![Value::U8(1)], &overflow());
    assert!(c.same_as(&d));
    assert!(!set.contains(&d));
    assert!(set.insert(c));
    assert!(set.contains(&d));
    assert!(!set.insert(d));
    assert_eq!(set.len(), 1);
    assert_eq!(overflow().message(), "overflow".to_string());
}

#[test]
fn outcome_step_records_gas_or_crash() {
    let mut w = bank_worker(1);
    let mut stats = move_fuzzer::stats::Stats::new();
    let module = "bank".to_string();
    let deposit = Value::Function("deposit".to_string(), vec![Value::U64(0)], None);
    assert_eq!(w.record_outcome(&mut stats, &module, &deposit, vec![Value::U64(1)], Ok(30)), None);
    assert_eq!(stats.get_max_gas(&deposit), 30);
    assert_eq!(stats.crashes, 0);
    let first = w.record_outcome(&mut stats, &module, &deposit, vec![Value::U64(7)], Err(overflow()));
    assert_eq!(
        first,
        Some(WorkerEvent::NewCrash("deposit".to_string(), vec![Value::U64(7)], overflow()))
    );
    let again = w.record_outcome(&mut stats, &module, &deposit, vec![Value::U64(7)], Err(overflow()));
    assert_eq!(again, None);
    assert_eq!((stats.crashes, stats.unique_crashes), (2, 1));
    assert_eq!(stats.get_max_gas(&deposit), 30);
}
