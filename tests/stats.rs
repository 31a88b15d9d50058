use move_fuzzer::stats::{GasTable, Stats};
use move_fuzzer::value::Value;

fn function(name: &str) -> Value {
    Value::Function(name.to_string(), vec![Value::U64(0)], None)
}

#[test]
fn new_session_starts_at_zero() {
    let s = Stats::new();
    assert_eq!(
        (s.crashes, s.unique_crashes, s.execs, s.time_running, s.execs_per_sec, s.coverage_size, s.secs_since_last_cov),
        (0, 0, 0, 0, 0, 0, 0)
    );
    assert_eq!(s.get_max_gas(&function("deposit")), 0);
}

#[test]
fn max_gas_only_grows() {
    let mut s = Stats::new();
    let f = function("deposit");
    let mut prev = 0;
    for gas in [10u64, 5, 10, 20, 0, 19, 21] {
        s.update_gas_usage(&f, gas);
        let now = s.get_max_gas(&f);
        assert_eq!(now, gas.max(prev));
        assert!(now >= prev);
        prev = now;
    }
    assert_eq!(prev, 21);
}

#[test]
fn gas_is_kept_per_function_name() {
    let mut s = Stats::new();
    s.update_gas_usage(&function("a"), 7);
    s.update_gas_usage(&function("b"), 3);
    s.update_gas_usage(&Value::Function("a".to_string(), vec![], Some(vec![Value::Bool(false)])), 1);
    assert_eq!(s.get_max_gas(&function("a")), 7);
    assert_eq!(s.get_max_gas(&function("b")), 3);
    assert_eq!(s.get_max_gas(&function("c")), 0);
}

#[test]
fn recording_zero_gas_is_read_back_as_zero() {
    let mut s = Stats::new();
    s.update_gas_usage(&function("z"), 0);
    assert_eq!(s.get_max_gas(&function("z")), 0);
}

#[test]
fn gas_table_lookup() {
    let mut t = GasTable::new();
    let name = "withdraw".to_string();
    assert_eq!(t.lookup(&name), 0);
    t.record(&name, 4);
    t.record(&name, 2);
    assert_eq!(t.lookup(&name), 4);
}

#[test]
fn throughput_counters() {
    let mut s = Stats::new();
    for _ in 0..7 {
        s.record_execution();
    }
    assert_eq!(s.execs, 7);
    s.record_second(2);
    assert_eq!(s.execs_per_sec, 3);
    assert_eq!(s.secs_since_last_cov, 1);
    s.record_second(7);
    assert_eq!(s.execs_per_sec, 1);
    assert_eq!(s.secs_since_last_cov, 2);
}

#[test]
fn crash_counters() {
    let mut s = Stats::new();
    s.record_crash(true);
    s.record_crash(false);
    s.record_crash(false);
    assert_eq!(s.crashes, 3);
    assert_eq!(s.unique_crashes, 1);
}
