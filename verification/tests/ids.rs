use std::collections::HashSet;
use std::time::{SystemTime, UNIX_EPOCH};

use engram_mcp::ids::{to_base36, IdGenerator};

fn now_millis() -> i64 {
    SystemTime::now()
        .duration_since(UNIX_EPOCH)
        .unwrap()
        .as_millis() as i64
}

#[test]
fn unique_id_returns_unique_ids_for_consecutive_calls() {
    let mut generator = IdGenerator::new();
    let mut ids = HashSet::new();

    for _ in 0..100 {
        ids.insert(generator.unique_id(now_millis()));
    }

    assert_eq!(ids.len(), 100);
}

#[test]
fn unique_id_moves_past_a_clock_that_stands_still_or_goes_back() {
    let mut generator = IdGenerator::new();

    assert_eq!(generator.unique_id(36), "10");
    assert_eq!(generator.unique_id(36), "11");
    assert_eq!(generator.unique_id(5), "12");
    assert_eq!(generator.unique_id(-7), "13");
    assert_eq!(generator.unique_id(1000), "rs");
}

#[test]
fn first_id_of_a_fresh_generator_is_at_least_one() {
    let mut generator = IdGenerator::new();

    assert_eq!(generator.unique_id(-5), "1");
    assert!(generator.has_next());
}

#[test]
fn base36_renders_digits_and_letters() {
    assert_eq!(to_base36(0), "0");
    assert_eq!(to_base36(9), "9");
    assert_eq!(to_base36(10), "a");
    assert_eq!(to_base36(35), "z");
    assert_eq!(to_base36(36), "10");
    assert_eq!(to_base36(1_679_615), "zzzz");
    assert_eq!(to_base36(-1), "");
    assert_eq!(to_base36(1_774_795_501_000), "mnbvf0zs");
}
