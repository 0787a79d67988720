use std::collections::HashMap;
use synacor::ackermann::{ack, search_register_7};
use synacor::u15::U15;

fn run(a: u16, b: u16, r7: u16) -> u16 {
    let mut memory = HashMap::new();
    ack(U15::new(a), U15::new(b), U15::new(r7), &mut memory).to_u16()
}

#[test]
fn first_rows() {
    assert_eq!(run(0, 5, 1), 6);
    assert_eq!(run(0, 32767, 1), 0);
    assert_eq!(run(1, 100, 7), 108);
    assert_eq!(run(1, 0, 32767), 0);
}

#[test]
fn deeper_values() {
    assert_eq!(run(2, 3, 1), 9);
    assert_eq!(run(2, 0, 5), 11);
    assert_eq!(run(3, 2, 1), 29);
    assert_eq!(run(2, 10, 3), 47);
    assert_eq!(run(3, 5, 3), 21843);
}

#[test]
fn memo_table_is_reused() {
    let mut memory = HashMap::new();
    let first = ack(U15::new(2), U15::new(10), U15::new(3), &mut memory);
    assert!(!memory.is_empty());
    let again = ack(U15::new(2), U15::new(10), U15::new(3), &mut memory);
    assert_eq!(first, again);
    let other = ack(U15::new(2), U15::new(3), U15::new(3), &mut memory);
    assert_eq!(other.to_u16(), run(2, 3, 3));
}

#[test]
fn base_case_and_fresh_tables() {
    let mut m = HashMap::new();
    assert_eq!(ack(U15::new(0), U15::new(32767), U15::new(3), &mut m), U15::new(0));
    assert!(m.is_empty());
    assert_eq!(run(2, 0, 3), 7);
    assert_eq!(run(1, 0, 3), 4);
}

#[test]
fn stored_results_are_returned_as_they_are() {
    let mut m = HashMap::new();
    m.insert(32768u32 + 5, U15::new(1234));
    assert_eq!(ack(U15::new(1), U15::new(5), U15::new(0), &mut m), U15::new(1234));
    assert_eq!(m.len(), 1);
}

#[test]
fn evaluation_stores_each_recursive_result() {
    let mut m = HashMap::new();
    assert_eq!(ack(U15::new(1), U15::new(1), U15::new(0), &mut m), U15::new(2));
    // f(1, 0) = f(0, 0) = 1 and f(0, 1) = 2 are stored under their keys.
    assert_eq!(m.len(), 3);
    assert_eq!(m.get(&32768u32), Some(&U15::new(1)));
    assert_eq!(m.get(&0u32), Some(&U15::new(1)));
    assert_eq!(m.get(&1u32), Some(&U15::new(2)));
}

#[test]
fn search_finds_the_first_register_value() {
    let (trials, found) = search_register_7(U15::new(1), U15::new(0), U15::new(6));
    assert_eq!(found, Some(U15::new(5)));
    let expected: Vec<(U15, U15)> = (1..5u16).map(|r| (U15::new(r), U15::new(r + 1))).collect();
    assert_eq!(trials, expected);
}

#[test]
fn search_succeeds_on_the_first_trial() {
    let (trials, found) = search_register_7(U15::new(0), U15::new(5), U15::new(6));
    assert_eq!(found, Some(U15::new(1)));
    assert!(trials.is_empty());
}

#[test]
fn search_without_an_answer_tries_every_value() {
    let (trials, found) = search_register_7(U15::new(0), U15::new(5), U15::new(7));
    assert_eq!(found, None);
    assert_eq!(trials.len(), 32768);
    assert_eq!(trials[0], (U15::new(1), U15::new(6)));
    assert_eq!(trials[32767], (U15::new(0), U15::new(6)));
}
