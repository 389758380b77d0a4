use input_fold::{log_le, log_order, FetchedEvent, LogMeta};
use std::sync::Arc;

fn meta(block_number: u64, log_index: u64) -> LogMeta {
    LogMeta { block_hash: [0; 32], block_number, transaction_hash: [0; 32], log_index }
}

fn event(block_number: u64, log_index: u64) -> FetchedEvent {
    FetchedEvent {
        sender: Arc::new([1; 20]),
        dapp: Arc::new([2; 20]),
        meta: meta(block_number, log_index),
        queried_block: None,
        blob_response: None,
    }
}

#[test]
fn log_order_goes_by_block_then_by_index() {
    assert!(log_le(&meta(1, 9), &meta(2, 0)));
    assert!(!log_le(&meta(2, 0), &meta(1, 9)));
    assert!(log_le(&meta(3, 4), &meta(3, 5)));
    assert!(!log_le(&meta(3, 5), &meta(3, 4)));
    assert!(log_le(&meta(3, 4), &meta(3, 4)));
    assert!(log_le(&meta(0, 0), &meta(u64::MAX, u64::MAX)));
    assert!(!log_le(&meta(u64::MAX, 0), &meta(0, u64::MAX)));
}

#[test]
fn log_order_of_nothing_and_of_one() {
    assert_eq!(log_order(&vec![]), Vec::<usize>::new());
    assert_eq!(log_order(&vec![event(5, 5)]), vec![0]);
}

#[test]
fn log_order_leaves_an_ordered_listing() {
    let events = vec![event(1, 0), event(1, 1), event(2, 0), event(2, 7), event(9, 3)];
    assert_eq!(log_order(&events), vec![0, 1, 2, 3, 4]);
}

#[test]
fn log_order_sorts_a_reversed_listing() {
    let events = vec![event(9, 3), event(2, 7), event(2, 0), event(1, 1), event(1, 0)];
    assert_eq!(log_order(&events), vec![4, 3, 2, 1, 0]);
}

#[test]
fn log_order_sorts_a_mixed_listing() {
    let events = vec![event(2, 1), event(1, 5), event(3, 0), event(1, 2), event(2, 0)];
    assert_eq!(log_order(&events), vec![3, 1, 4, 0, 2]);
}

#[test]
fn log_order_keeps_equal_places_as_listed() {
    let events = vec![event(1, 1), event(1, 0), event(1, 1), event(1, 0), event(1, 1)];
    assert_eq!(log_order(&events), vec![1, 3, 0, 2, 4]);
}
