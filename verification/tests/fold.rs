use eth_state_fold_types::ethereum_types::{Bloom as Summary, BloomInput};
use input_fold::bloom::{address_topic, contains_address, contains_topic};
use input_fold::fold::{
    fetch_all_new_inputs, input_added_query, meta_consistent_with_block, updated_inputs,
};
use input_fold::{
    Address, Block, Bloom, EnrichmentError, EventQuery, FetchedEvent, FoldableError, Input,
    InputBox, QueryScope, InputBoxInitialState, IntegrityError, LogMeta, QueryError, H256,
};
use std::sync::Arc;

const INPUT_BOX: Address = [0xB0; 20];
const DAPP: Address = [0xDA; 20];
const OTHER_DAPP: Address = [0x0D; 20];
const SENDER: Address = [0x5E; 20];
const SIGNATURE: H256 = [0x51; 32];

fn topic_of(address: &Address) -> H256 {
    let mut topic = [0u8; 32];
    topic[12..].copy_from_slice(address);
    topic
}

fn summary_of(addresses: &[Address], topics: &[H256]) -> Bloom {
    let mut summary = Summary::default();
    for a in addresses {
        summary.accrue(BloomInput::Raw(a));
    }
    for t in topics {
        summary.accrue(BloomInput::Raw(t));
    }
    summary.0
}

fn matching_summary() -> Bloom {
    summary_of(&[INPUT_BOX], &[topic_of(&DAPP), SIGNATURE])
}

fn block(number: u64, logs_bloom: Bloom) -> Block {
    let mut hash = [0u8; 32];
    hash[..8].copy_from_slice(&number.to_be_bytes());
    hash[31] = 0xB1;
    Block { hash, number, parent_hash: [0; 32], timestamp: [1_700_000_000 + number, 0, 0, 0], logs_bloom }
}

fn body(blob: &str) -> String {
    format!("{{\"data\":[{{\"blob\":\"{}\"}}]}}", blob)
}

fn event_in(block: &Block, dapp: Address, log_index: u64, blob: &str) -> FetchedEvent {
    FetchedEvent {
        sender: Arc::new(SENDER),
        dapp: Arc::new(dapp),
        meta: LogMeta {
            block_hash: block.hash,
            block_number: block.number,
            transaction_hash: [log_index as u8; 32],
            log_index,
        },
        queried_block: Some(*block),
        blob_response: Some(body(blob)),
    }
}

fn initial() -> InputBoxInitialState {
    InputBoxInitialState { dapp_address: Arc::new(DAPP), input_box_address: Arc::new(INPUT_BOX) }
}

fn payloads(state: &InputBox, dapp: &Address) -> Vec<Vec<u8>> {
    match state.dapp_input_boxes.get(dapp) {
        Some(list) => list.inputs.iter().map(|i| i.payload.clone()).collect(),
        None => vec![],
    }
}

fn empty_state() -> InputBox {
    InputBox::sync(&initial(), &block(0, [0; 256]), &Some(vec![])).unwrap()
}

#[test]
fn summary_admits_what_was_put_in() {
    let summary = matching_summary();
    assert!(contains_address(&summary, &INPUT_BOX));
    assert!(contains_topic(&summary, &address_topic(&DAPP)));
    assert!(contains_topic(&summary, &SIGNATURE));
}

#[test]
fn empty_summary_admits_nothing() {
    let summary: Bloom = [0; 256];
    assert!(!contains_address(&summary, &INPUT_BOX));
    assert!(!contains_topic(&summary, &address_topic(&DAPP)));
    assert!(!contains_topic(&summary, &SIGNATURE));
}

#[test]
fn full_summary_admits_everything() {
    let summary: Bloom = [0xFF; 256];
    assert!(contains_address(&summary, &INPUT_BOX));
    assert!(contains_topic(&summary, &[0; 32]));
}

#[test]
fn summary_goes_by_the_input() {
    let summary = summary_of(&[INPUT_BOX], &[]);
    assert!(contains_address(&summary, &INPUT_BOX));
    assert!(!contains_address(&summary, &DAPP));
    assert!(!contains_topic(&summary, &address_topic(&INPUT_BOX)));
}

#[test]
fn topic_of_an_address_is_padded_in_front() {
    let address: Address = [
        1, 2, 3, 4, 5, 6, 7, 8, 9, 10, 11, 12, 13, 14, 15, 16, 17, 18, 19, 20,
    ];
    let topic = address_topic(&address);
    assert_eq!(&topic[..12], &[0u8; 12]);
    assert_eq!(&topic[12..], &address);
    assert_eq!(topic, topic_of(&address));
}

#[test]
fn may_hold_inputs_needs_all_three() {
    let state = empty_state();
    assert!(state.may_hold_inputs(&block(1, matching_summary()), &SIGNATURE));
    let no_contract = summary_of(&[], &[topic_of(&DAPP), SIGNATURE]);
    assert!(!state.may_hold_inputs(&block(1, no_contract), &SIGNATURE));
    let no_dapp = summary_of(&[INPUT_BOX], &[SIGNATURE]);
    assert!(!state.may_hold_inputs(&block(1, no_dapp), &SIGNATURE));
    let no_event = summary_of(&[INPUT_BOX], &[topic_of(&DAPP)]);
    assert!(!state.may_hold_inputs(&block(1, no_event), &SIGNATURE));
    let dapp_as_address = summary_of(&[INPUT_BOX, DAPP], &[SIGNATURE]);
    assert!(!state.may_hold_inputs(&block(1, dapp_as_address), &SIGNATURE));
}

#[test]
fn meta_and_block_agree() {
    let b = block(5, [0; 256]);
    let meta = LogMeta { block_hash: b.hash, block_number: 5, transaction_hash: [1; 32], log_index: 0 };
    assert_eq!(meta_consistent_with_block(&meta, &b), Ok(()));
}

#[test]
fn meta_with_another_hash_is_refused() {
    let b = block(5, [0; 256]);
    let mut other = b.hash;
    other[0] ^= 1;
    let meta = LogMeta { block_hash: other, block_number: 5, transaction_hash: [1; 32], log_index: 0 };
    assert_eq!(
        meta_consistent_with_block(&meta, &b),
        Err(IntegrityError::BlockHash { meta_hash: other, block_hash: b.hash })
    );
}

#[test]
fn meta_with_another_number_is_refused() {
    let b = block(5, [0; 256]);
    let meta = LogMeta { block_hash: b.hash, block_number: 6, transaction_hash: [1; 32], log_index: 0 };
    assert_eq!(
        meta_consistent_with_block(&meta, &b),
        Err(IntegrityError::BlockNumber { meta_number: 6, block_number: 5 })
    );
}

#[test]
fn meta_with_another_hash_and_number_is_refused_for_the_hash() {
    let b = block(5, [0; 256]);
    let meta = LogMeta { block_hash: [9; 32], block_number: 6, transaction_hash: [1; 32], log_index: 0 };
    assert_eq!(
        meta_consistent_with_block(&meta, &b),
        Err(IntegrityError::BlockHash { meta_hash: [9; 32], block_hash: b.hash })
    );
}

#[test]
fn build_input_assembles_the_record() {
    let b = block(42, [0; 256]);
    let fetched = event_in(&b, DAPP, 3, "0xdeadbeef");
    let input = Input::build_input(&fetched, &None).unwrap();
    assert_eq!(*input.sender, SENDER);
    assert_eq!(*input.dapp, DAPP);
    assert_eq!(input.payload, vec![0xDE, 0xAD, 0xBE, 0xEF]);
    assert_eq!(*input.tx_hash, [3; 32]);
    assert_eq!(input.block_added.hash, b.hash);
    assert_eq!(input.block_added.number, 42);
    assert_eq!(input.block_added.parent_hash, b.parent_hash);
    assert_eq!(input.block_added.timestamp, b.timestamp);
    assert_eq!(input.block_added.logs_bloom, b.logs_bloom);
}

#[test]
fn build_input_uses_the_block_in_hand() {
    let in_hand = block(42, [0; 256]);
    let mut fetched = event_in(&in_hand, DAPP, 0, "0x01");
    fetched.queried_block = None;
    let input = Input::build_input(&fetched, &Some(in_hand)).unwrap();
    assert_eq!(input.block_added.number, 42);
    fetched.queried_block = Some(block(43, [0; 256]));
    let input = Input::build_input(&fetched, &Some(in_hand)).unwrap();
    assert_eq!(input.block_added.number, 42);
}

#[test]
fn build_input_without_a_block_is_a_query_error() {
    let b = block(42, [0; 256]);
    let mut fetched = event_in(&b, DAPP, 0, "0x01");
    fetched.queried_block = None;
    assert_eq!(
        Input::build_input(&fetched, &None).unwrap_err(),
        FoldableError::Query(QueryError::Block { hash: b.hash })
    );
}

#[test]
fn build_input_checks_the_block_against_the_metadata() {
    let b = block(42, [0; 256]);
    let mut fetched = event_in(&b, DAPP, 0, "0xdeadbeef");
    let mut other = b;
    other.hash[5] = 0x77;
    fetched.queried_block = Some(other);
    assert_eq!(
        Input::build_input(&fetched, &None).unwrap_err(),
        FoldableError::Integrity(IntegrityError::BlockHash { meta_hash: b.hash, block_hash: other.hash })
    );
    assert_eq!(
        Input::build_input(&fetched, &Some(other)).unwrap_err(),
        FoldableError::Integrity(IntegrityError::BlockHash { meta_hash: b.hash, block_hash: other.hash })
    );
    let mut renumbered = b;
    renumbered.number = 41;
    assert_eq!(
        Input::build_input(&fetched, &Some(renumbered)).unwrap_err(),
        FoldableError::Integrity(IntegrityError::BlockNumber { meta_number: 42, block_number: 41 })
    );
}

#[test]
fn build_input_checks_the_block_before_the_payload() {
    let b = block(42, [0; 256]);
    let mut fetched = event_in(&b, DAPP, 0, "0xdeadbeef");
    fetched.blob_response = None;
    fetched.meta.block_number = 7;
    assert_eq!(
        Input::build_input(&fetched, &None).unwrap_err(),
        FoldableError::Integrity(IntegrityError::BlockNumber { meta_number: 7, block_number: 42 })
    );
}

#[test]
fn build_input_without_a_payload_is_an_enrichment_error() {
    let b = block(42, [0; 256]);
    let mut fetched = event_in(&b, DAPP, 0, "0xdeadbeef");
    fetched.blob_response = None;
    assert_eq!(
        Input::build_input(&fetched, &None).unwrap_err(),
        FoldableError::Enrichment { block_number: 42, cause: EnrichmentError::Retrieval }
    );
    fetched.blob_response = Some("<html>".to_string());
    assert_eq!(
        Input::build_input(&fetched, &None).unwrap_err(),
        FoldableError::Enrichment { block_number: 42, cause: EnrichmentError::MalformedJson }
    );
    fetched.blob_response = Some("{\"data\":[]}".to_string());
    assert_eq!(
        Input::build_input(&fetched, &None).unwrap_err(),
        FoldableError::Enrichment { block_number: 42, cause: EnrichmentError::MissingBlob }
    );
    fetched.blob_response = Some(body("beef"));
    assert_eq!(
        Input::build_input(&fetched, &None).unwrap_err(),
        FoldableError::Enrichment { block_number: 42, cause: EnrichmentError::MissingPrefix }
    );
    fetched.blob_response = Some(body("0xbee"));
    assert_eq!(
        Input::build_input(&fetched, &None).unwrap_err(),
        FoldableError::Enrichment { block_number: 42, cause: EnrichmentError::InvalidHex }
    );
}

#[test]
fn fetch_all_new_inputs_keeps_the_order() {
    let b = block(3, [0; 256]);
    let logs = Some(vec![
        event_in(&b, DAPP, 0, "0x00"),
        event_in(&b, OTHER_DAPP, 1, "0x01"),
        event_in(&b, DAPP, 2, "0x02"),
    ]);
    let inputs = fetch_all_new_inputs(&logs, &INPUT_BOX, &DAPP, &None).unwrap();
    assert_eq!(inputs.len(), 3);
    assert_eq!(inputs[0].payload, vec![0]);
    assert_eq!(inputs[1].payload, vec![1]);
    assert_eq!(inputs[2].payload, vec![2]);
    assert_eq!(*inputs[1].dapp, OTHER_DAPP);
}

#[test]
fn fetch_all_new_inputs_of_no_events() {
    let inputs = fetch_all_new_inputs(&Some(vec![]), &INPUT_BOX, &DAPP, &None).unwrap();
    assert!(inputs.is_empty());
}

#[test]
fn fetch_all_new_inputs_without_an_answer_is_a_query_error() {
    assert_eq!(
        fetch_all_new_inputs(&None, &INPUT_BOX, &DAPP, &None).unwrap_err(),
        FoldableError::Query(QueryError::Logs { contract: INPUT_BOX, dapp: DAPP })
    );
}

#[test]
fn fetch_all_new_inputs_fails_with_the_first_failure() {
    let b = block(3, [0; 256]);
    let mut second = event_in(&b, DAPP, 1, "0x01");
    second.blob_response = None;
    let mut third = event_in(&b, DAPP, 2, "0x02");
    third.meta.block_number = 4;
    let logs = Some(vec![event_in(&b, DAPP, 0, "0x00"), second, third]);
    assert_eq!(
        fetch_all_new_inputs(&logs, &INPUT_BOX, &DAPP, &None).unwrap_err(),
        FoldableError::Enrichment { block_number: 3, cause: EnrichmentError::Retrieval }
    );
}

#[test]
fn updated_inputs_starts_from_nothing_or_from_the_previous_store() {
    let b = block(3, [0; 256]);
    let first = updated_inputs(None, &Some(vec![event_in(&b, DAPP, 0, "0x0a")]), &INPUT_BOX, &DAPP, &None)
        .unwrap();
    assert_eq!(first.len(), 1);
    let second = updated_inputs(
        Some(&*first),
        &Some(vec![event_in(&b, DAPP, 1, "0x0b"), event_in(&b, OTHER_DAPP, 2, "0x0c")]),
        &INPUT_BOX,
        &DAPP,
        &None,
    )
    .unwrap();
    assert_eq!(second.len(), 2);
    assert_eq!(second.get(&DAPP).unwrap().inputs.len(), 2);
    assert_eq!(second.get(&OTHER_DAPP).unwrap().inputs.len(), 1);
    assert_eq!(first.get(&DAPP).unwrap().inputs.len(), 1);
    assert!(first.get(&OTHER_DAPP).is_none());
}

#[test]
fn sync_builds_the_lists_from_the_history() {
    let b1 = block(1, matching_summary());
    let b2 = block(2, matching_summary());
    let logs = Some(vec![
        event_in(&b1, DAPP, 0, "0x11"),
        event_in(&b1, DAPP, 1, "0x12"),
        event_in(&b2, DAPP, 0, "0x21"),
    ]);
    let state = InputBox::sync(&initial(), &b2, &logs).unwrap();
    assert_eq!(*state.dapp_address, DAPP);
    assert_eq!(*state.input_box_address, INPUT_BOX);
    assert_eq!(payloads(&state, &DAPP), vec![vec![0x11], vec![0x12], vec![0x21]]);
    let list = state.dapp_input_boxes.get(&DAPP).unwrap();
    assert_eq!(list.inputs.get(0).unwrap().block_added.number, 1);
    assert_eq!(list.inputs.get(2).unwrap().block_added.number, 2);
}

#[test]
fn sync_of_an_empty_history_has_no_lists() {
    let state = empty_state();
    assert_eq!(state.dapp_input_boxes.len(), 0);
}

#[test]
fn sync_fails_where_the_provider_cannot_answer() {
    let b = block(1, [0; 256]);
    assert_eq!(
        InputBox::sync(&initial(), &b, &None).unwrap_err(),
        FoldableError::Query(QueryError::Logs { contract: INPUT_BOX, dapp: DAPP })
    );
    let mut no_block = event_in(&b, DAPP, 0, "0x11");
    no_block.queried_block = None;
    assert_eq!(
        InputBox::sync(&initial(), &b, &Some(vec![no_block])).unwrap_err(),
        FoldableError::Query(QueryError::Block { hash: b.hash })
    );
}

#[test]
fn sync_fails_where_one_event_fails() {
    let b = block(1, [0; 256]);
    let logs = Some(vec![event_in(&b, DAPP, 0, "0x11"), event_in(&b, DAPP, 1, "0x1")]);
    assert_eq!(
        InputBox::sync(&initial(), &b, &logs).unwrap_err(),
        FoldableError::Enrichment { block_number: 1, cause: EnrichmentError::InvalidHex }
    );
}

#[test]
fn fold_appends_the_inputs_of_the_block() {
    let b1 = block(1, matching_summary());
    let b2 = block(2, matching_summary());
    let s0 = empty_state();
    let s1 = InputBox::fold(&s0, &b1, &SIGNATURE, &Some(vec![event_in(&b1, DAPP, 0, "0x11")])).unwrap();
    let s2 = InputBox::fold(
        &s1,
        &b2,
        &SIGNATURE,
        &Some(vec![event_in(&b2, DAPP, 0, "0x21"), event_in(&b2, DAPP, 1, "0x22")]),
    )
    .unwrap();
    assert_eq!(payloads(&s0, &DAPP), Vec::<Vec<u8>>::new());
    assert_eq!(payloads(&s1, &DAPP), vec![vec![0x11]]);
    assert_eq!(payloads(&s2, &DAPP), vec![vec![0x11], vec![0x21], vec![0x22]]);
    assert_eq!(*s2.dapp_address, DAPP);
    assert_eq!(*s2.input_box_address, INPUT_BOX);
}

#[test]
fn fold_keeps_the_order_when_applications_interleave() {
    let b1 = block(1, matching_summary());
    let b2 = block(2, matching_summary());
    let s1 = InputBox::fold(
        &empty_state(),
        &b1,
        &SIGNATURE,
        &Some(vec![
            event_in(&b1, DAPP, 0, "0xa1"),
            event_in(&b1, OTHER_DAPP, 1, "0xb1"),
            event_in(&b1, DAPP, 2, "0xa2"),
        ]),
    )
    .unwrap();
    let s2 = InputBox::fold(
        &s1,
        &b2,
        &SIGNATURE,
        &Some(vec![
            event_in(&b2, OTHER_DAPP, 0, "0xb2"),
            event_in(&b2, DAPP, 1, "0xa3"),
            event_in(&b2, OTHER_DAPP, 2, "0xb3"),
        ]),
    )
    .unwrap();
    assert_eq!(payloads(&s2, &DAPP), vec![vec![0xA1], vec![0xA2], vec![0xA3]]);
    assert_eq!(payloads(&s2, &OTHER_DAPP), vec![vec![0xB1], vec![0xB2], vec![0xB3]]);
}

#[test]
fn fold_uses_the_block_it_is_given() {
    let b1 = block(1, matching_summary());
    let mut fetched = event_in(&b1, DAPP, 0, "0x11");
    fetched.queried_block = None;
    let s1 = InputBox::fold(&empty_state(), &b1, &SIGNATURE, &Some(vec![fetched])).unwrap();
    let list = s1.dapp_input_boxes.get(&DAPP).unwrap();
    assert_eq!(list.inputs.get(0).unwrap().block_added.hash, b1.hash);
}

#[test]
fn fold_of_an_irrelevant_block_returns_the_state_unchanged() {
    let b1 = block(1, matching_summary());
    let s1 = InputBox::fold(&empty_state(), &b1, &SIGNATURE, &Some(vec![event_in(&b1, DAPP, 0, "0x11")]))
        .unwrap();
    let quiet = block(2, summary_of(&[INPUT_BOX], &[SIGNATURE]));
    let s2 = InputBox::fold(&s1, &quiet, &SIGNATURE, &Some(vec![])).unwrap();
    assert!(Arc::ptr_eq(&s1.dapp_input_boxes, &s2.dapp_input_boxes));
    assert!(Arc::ptr_eq(&s1.dapp_address, &s2.dapp_address));
    assert!(Arc::ptr_eq(&s1.input_box_address, &s2.input_box_address));
    assert_eq!(payloads(&s2, &DAPP), vec![vec![0x11]]);
}

#[test]
fn fold_of_an_irrelevant_block_makes_no_use_of_the_query() {
    let s1 = empty_state();
    let quiet = block(2, [0; 256]);
    let s2 = InputBox::fold(&s1, &quiet, &SIGNATURE, &None).unwrap();
    assert!(Arc::ptr_eq(&s1.dapp_input_boxes, &s2.dapp_input_boxes));
    let stray = event_in(&block(9, [0; 256]), DAPP, 0, "0xzz");
    let s3 = InputBox::fold(&s1, &quiet, &SIGNATURE, &Some(vec![stray])).unwrap();
    assert_eq!(s3.dapp_input_boxes.len(), 0);
}

#[test]
fn fold_goes_by_the_signature_it_is_given() {
    let b1 = block(1, matching_summary());
    let logs = Some(vec![event_in(&b1, DAPP, 0, "0x11")]);
    let other_signature: H256 = [0x52; 32];
    let s1 = InputBox::fold(&empty_state(), &b1, &other_signature, &logs).unwrap();
    assert_eq!(s1.dapp_input_boxes.len(), 0);
    let s1 = InputBox::fold(&empty_state(), &b1, &SIGNATURE, &logs).unwrap();
    assert_eq!(s1.dapp_input_boxes.len(), 1);
}

#[test]
fn fold_fails_where_the_provider_cannot_answer() {
    let b1 = block(1, matching_summary());
    assert_eq!(
        InputBox::fold(&empty_state(), &b1, &SIGNATURE, &None).unwrap_err(),
        FoldableError::Query(QueryError::Logs { contract: INPUT_BOX, dapp: DAPP })
    );
}

#[test]
fn fold_is_all_or_nothing() {
    let b1 = block(1, matching_summary());
    let b2 = block(2, matching_summary());
    let s1 = InputBox::fold(&empty_state(), &b1, &SIGNATURE, &Some(vec![event_in(&b1, DAPP, 0, "0x11")]))
        .unwrap();
    let mut broken = event_in(&b2, DAPP, 1, "0x22");
    broken.blob_response = Some("{\"data\":[{\"blob\":\"0xnothex\"}]}".to_string());
    let logs = Some(vec![event_in(&b2, DAPP, 0, "0x21"), broken, event_in(&b2, DAPP, 2, "0x23")]);
    assert_eq!(
        InputBox::fold(&s1, &b2, &SIGNATURE, &logs).unwrap_err(),
        FoldableError::Enrichment { block_number: 2, cause: EnrichmentError::InvalidHex }
    );
    assert_eq!(payloads(&s1, &DAPP), vec![vec![0x11]]);
    assert_eq!(s1.dapp_input_boxes.len(), 1);
}

#[test]
fn fold_refuses_an_event_of_another_block() {
    let b1 = block(1, matching_summary());
    let b2 = block(2, matching_summary());
    let logs = Some(vec![event_in(&b1, DAPP, 0, "0x11")]);
    assert_eq!(
        InputBox::fold(&empty_state(), &b2, &SIGNATURE, &logs).unwrap_err(),
        FoldableError::Integrity(IntegrityError::BlockHash { meta_hash: b1.hash, block_hash: b2.hash })
    );
}

#[test]
fn sync_then_fold_is_sync_of_the_whole() {
    let b1 = block(1, matching_summary());
    let b2 = block(2, [0; 256]);
    let b3 = block(3, matching_summary());
    let b4 = block(4, matching_summary());
    let up_to_1 = vec![event_in(&b1, DAPP, 0, "0x11"), event_in(&b1, OTHER_DAPP, 1, "0x12")];
    let in_3 = vec![event_in(&b3, DAPP, 0, "0x31")];
    let in_4 = vec![event_in(&b4, OTHER_DAPP, 0, "0x41"), event_in(&b4, DAPP, 1, "0x42")];
    let synced = InputBox::sync(&initial(), &b1, &Some(up_to_1.clone())).unwrap();
    let s2 = InputBox::fold(&synced, &b2, &SIGNATURE, &Some(vec![])).unwrap();
    let s3 = InputBox::fold(&s2, &b3, &SIGNATURE, &Some(in_3.clone())).unwrap();
    let s4 = InputBox::fold(&s3, &b4, &SIGNATURE, &Some(in_4.clone())).unwrap();
    let mut all = up_to_1;
    all.extend(in_3);
    all.extend(in_4);
    let whole = InputBox::sync(&initial(), &b4, &Some(all)).unwrap();
    assert_eq!(payloads(&s4, &DAPP), vec![vec![0x11], vec![0x31], vec![0x42]]);
    assert_eq!(payloads(&s4, &DAPP), payloads(&whole, &DAPP));
    assert_eq!(payloads(&s4, &OTHER_DAPP), payloads(&whole, &OTHER_DAPP));
    assert_eq!(s4.dapp_input_boxes.len(), whole.dapp_input_boxes.len());
    let folded = s4.dapp_input_boxes.get(&DAPP).unwrap();
    let direct = whole.dapp_input_boxes.get(&DAPP).unwrap();
    for i in 0..3 {
        let a = folded.inputs.get(i).unwrap();
        let b = direct.inputs.get(i).unwrap();
        assert_eq!(a.block_added.hash, b.block_added.hash);
        assert_eq!(a.block_added.number, b.block_added.number);
        assert_eq!(*a.tx_hash, *b.tx_hash);
        assert_eq!(*a.sender, *b.sender);
        assert_eq!(*a.dapp, *b.dapp);
    }
}

#[test]
fn clone_shares_the_lists() {
    let b1 = block(1, matching_summary());
    let s1 = InputBox::fold(&empty_state(), &b1, &SIGNATURE, &Some(vec![event_in(&b1, DAPP, 0, "0x11")]))
        .unwrap();
    let copy = s1.clone();
    assert!(Arc::ptr_eq(&s1.dapp_input_boxes, &copy.dapp_input_boxes));
    assert_eq!(payloads(&copy, &DAPP), vec![vec![0x11]]);
}

#[test]
fn query_names_contract_signature_and_application() {
    let query = input_added_query(&INPUT_BOX, &DAPP, &SIGNATURE, QueryScope::UpTo { number: 9 });
    assert_eq!(
        query,
        EventQuery {
            contract: INPUT_BOX,
            event_signature: SIGNATURE,
            dapp_topic: topic_of(&DAPP),
            scope: QueryScope::UpTo { number: 9 },
        }
    );
}

#[test]
fn sync_query_covers_the_history_up_to_the_block() {
    let b = block(77, [0; 256]);
    let query = InputBox::sync_query(&initial(), &b, &SIGNATURE);
    assert_eq!(query.contract, INPUT_BOX);
    assert_eq!(query.event_signature, SIGNATURE);
    assert_eq!(query.dapp_topic, topic_of(&DAPP));
    assert_eq!(query.scope, QueryScope::UpTo { number: 77 });
}

#[test]
fn fold_query_covers_the_block_alone() {
    let b = block(5, matching_summary());
    let query = empty_state().fold_query(&b, &SIGNATURE).unwrap();
    assert_eq!(query.contract, INPUT_BOX);
    assert_eq!(query.event_signature, SIGNATURE);
    assert_eq!(query.dapp_topic, topic_of(&DAPP));
    assert_eq!(query.scope, QueryScope::Only { hash: b.hash });
}

#[test]
fn fold_query_is_none_for_an_irrelevant_block() {
    let state = empty_state();
    assert_eq!(state.fold_query(&block(5, [0; 256]), &SIGNATURE), None);
    let no_dapp = summary_of(&[INPUT_BOX], &[SIGNATURE]);
    assert_eq!(state.fold_query(&block(5, no_dapp), &SIGNATURE), None);
    assert!(state.fold_query(&block(5, [0xFF; 256]), &SIGNATURE).is_some());
}

fn event_at(block: &Block, dapp: Address, log_index: u64, blob: &str) -> FetchedEvent {
    let mut fetched = event_in(block, dapp, log_index, blob);
    fetched.meta.transaction_hash = [0x70 + log_index as u8; 32];
    fetched
}

#[test]
fn fold_orders_a_block_by_log_index_not_by_listing() {
    let b = block(1, matching_summary());
    let listed = vec![event_at(&b, DAPP, 7, "0x07"), event_at(&b, DAPP, 2, "0x02")];
    let s1 = InputBox::fold(&empty_state(), &b, &SIGNATURE, &Some(listed)).unwrap();
    assert_eq!(payloads(&s1, &DAPP), vec![vec![0x02], vec![0x07]]);
    let list = s1.dapp_input_boxes.get(&DAPP).unwrap();
    assert_eq!(*list.inputs.get(0).unwrap().tx_hash, [0x72; 32]);
    assert_eq!(*list.inputs.get(1).unwrap().tx_hash, [0x77; 32]);
}

#[test]
fn fold_gives_the_same_lists_for_any_listing() {
    let b = block(1, matching_summary());
    let in_order = vec![
        event_at(&b, DAPP, 0, "0xa1"),
        event_at(&b, OTHER_DAPP, 1, "0xb1"),
        event_at(&b, DAPP, 2, "0xa2"),
        event_at(&b, OTHER_DAPP, 3, "0xb2"),
    ];
    let shuffled = vec![
        in_order[3].clone(),
        in_order[2].clone(),
        in_order[0].clone(),
        in_order[1].clone(),
    ];
    let reversed: Vec<FetchedEvent> = in_order.iter().rev().cloned().collect();
    let expected_a = vec![vec![0xA1], vec![0xA2]];
    let expected_b = vec![vec![0xB1], vec![0xB2]];
    for listing in [in_order, shuffled, reversed] {
        let s = InputBox::fold(&empty_state(), &b, &SIGNATURE, &Some(listing)).unwrap();
        assert_eq!(payloads(&s, &DAPP), expected_a);
        assert_eq!(payloads(&s, &OTHER_DAPP), expected_b);
    }
}

#[test]
fn fold_appends_behind_what_was_there_whatever_the_listing() {
    let b1 = block(1, matching_summary());
    let b2 = block(2, matching_summary());
    let s1 = InputBox::fold(
        &empty_state(),
        &b1,
        &SIGNATURE,
        &Some(vec![event_at(&b1, DAPP, 5, "0x15"), event_at(&b1, DAPP, 9, "0x19")]),
    )
    .unwrap();
    let s2 = InputBox::fold(
        &s1,
        &b2,
        &SIGNATURE,
        &Some(vec![event_at(&b2, DAPP, 3, "0x23"), event_at(&b2, DAPP, 1, "0x21")]),
    )
    .unwrap();
    assert_eq!(payloads(&s2, &DAPP), vec![vec![0x15], vec![0x19], vec![0x21], vec![0x23]]);
}

#[test]
fn list_of_one_application_is_that_of_its_events_alone() {
    let b = block(1, matching_summary());
    let a1 = event_at(&b, DAPP, 0, "0xa1");
    let b1 = event_at(&b, OTHER_DAPP, 1, "0xb1");
    let a2 = event_at(&b, DAPP, 2, "0xa2");
    let b2 = event_at(&b, OTHER_DAPP, 3, "0xb2");
    let both = vec![b2.clone(), a2.clone(), b1.clone(), a1.clone()];
    let alone = vec![a2, a1];
    let with_both = InputBox::fold(&empty_state(), &b, &SIGNATURE, &Some(both)).unwrap();
    let with_one = InputBox::fold(&empty_state(), &b, &SIGNATURE, &Some(alone)).unwrap();
    assert_eq!(payloads(&with_both, &DAPP), vec![vec![0xA1], vec![0xA2]]);
    assert_eq!(payloads(&with_both, &DAPP), payloads(&with_one, &DAPP));
    let list = with_both.dapp_input_boxes.get(&DAPP).unwrap();
    assert!(list.inputs.iter().all(|i| *i.dapp == DAPP));
}

#[test]
fn sync_orders_by_block_then_by_log_index() {
    let b1 = block(1, [0; 256]);
    let b2 = block(2, [0; 256]);
    let b3 = block(3, [0; 256]);
    let listed = vec![
        event_at(&b3, DAPP, 0, "0x30"),
        event_at(&b1, DAPP, 4, "0x14"),
        event_at(&b2, DAPP, 9, "0x29"),
        event_at(&b1, DAPP, 1, "0x11"),
        event_at(&b2, DAPP, 0, "0x20"),
    ];
    let state = InputBox::sync(&initial(), &b3, &Some(listed)).unwrap();
    assert_eq!(
        payloads(&state, &DAPP),
        vec![vec![0x11], vec![0x14], vec![0x20], vec![0x29], vec![0x30]]
    );
}

#[test]
fn events_at_the_same_place_keep_their_listed_order() {
    let b = block(1, [0; 256]);
    let listed = vec![
        event_at(&b, DAPP, 5, "0x01"),
        event_at(&b, DAPP, 5, "0x02"),
        event_at(&b, DAPP, 4, "0x03"),
        event_at(&b, DAPP, 5, "0x04"),
    ];
    let inputs = fetch_all_new_inputs(&Some(listed), &INPUT_BOX, &DAPP, &None).unwrap();
    let got: Vec<Vec<u8>> = inputs.iter().map(|i| i.payload.clone()).collect();
    assert_eq!(got, vec![vec![0x03], vec![0x01], vec![0x02], vec![0x04]]);
}

#[test]
fn failure_is_that_of_the_first_failing_event_in_log_order() {
    let b = block(1, [0; 256]);
    let mut late = event_at(&b, DAPP, 8, "0x08");
    late.blob_response = None;
    let early = event_at(&b, DAPP, 3, "0x3");
    let listed = Some(vec![late, event_at(&b, DAPP, 5, "0x05"), early]);
    assert_eq!(
        fetch_all_new_inputs(&listed, &INPUT_BOX, &DAPP, &None).unwrap_err(),
        FoldableError::Enrichment { block_number: 1, cause: EnrichmentError::InvalidHex }
    );
}

#[test]
fn sync_then_fold_is_sync_of_the_whole_for_any_listing() {
    let b1 = block(1, matching_summary());
    let b2 = block(2, matching_summary());
    let up_to_1 = vec![event_at(&b1, DAPP, 6, "0x16"), event_at(&b1, DAPP, 2, "0x12")];
    let in_2 = vec![event_at(&b2, DAPP, 4, "0x24"), event_at(&b2, DAPP, 0, "0x20")];
    let synced = InputBox::sync(&initial(), &b1, &Some(up_to_1.clone())).unwrap();
    let folded = InputBox::fold(&synced, &b2, &SIGNATURE, &Some(in_2.clone())).unwrap();
    let mut all = in_2;
    all.extend(up_to_1);
    let whole = InputBox::sync(&initial(), &b2, &Some(all)).unwrap();
    assert_eq!(payloads(&folded, &DAPP), vec![vec![0x12], vec![0x16], vec![0x20], vec![0x24]]);
    assert_eq!(payloads(&folded, &DAPP), payloads(&whole, &DAPP));
}
