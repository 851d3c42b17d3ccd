use slingshot::digest::{address_of, view_key_of};
use slingshot::error::ConsensusError;
use slingshot::ledger::{Ledger, GENESIS_COMMITMENT, GENESIS_TX_ID, STARTING_GATES};
use slingshot::tracker::RecordTracker;
use slingshot::transaction::Output;

const KEY: u64 = 13579;
const GENESIS_TS: i64 = 500;

#[test]
fn a_loaded_ledger_holds_only_the_genesis_block() {
    let ledger = Ledger::load(KEY, GENESIS_TS);
    assert_eq!(ledger.block_count(), 1);
    assert_eq!(ledger.latest_height(), 0);
    assert_eq!(ledger.latest_round(), 0);
    assert_eq!(ledger.latest_timestamp(), GENESIS_TS);
    assert!(ledger.contains_transaction_id(GENESIS_TX_ID));
    assert!(ledger.contains_commitment(GENESIS_COMMITMENT));
    assert!(!ledger.contains_input_id(GENESIS_COMMITMENT));
    assert!(!ledger.contains_program_id(1));
    assert!(ledger.get_block(0).is_some());
    assert!(ledger.get_block(1).is_none());
}

#[test]
fn the_genesis_record_is_found_unspent() {
    let ledger = Ledger::load(KEY, GENESIS_TS);
    let records = ledger.find_unspent_records(view_key_of(KEY));
    assert_eq!(records, vec![(GENESIS_COMMITMENT, STARTING_GATES)]);
    // A stranger's view key owns nothing.
    let nothing = ledger.find_unspent_records(view_key_of(KEY + 1));
    assert!(nothing.is_empty());
}

#[test]
fn create_transfer_consumes_the_smallest_sufficient_record() {
    let ledger = Ledger::load(KEY, GENESIS_TS);
    let transfer = ledger.create_transfer(KEY, 777, 1000, 50).unwrap();
    assert_eq!(transfer.id, 50);
    assert_eq!(transfer.input_ids, vec![GENESIS_COMMITMENT]);
    assert_eq!(transfer.outputs.len(), 2);
    assert_eq!(transfer.outputs[0], Output { commitment: 51, owner: 777, gates: 1000 });
    assert_eq!(
        transfer.outputs[1],
        Output { commitment: 52, owner: address_of(KEY), gates: STARTING_GATES - 1000 },
    );
}

#[test]
fn create_transfer_without_a_sufficient_record_is_refused() {
    let ledger = Ledger::load(KEY, GENESIS_TS);
    let result = ledger.create_transfer(KEY, 777, STARTING_GATES + 1, 50);
    assert_eq!(result.err(), Some(ConsensusError::TransientResourceExhaustion));
}

#[test]
fn tracker_takes_records_in_insertion_order() {
    let mut tracker = RecordTracker::new();
    assert!(tracker.is_empty());
    tracker.restore(10, 100);
    tracker.restore(20, 200);
    tracker.restore(30, 300);
    assert_eq!(tracker.len(), 3);
    assert_eq!(tracker.take_one(), Some((10, 100)));
    assert_eq!(tracker.take_one(), Some((20, 200)));
    assert_eq!(tracker.len(), 1);
    assert_eq!(tracker.take_one(), Some((30, 300)));
    assert_eq!(tracker.take_one(), None);
}

#[test]
fn restore_never_double_counts() {
    let mut tracker = RecordTracker::new();
    tracker.restore(10, 100);
    tracker.restore(10, 100);
    assert_eq!(tracker.len(), 1);
}

#[test]
fn absorb_keeps_only_the_owners_positive_outputs() {
    let mut tracker = RecordTracker::new();
    let outputs = vec![
        Output { commitment: 1, owner: 5, gates: 10 },
        Output { commitment: 2, owner: 6, gates: 10 },
        Output { commitment: 3, owner: 5, gates: 0 },
        Output { commitment: 1, owner: 5, gates: 99 },
    ];
    tracker.absorb(&outputs, 5);
    assert_eq!(tracker.len(), 1);
    assert_eq!(tracker.get(0), Some((1, 10)));
    assert!(!tracker.contains(2));
    assert!(!tracker.contains(3));
}

#[test]
fn tracker_load_matches_the_ledger_scan() {
    let ledger = Ledger::load(KEY, GENESIS_TS);
    let tracker = RecordTracker::load(&ledger, view_key_of(KEY));
    assert_eq!(tracker.len(), 1);
    assert_eq!(tracker.get(0), Some((GENESIS_COMMITMENT, STARTING_GATES)));
}

#[test]
fn block_heights_are_found_by_hash() {
    let ledger = Ledger::load(KEY, GENESIS_TS);
    let genesis_hash = ledger.latest_hash();
    assert_eq!(ledger.find_block_height(genesis_hash), Some(0));
    let absent = slingshot::digest::BlockHash { tag: 1, height: 1 };
    assert_eq!(ledger.find_block_height(absent), None);
}

#[test]
fn create_deploy_consumes_the_largest_record() {
    let ledger = Ledger::load(KEY, GENESIS_TS);
    let t = ledger.create_deploy(KEY, 99, 500, 60).unwrap();
    assert_eq!(t.id, 60);
    assert_eq!(t.program_id, Some(99));
    assert_eq!(t.input_ids, vec![GENESIS_COMMITMENT]);
    assert_eq!(
        t.outputs,
        vec![Output { commitment: 61, owner: address_of(KEY), gates: STARTING_GATES - 500 }],
    );
    let refused = ledger.create_deploy(KEY, 99, STARTING_GATES + 1, 60);
    assert_eq!(refused.err(), Some(ConsensusError::TransientResourceExhaustion));
}
