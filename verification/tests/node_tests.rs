use slingshot::digest::address_of;
use slingshot::error::ConsensusError;
use slingshot::ledger::{GENESIS_COMMITMENT, STARTING_GATES};
use slingshot::node::{CycleOutcome, DevelopmentBeacon, ROUND_TIME};
use slingshot::transaction::{Output, Transaction};

const KEY: u64 = 987654321;
const GENESIS_TS: i64 = 2_000_000;

fn beacon() -> DevelopmentBeacon {
    DevelopmentBeacon::new(KEY, GENESIS_TS)
}

fn tx(id: u64, inputs: Vec<u64>, commitments: Vec<u64>) -> Transaction {
    let outputs = commitments
        .into_iter()
        .map(|commitment| Output { commitment, owner: address_of(KEY), gates: 10 })
        .collect();
    Transaction {
        id,
        program_id: None,
        input_ids: inputs,
        outputs,
        metadata_ids: Vec::new(),
        fee: -1,
        size_bytes: 0,
        proof_ok: true,
    }
}

#[test]
fn a_new_beacon_tracks_the_genesis_record() {
    let node = beacon();
    assert_eq!(node.ledger().block_count(), 1);
    assert_eq!(node.ledger().latest_height(), 0);
    assert_eq!(node.unspent_records().len(), 1);
    assert_eq!(node.unspent_records().get(0), Some((GENESIS_COMMITMENT, STARTING_GATES)));
    assert_eq!(node.consensus().memory_pool().len(), 0);
    assert!(!node.is_shutdown());
}

#[test]
fn empty_pool_cycle_commits_one_self_transfer() {
    let mut node = beacon();
    let outcome = node.produce_next_block_at(GENESIS_TS + 30);
    assert_eq!(outcome, CycleOutcome::Committed);
    assert_eq!(node.ledger().block_count(), 2);
    let committed = node.ledger().get_block(1).unwrap();
    assert_eq!(committed.transactions.len(), 1);
    let transfer = &committed.transactions[0];
    assert_eq!(transfer.input_ids, vec![GENESIS_COMMITMENT]);
    assert_eq!(transfer.outputs.len(), 1);
    assert_eq!(transfer.outputs[0].owner, address_of(KEY));
    assert_eq!(transfer.outputs[0].gates, STARTING_GATES);
    // One record consumed, one produced back: the tracker's size is
    // unchanged net.
    assert_eq!(node.unspent_records().len(), 1);
    assert_eq!(node.consensus().memory_pool().len(), 0);
}

#[test]
fn production_cycles_chain_block_after_block() {
    let mut node = beacon();
    assert_eq!(node.produce_next_block_at(GENESIS_TS + 30), CycleOutcome::Committed);
    assert_eq!(node.produce_next_block_at(GENESIS_TS + 60), CycleOutcome::Committed);
    assert_eq!(node.produce_next_block_at(GENESIS_TS + 90), CycleOutcome::Committed);
    assert_eq!(node.ledger().block_count(), 4);
    assert_eq!(node.ledger().latest_height(), 3);
    assert_eq!(node.unspent_records().len(), 1);
}

#[test]
fn a_lagging_clock_still_advances_the_chain() {
    let mut node = beacon();
    // The clock reads a time before the genesis timestamp; the proposal's
    // timestamp is pushed just past the chain tip.
    assert_eq!(node.produce_next_block_at(GENESIS_TS - 100), CycleOutcome::Committed);
    assert_eq!(node.ledger().latest_timestamp(), GENESIS_TS + 1);
}

#[test]
fn cycle_with_pooled_transaction_commits_it() {
    let mut node = beacon();
    assert!(node.add_unconfirmed_transaction(tx(100, vec![50], vec![101])).is_ok());
    assert_eq!(node.produce_next_block_at(GENESIS_TS + 30), CycleOutcome::Committed);
    assert_eq!(node.ledger().block_count(), 2);
    assert!(node.ledger().contains_transaction_id(100));
    // The staged entry was confirmed and pruned, not synthesized over.
    assert_eq!(node.consensus().memory_pool().len(), 0);
    assert_eq!(node.unspent_records().len(), 1);
}

#[test]
fn an_empty_tracker_and_pool_skips_the_cycle() {
    let mut node = beacon();
    assert_eq!(node.produce_next_block_at(GENESIS_TS + 30), CycleOutcome::Committed);
    // Drain the tracker, then ask for a cycle with nothing to spend.
    let drained = node.produce_next_block_at(GENESIS_TS + 60);
    assert_eq!(drained, CycleOutcome::Committed);
    // After two self-transfers one record remains; remove it through a pour
    // large enough to consume it with no change output.
    let balance = node.unspent_records().get(0).unwrap().1;
    assert!(node.faucet_pour(777, balance).is_ok());
    assert_eq!(node.produce_next_block_at(GENESIS_TS + 90), CycleOutcome::Committed);
    // The only record now belongs to the recipient. The tracker still holds
    // the consumed entry; the next cycle notices it is stale, drops it, and
    // abandons the cycle with nothing to spend.
    assert_eq!(node.produce_next_block_at(GENESIS_TS + 120), CycleOutcome::Skipped);
    assert_eq!(node.unspent_records().len(), 0);
    assert_eq!(node.ledger().block_count(), 4);
}

#[test]
fn rejected_candidate_clears_the_pool() {
    let mut node = beacon();
    assert!(node.add_unconfirmed_transaction(tx(100, vec![50], vec![101])).is_ok());
    // Propose a valid candidate, then tamper with its height before handing
    // it to the admission policy.
    let mut candidate = node.consensus().propose_next_block_at(KEY, GENESIS_TS + 30).unwrap();
    candidate.header.height = 5;
    let outcome = node.commit_candidate(&candidate);
    assert_eq!(outcome, CycleOutcome::Rejected);
    // The poison-pill policy: after a failed check the pool is empty.
    assert_eq!(node.consensus().memory_pool().len(), 0);
    assert_eq!(node.ledger().block_count(), 1);
}

#[test]
fn faucet_pour_stages_a_transfer_with_change() {
    let mut node = beacon();
    let id = node.faucet_pour(777, 1000).unwrap();
    assert_eq!(node.consensus().memory_pool().len(), 1);
    let staged = node.consensus().memory_pool().transactions();
    assert_eq!(staged[0].id, id);
    assert_eq!(staged[0].input_ids, vec![GENESIS_COMMITMENT]);
    assert_eq!(staged[0].outputs.len(), 2);
    assert_eq!(staged[0].outputs[0].owner, 777);
    assert_eq!(staged[0].outputs[0].gates, 1000);
    assert_eq!(staged[0].outputs[1].owner, address_of(KEY));
    assert_eq!(staged[0].outputs[1].gates, STARTING_GATES - 1000);
}

#[test]
fn faucet_pour_without_funds_is_refused() {
    let mut node = beacon();
    let result = node.faucet_pour(777, STARTING_GATES + 1);
    assert_eq!(result, Err(ConsensusError::TransientResourceExhaustion));
    assert_eq!(node.consensus().memory_pool().len(), 0);
}

#[test]
fn wait_time_adapts_to_generation_time() {
    let mut node = beacon();
    assert_eq!(node.time_to_wait(), ROUND_TIME - 2);
    node.set_block_generation_time(10);
    assert_eq!(node.time_to_wait(), 5);
    node.set_block_generation_time(40);
    assert_eq!(node.time_to_wait(), 0);
}

#[test]
fn shutdown_flag_is_observable() {
    let mut node = beacon();
    assert!(!node.is_shutdown());
    node.shut_down();
    assert!(node.is_shutdown());
}

#[test]
fn clock_driven_cycle_commits() {
    // The genesis timestamp sits far in the past, so the wall clock always
    // reads later and the cycle commits.
    let mut node = beacon();
    assert_eq!(node.produce_next_block(), CycleOutcome::Committed);
    assert_eq!(node.ledger().block_count(), 2);
    assert!(node.ledger().latest_timestamp() > GENESIS_TS);
}

#[test]
fn deploy_stages_a_deployment_with_change() {
    let mut node = beacon();
    let id = node.deploy(KEY, 77, 1000).unwrap();
    let staged = node.consensus().memory_pool().transactions();
    assert_eq!(staged.len(), 1);
    assert_eq!(staged[0].id, id);
    assert_eq!(staged[0].program_id, Some(77));
    assert_eq!(staged[0].input_ids, vec![GENESIS_COMMITMENT]);
    assert_eq!(staged[0].outputs.len(), 1);
    assert_eq!(staged[0].outputs[0].owner, address_of(KEY));
    assert_eq!(staged[0].outputs[0].gates, STARTING_GATES - 1000);
}

#[test]
fn deploy_without_funds_is_refused() {
    let mut node = beacon();
    let result = node.deploy(KEY, 77, STARTING_GATES + 1);
    assert_eq!(result, Err(ConsensusError::TransientResourceExhaustion));
    assert_eq!(node.consensus().memory_pool().len(), 0);
}

#[test]
fn redeploying_a_confirmed_program_is_refused() {
    let mut node = beacon();
    node.deploy(KEY, 77, 0).unwrap();
    assert_eq!(node.produce_next_block_at(GENESIS_TS + 30), CycleOutcome::Committed);
    assert!(node.ledger().contains_program_id(77));
    assert_eq!(node.deploy(KEY, 77, 0), Err(ConsensusError::DuplicateOrConflicting));
}

#[test]
fn competing_spends_of_one_record_are_refused() {
    let mut node = beacon();
    // Both operations must fund themselves from the one genesis record, so
    // the second conflicts with the staged first.
    node.faucet_pour(777, 100).unwrap();
    assert_eq!(node.faucet_pour(888, 100), Err(ConsensusError::DuplicateOrConflicting));
    assert_eq!(node.deploy(KEY, 78, 0), Err(ConsensusError::DuplicateOrConflicting));
    assert_eq!(node.consensus().memory_pool().len(), 1);
}
