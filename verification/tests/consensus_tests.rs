use slingshot::block::{block_hash_of, transactions_root, Block, Header};
use slingshot::consensus::SingleNodeConsensus;
use slingshot::digest::{address_of, sign};
use slingshot::error::{ConsensusError, ValidationError};
use slingshot::ledger::Ledger;
use slingshot::target::{coinbase_target, proof_target};
use slingshot::transaction::{Output, Transaction};

const KEY: u64 = 123456789;
const GENESIS_TS: i64 = 1_000_000;

fn tx(id: u64, inputs: Vec<u64>, commitments: Vec<u64>) -> Transaction {
    let outputs = commitments
        .into_iter()
        .map(|commitment| Output { commitment, owner: address_of(KEY), gates: 10 })
        .collect();
    Transaction {
        id,
        program_id: None,
        input_ids: inputs,
        outputs,
        metadata_ids: Vec::new(),
        fee: -1,
        size_bytes: 0,
        proof_ok: true,
    }
}

fn engine() -> SingleNodeConsensus {
    SingleNodeConsensus::new(Ledger::load(KEY, GENESIS_TS)).unwrap()
}

/// Builds a fully consistent candidate block over the current chain tip,
/// carrying the given transactions and timestamp.
fn consistent_block(ledger: &Ledger, transactions: Vec<Transaction>, timestamp: i64) -> Block {
    let latest = ledger.latest_block();
    let ct = coinbase_target(
        latest.header.last_coinbase_target,
        latest.header.last_coinbase_timestamp,
        timestamp,
    );
    let header = Header {
        round: latest.header.round + 1,
        height: latest.header.height + 1,
        timestamp,
        coinbase_target: ct,
        proof_target: proof_target(ct),
        last_coinbase_target: latest.header.last_coinbase_target,
        last_coinbase_timestamp: latest.header.last_coinbase_timestamp,
        state_root: slingshot::digest::mix(latest.header.state_root, latest.block_hash.tag),
        transactions_root: transactions_root(&transactions),
        coinbase_accumulator_point: 0,
    };
    let previous_hash = latest.block_hash;
    let block_hash = block_hash_of(previous_hash, &header);
    Block {
        previous_hash,
        header,
        transactions,
        producer: address_of(KEY),
        signature: sign(KEY, block_hash.tag),
        block_hash,
        coinbase_solution: None,
    }
}

#[test]
fn conflicting_input_is_rejected_while_staged() {
    let mut engine = engine();
    assert!(engine.add_unconfirmed_transaction(tx(100, vec![50], vec![101])).is_ok());
    let second = engine.add_unconfirmed_transaction(tx(102, vec![50], vec![103]));
    assert_eq!(second, Err(ConsensusError::DuplicateOrConflicting));
    assert_eq!(engine.memory_pool().len(), 1);
}

#[test]
fn reused_metadata_identifier_is_rejected_after_commit() {
    let mut engine = engine();
    let mut first = tx(100, vec![50], vec![101]);
    first.metadata_ids = vec![900];
    assert!(engine.add_unconfirmed_transaction(first).is_ok());
    let block = engine.propose_next_block_at(KEY, GENESIS_TS + 30).unwrap();
    assert!(engine.advance_to_next_block(&block).is_ok());
    assert!(engine.ledger().contains_metadata_id(900));
    let mut replay = tx(200, vec![250], vec![251]);
    replay.metadata_ids = vec![900];
    assert_eq!(
        engine.add_unconfirmed_transaction(replay),
        Err(ConsensusError::DuplicateOrConflicting),
    );
}

#[test]
fn duplicate_id_is_rejected() {
    let mut engine = engine();
    assert!(engine.add_unconfirmed_transaction(tx(100, vec![50], vec![101])).is_ok());
    let second = engine.add_unconfirmed_transaction(tx(100, vec![60], vec![61]));
    assert_eq!(second, Err(ConsensusError::DuplicateOrConflicting));
}

#[test]
fn malformed_transactions_are_never_staged() {
    let mut engine = engine();
    // An unverifiable proof.
    let mut bad = tx(100, vec![50], vec![101]);
    bad.proof_ok = false;
    assert_eq!(engine.add_unconfirmed_transaction(bad), Err(ConsensusError::MalformedInput));
    // A reported balance smaller than the serialized size.
    let mut underpaying = tx(102, vec![52], vec![103]);
    underpaying.fee = 5;
    underpaying.size_bytes = 6;
    assert_eq!(
        engine.add_unconfirmed_transaction(underpaying),
        Err(ConsensusError::MalformedInput),
    );
    // An input identifier consumed twice by the same transaction.
    let doubled = tx(104, vec![54, 54], vec![105]);
    assert_eq!(engine.add_unconfirmed_transaction(doubled), Err(ConsensusError::MalformedInput));
    assert_eq!(engine.memory_pool().len(), 0);
}

#[test]
fn proposed_blocks_always_pass_the_check() {
    let mut engine = engine();
    assert!(engine.add_unconfirmed_transaction(tx(100, vec![50], vec![101])).is_ok());
    assert!(engine.add_unconfirmed_transaction(tx(102, vec![52], vec![103])).is_ok());
    let block = engine.propose_next_block_at(KEY, GENESIS_TS + 30).unwrap();
    assert_eq!(block.header.height, 1);
    assert_eq!(block.header.round, 1);
    assert_eq!(block.transactions.len(), 2);
    assert!(engine.check_next_block(&block).is_ok());
}

#[test]
fn proposing_from_an_empty_pool_is_refused() {
    let engine = engine();
    let result = engine.propose_next_block_at(KEY, GENESIS_TS + 30);
    assert_eq!(result.err(), Some(ConsensusError::TransientResourceExhaustion));
}

#[test]
fn advancing_commits_and_prunes_the_pool() {
    let mut engine = engine();
    assert!(engine.add_unconfirmed_transaction(tx(100, vec![50], vec![101])).is_ok());
    let block = engine.propose_next_block_at(KEY, GENESIS_TS + 30).unwrap();
    assert!(engine.advance_to_next_block(&block).is_ok());
    assert_eq!(engine.ledger().block_count(), 2);
    assert_eq!(engine.ledger().latest_height(), 1);
    // The confirmed transaction no longer survives in the pool.
    assert_eq!(engine.memory_pool().len(), 0);
    assert!(engine.ledger().contains_transaction_id(100));
    assert!(engine.ledger().contains_input_id(50));
    assert!(engine.ledger().contains_commitment(101));
}

#[test]
fn next_block_must_raise_height_by_exactly_one() {
    let mut engine = engine();
    assert!(engine.add_unconfirmed_transaction(tx(100, vec![50], vec![101])).is_ok());
    let block = engine.propose_next_block_at(KEY, GENESIS_TS + 30).unwrap();
    let mut skipping = block.clone();
    skipping.header.height = 2;
    assert_eq!(
        engine.check_next_block(&skipping),
        Err(ValidationError::WrongHeight),
    );
}

#[test]
fn next_block_must_raise_round_by_exactly_one() {
    let mut engine = engine();
    assert!(engine.add_unconfirmed_transaction(tx(100, vec![50], vec![101])).is_ok());
    let block = engine.propose_next_block_at(KEY, GENESIS_TS + 30).unwrap();
    let mut stuck = block.clone();
    stuck.header.round = 0;
    assert_eq!(engine.check_next_block(&stuck), Err(ValidationError::WrongRound));
}

#[test]
fn next_block_timestamp_must_advance() {
    let mut engine = engine();
    assert!(engine.add_unconfirmed_transaction(tx(100, vec![50], vec![101])).is_ok());
    let block = engine.propose_next_block_at(KEY, GENESIS_TS + 30).unwrap();
    let mut stale = block.clone();
    stale.header.timestamp = GENESIS_TS;
    assert_eq!(
        engine.check_next_block(&stale),
        Err(ValidationError::TimestampTooEarly),
    );
}

#[test]
fn identifier_reuse_across_blocks_is_rejected() {
    let mut engine = engine();
    assert!(engine.add_unconfirmed_transaction(tx(100, vec![50], vec![101])).is_ok());
    let block = engine.propose_next_block_at(KEY, GENESIS_TS + 30).unwrap();
    assert!(engine.advance_to_next_block(&block).is_ok());
    // A transaction reusing the confirmed input identifier is refused when
    // submitted after the first one was committed.
    let replay = engine.add_unconfirmed_transaction(tx(200, vec![50], vec![201]));
    assert_eq!(replay, Err(ConsensusError::DuplicateOrConflicting));
    // So is one reusing the confirmed commitment or transaction id.
    let reuse_commitment = engine.add_unconfirmed_transaction(tx(202, vec![60], vec![101]));
    assert_eq!(reuse_commitment, Err(ConsensusError::DuplicateOrConflicting));
    let reuse_id = engine.add_unconfirmed_transaction(tx(100, vec![70], vec![203]));
    assert_eq!(reuse_id, Err(ConsensusError::DuplicateOrConflicting));
}

#[test]
fn blocks_reusing_identifiers_internally_are_rejected() {
    let engine = engine();
    let ledger = engine.ledger();
    // Two transactions with the same id.
    let twins = consistent_block(
        ledger,
        vec![tx(100, vec![50], vec![101]), tx(100, vec![52], vec![103])],
        GENESIS_TS + 30,
    );
    assert_eq!(
        engine.check_next_block(&twins),
        Err(ValidationError::DuplicateTransactionId),
    );
    // Two transactions consuming the same input identifier.
    let double_spend = consistent_block(
        ledger,
        vec![tx(100, vec![50], vec![101]), tx(102, vec![50], vec![103])],
        GENESIS_TS + 30,
    );
    assert_eq!(
        engine.check_next_block(&double_spend),
        Err(ValidationError::DuplicateInputId),
    );
    // Two transactions producing the same commitment.
    let double_mint = consistent_block(
        ledger,
        vec![tx(100, vec![50], vec![101]), tx(102, vec![52], vec![101])],
        GENESIS_TS + 30,
    );
    assert_eq!(
        engine.check_next_block(&double_mint),
        Err(ValidationError::DuplicateCommitment),
    );
    // Two deployments of the same program.
    let mut deploy_a = tx(100, vec![50], vec![101]);
    deploy_a.program_id = Some(77);
    let mut deploy_b = tx(102, vec![52], vec![103]);
    deploy_b.program_id = Some(77);
    let double_deploy = consistent_block(ledger, vec![deploy_a, deploy_b], GENESIS_TS + 30);
    assert_eq!(
        engine.check_next_block(&double_deploy),
        Err(ValidationError::DuplicateProgramId),
    );
    // Two transactions claiming the same transition metadata identifier.
    let mut meta_a = tx(100, vec![50], vec![101]);
    meta_a.metadata_ids = vec![900];
    let mut meta_b = tx(102, vec![52], vec![103]);
    meta_b.metadata_ids = vec![900];
    let double_meta = consistent_block(ledger, vec![meta_a, meta_b], GENESIS_TS + 30);
    assert_eq!(
        engine.check_next_block(&double_meta),
        Err(ValidationError::DuplicateMetadataId),
    );
}

#[test]
fn remaining_rule_violations_are_named() {
    let mut engine = engine();
    assert!(engine.add_unconfirmed_transaction(tx(100, vec![50], vec![101])).is_ok());
    let block = engine.propose_next_block_at(KEY, GENESIS_TS + 30).unwrap();

    let mut unlinked = block.clone();
    unlinked.previous_hash = slingshot::digest::BlockHash { tag: 9, height: 9 };
    assert_eq!(
        engine.check_next_block(&unlinked),
        Err(ValidationError::PreviousHashMismatch),
    );

    let mut with_coinbase = block.clone();
    with_coinbase.coinbase_solution = Some(1);
    assert_eq!(
        engine.check_next_block(&with_coinbase),
        Err(ValidationError::UnexpectedCoinbase),
    );

    let mut accumulating = block.clone();
    accumulating.header.coinbase_accumulator_point = 1;
    assert_eq!(
        engine.check_next_block(&accumulating),
        Err(ValidationError::NonzeroAccumulator),
    );

    let mut wrong_last_target = block.clone();
    wrong_last_target.header.last_coinbase_target = 1;
    assert_eq!(
        engine.check_next_block(&wrong_last_target),
        Err(ValidationError::WrongLastCoinbaseTarget),
    );

    let mut wrong_last_time = block.clone();
    wrong_last_time.header.last_coinbase_timestamp = 1;
    assert_eq!(
        engine.check_next_block(&wrong_last_time),
        Err(ValidationError::WrongLastCoinbaseTimestamp),
    );

    let mut wrong_target = block.clone();
    wrong_target.header.coinbase_target += 1;
    assert_eq!(
        engine.check_next_block(&wrong_target),
        Err(ValidationError::WrongCoinbaseTarget),
    );

    let mut wrong_proof_target = block.clone();
    wrong_proof_target.header.proof_target += 1;
    assert_eq!(
        engine.check_next_block(&wrong_proof_target),
        Err(ValidationError::WrongProofTarget),
    );

    let mut wrong_hash = block.clone();
    wrong_hash.block_hash = slingshot::digest::BlockHash {
        tag: wrong_hash.block_hash.tag.wrapping_add(1),
        height: wrong_hash.block_hash.height,
    };
    assert_eq!(
        engine.check_next_block(&wrong_hash),
        Err(ValidationError::WrongBlockHash),
    );

    let mut forged = block.clone();
    forged.signature = forged.signature.wrapping_add(1);
    assert_eq!(
        engine.check_next_block(&forged),
        Err(ValidationError::InvalidSignature),
    );

    let mut padded = block.clone();
    padded.transactions.push(tx(300, vec![350], vec![351]));
    assert_eq!(
        engine.check_next_block(&padded),
        Err(ValidationError::WrongTransactionsRoot),
    );
}

#[test]
fn empty_and_invalid_transaction_lists_are_rejected() {
    let engine = engine();
    let empty = consistent_block(engine.ledger(), vec![], GENESIS_TS + 30);
    assert_eq!(
        engine.check_next_block(&empty),
        Err(ValidationError::EmptyTransactions),
    );
    let mut unproven = tx(100, vec![50], vec![101]);
    unproven.proof_ok = false;
    let invalid = consistent_block(engine.ledger(), vec![unproven], GENESIS_TS + 30);
    assert_eq!(
        engine.check_next_block(&invalid),
        Err(ValidationError::InvalidTransaction),
    );
}

#[test]
fn duplicate_block_hash_is_rejected() {
    let mut engine = engine();
    assert!(engine.add_unconfirmed_transaction(tx(100, vec![50], vec![101])).is_ok());
    let block = engine.propose_next_block_at(KEY, GENESIS_TS + 30).unwrap();
    assert!(engine.advance_to_next_block(&block).is_ok());
    // A block linked to the new head but sealed by the old head's own hash.
    let mut forged = consistent_block(
        engine.ledger(),
        vec![tx(200, vec![250], vec![251])],
        GENESIS_TS + 60,
    );
    forged.block_hash = block.block_hash;
    assert_eq!(
        engine.check_next_block(&forged),
        Err(ValidationError::DuplicateBlockHash),
    );
}

#[test]
fn clearing_the_pool_twice_equals_clearing_it_once() {
    let mut engine = engine();
    assert!(engine.add_unconfirmed_transaction(tx(100, vec![50], vec![101])).is_ok());
    let height_before = engine.ledger().latest_height();
    assert!(engine.clear_memory_pool().is_ok());
    assert_eq!(engine.memory_pool().len(), 0);
    assert!(engine.clear_memory_pool().is_ok());
    assert_eq!(engine.memory_pool().len(), 0);
    assert_eq!(engine.ledger().latest_height(), height_before);
}

#[test]
fn refresh_keeps_only_still_valid_entries() {
    let mut engine = engine();
    assert!(engine.add_unconfirmed_transaction(tx(100, vec![50], vec![101])).is_ok());
    assert!(engine.refresh_memory_pool().is_ok());
    assert_eq!(engine.memory_pool().len(), 1);
}
