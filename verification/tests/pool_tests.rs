use slingshot::error::ConsensusError;
use slingshot::pool::TransactionPool;
use slingshot::transaction::{Output, Transaction};

fn tx(id: u64, inputs: Vec<u64>, commitments: Vec<u64>) -> Transaction {
    let outputs = commitments
        .into_iter()
        .map(|commitment| Output { commitment, owner: 1, gates: 10 })
        .collect();
    Transaction {
        id,
        program_id: None,
        input_ids: inputs,
        outputs,
        metadata_ids: Vec::new(),
        fee: -1,
        size_bytes: 0,
        proof_ok: true,
    }
}

#[test]
fn add_with_distinct_ids_counts_them() {
    let mut pool = TransactionPool::new();
    assert_eq!(pool.len(), 0);
    assert!(pool.add(tx(10, vec![100], vec![200])).is_ok());
    assert!(pool.add(tx(11, vec![101], vec![201])).is_ok());
    assert!(pool.add(tx(12, vec![102], vec![202])).is_ok());
    assert_eq!(pool.len(), 3);
    assert!(pool.contains(10));
    assert!(pool.contains(11));
    assert!(pool.contains(12));
    assert!(!pool.contains(13));
}

#[test]
fn re_adding_an_id_fails_and_changes_nothing() {
    let mut pool = TransactionPool::new();
    assert!(pool.add(tx(10, vec![100], vec![200])).is_ok());
    let result = pool.add(tx(10, vec![900], vec![901]));
    assert_eq!(result, Err(ConsensusError::DuplicateOrConflicting));
    assert_eq!(pool.len(), 1);
    let staged = pool.transactions();
    assert_eq!(staged.len(), 1);
    assert_eq!(staged[0].input_ids, vec![100]);
}

#[test]
fn clear_drops_everything() {
    let mut pool = TransactionPool::new();
    assert!(pool.add(tx(10, vec![100], vec![200])).is_ok());
    assert!(pool.add(tx(11, vec![101], vec![201])).is_ok());
    pool.clear();
    assert_eq!(pool.len(), 0);
    assert!(pool.is_empty());
    assert!(!pool.contains(10));
}

#[test]
fn transactions_returns_pool_order() {
    let mut pool = TransactionPool::new();
    assert!(pool.add(tx(12, vec![102], vec![202])).is_ok());
    assert!(pool.add(tx(10, vec![100], vec![200])).is_ok());
    let staged = pool.transactions();
    assert_eq!(staged.len(), 2);
    assert_eq!(staged[0].id, 12);
    assert_eq!(staged[1].id, 10);
}
