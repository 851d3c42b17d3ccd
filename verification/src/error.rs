//! The error taxonomy of the engine.

use vstd::prelude::*;

verus! {

/// The rule a candidate block violated, named after the first failing rule of
/// the ordered admission rule set.
#[derive(Clone, Copy, PartialEq, Eq, Structural, Debug)]
pub enum ValidationError {
    /// The block's previous hash is not the current ledger head hash.
    PreviousHashMismatch,
    /// The block's hash already exists in the ledger.
    DuplicateBlockHash,
    /// The block's height is not one more than the ledger's height.
    WrongHeight,
    /// The block's round is not one more than the ledger's round.
    WrongRound,
    /// The block's timestamp is not after the previous block's timestamp.
    TimestampTooEarly,
    /// A transaction id in the block is already used, in the ledger or twice
    /// in the block.
    DuplicateTransactionId,
    /// An input identifier in the block is already used, in the ledger or
    /// twice in the block.
    DuplicateInputId,
    /// An output commitment in the block is already used, in the ledger or
    /// twice in the block.
    DuplicateCommitment,
    /// A deployed program id in the block is already used, in the ledger or
    /// twice in the block.
    DuplicateProgramId,
    /// A transition metadata identifier in the block is already used, in the
    /// ledger or twice in the block.
    DuplicateMetadataId,
    /// A block at height zero that is not a well-formed genesis block.
    InvalidGenesis,
    /// The block header is not internally valid.
    InvalidHeader,
    /// The block carries a coinbase solution, which the single-producer
    /// engine never accepts.
    UnexpectedCoinbase,
    /// The header's coinbase accumulator point is not the additive identity.
    NonzeroAccumulator,
    /// The header's last coinbase target differs from the previous block's.
    WrongLastCoinbaseTarget,
    /// The header's last coinbase timestamp differs from the previous
    /// block's.
    WrongLastCoinbaseTimestamp,
    /// The stated coinbase target differs from the recomputed one.
    WrongCoinbaseTarget,
    /// The stated proof target differs from the recomputed one.
    WrongProofTarget,
    /// The stated block hash differs from the recomputed one.
    WrongBlockHash,
    /// The producer signature does not verify against the producer address.
    InvalidSignature,
    /// The header's transactions root differs from the recomputed one.
    WrongTransactionsRoot,
    /// The block carries no transactions.
    EmptyTransactions,
    /// The block carries more transactions than the allowed maximum.
    TooManyTransactions,
    /// A transaction in the block fails its basic validity check.
    InvalidTransaction,
}

/// An error surfaced by an engine operation.
#[derive(Clone, Copy, PartialEq, Eq, Structural, Debug)]
pub enum ConsensusError {
    /// The input fails a basic well-formedness or fee or proof check and is
    /// never staged.
    MalformedInput,
    /// An identifier of the input collides with the pool or with ledger
    /// history; the input is rejected with no state change.
    DuplicateOrConflicting,
    /// A candidate block violated the named admission rule.
    ValidationRuleViolation(ValidationError),
    /// The ledger refused the commit; the pool has been cleared.
    LedgerCommitFailure,
    /// A transient shortage, such as an empty pool or no spendable record;
    /// the operation is skipped, not failed.
    TransientResourceExhaustion,
}

} // verus!
