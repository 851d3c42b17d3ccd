//! The append-only ledger and its admission rule set.
//!
//! The ledger is the height-ordered history of committed blocks. Its
//! well-formedness predicate carries the safety invariants of the chain:
//! heights and rounds advance by exactly one, timestamps strictly increase,
//! hashes link each block to its predecessor, and no identifier of any family
//! is ever used twice across the whole history.

use vstd::prelude::*;

use crate::block::{
    block_hash_of, spec_block_hash_of, spec_transactions_root, transactions_root,
    views_of_blocks_is_map, views_of_blocks_push, Block, BlockModel, Header, MAX_TRANSACTIONS,
};
use crate::digest::{
    address_of, sign, signature_valid, spec_address_of, spec_sign, spec_signature_valid, BlockHash,
};
use crate::error::{ConsensusError, ValidationError};
use crate::target::{
    coinbase_target, proof_target, spec_coinbase_target, spec_proof_target,
    GENESIS_COINBASE_TARGET,
};
use crate::transaction::{
    family_ids, lemma_family_contains, lemma_no_dup_add, seqs_disjoint, views_of, Output,
    Transaction, TxModel,
};

verus! {

/// One of the identifier families whose global uniqueness the ledger
/// protects.
#[derive(Clone, Copy, PartialEq, Eq, Structural, Debug)]
pub enum Family {
    /// Transaction ids.
    TxId,
    /// Input identifiers: serial numbers, input ids, tags.
    InputId,
    /// Output identifiers: commitments, output ids, nonces.
    OutputId,
    /// Deployed program ids.
    ProgramId,
    /// Transition metadata identifiers: transition public keys and
    /// transition commitments.
    MetadataId,
}

/// The identifiers a transaction claims in a family.
pub open spec fn family_of(fam: Family, t: TxModel) -> Seq<u64> {
    match fam {
        Family::TxId => t.own_id(),
        Family::InputId => t.input_ids,
        Family::OutputId => t.commitments(),
        Family::ProgramId => t.program_ids(),
        Family::MetadataId => t.metadata_ids,
    }
}

/// The identifiers a transaction claims in a family, as a function value.
pub open spec fn family_fn(fam: Family) -> spec_fn(TxModel) -> Seq<u64> {
    |t: TxModel| family_of(fam, t)
}

/// Whether a transaction claims an identifier in a family.
#[verifier::loop_isolation(false)]
pub fn tx_claims(t: &Transaction, fam: Family, x: u64) -> (r: bool)
    ensures
        r == family_fn(fam)(t@).contains(x),
{
    match fam {
        Family::TxId => {
            proof {
                assert(t@.own_id()[0] == t.id);
                if t.id != x {
                    assert(forall|i: int| 0 <= i < t@.own_id().len() ==> t@.own_id()[i] == t.id);
                }
            }
            t.id == x
        },
        Family::InputId => crate::transaction::vec_contains(&t.input_ids, x),
        Family::OutputId => {
            let n = t.outputs.len();
            for i in 0..n
                invariant
                    n == t.outputs.len(),
                    forall|j: int| 0 <= j < i ==> (#[trigger] t.outputs@[j]).commitment != x,
            {
                if t.outputs[i].commitment == x {
                    proof {
                        assert(t@.commitments().len() == t.outputs@.len());
                        assert(t@.commitments()[i as int] == t.outputs@[i as int].commitment);
                        assert(t@.commitments().contains(x));
                    }
                    return true;
                }
            }
            proof {
                if t@.commitments().contains(x) {
                    let k = choose|k: int|
                        0 <= k < t@.commitments().len() && t@.commitments()[k] == x;
                    assert(t.outputs@[k].commitment == x);
                }
            }
            false
        },
        Family::ProgramId => {
            match t.program_id {
                Some(p) => {
                    proof {
                        assert(t@.program_ids()[0] == p);
                        if p != x {
                            assert(forall|i: int|
                                0 <= i < t@.program_ids().len() ==> t@.program_ids()[i] == p);
                        }
                    }
                    p == x
                },
                None => {
                    proof {
                        assert(t@.program_ids().len() == 0);
                    }
                    false
                },
            }
        },
        Family::MetadataId => crate::transaction::vec_contains(&t.metadata_ids, x),
    }
}

/// The identifiers a transaction claims in a family, as a vector.
pub fn tx_family_vec(t: &Transaction, fam: Family) -> (r: Vec<u64>)
    ensures
        r@ == family_fn(fam)(t@),
{
    match fam {
        Family::TxId => {
            let r = vec![t.id];
            proof {
                assert(r@ =~= t@.own_id());
            }
            r
        },
        Family::InputId => {
            let r = t.input_ids.clone();
            proof {
                assert(r@ =~= t@.input_ids);
            }
            r
        },
        Family::OutputId => t.commitments(),
        Family::ProgramId => {
            match t.program_id {
                Some(p) => {
                    let r = vec![p];
                    proof {
                        assert(r@ =~= t@.program_ids());
                    }
                    r
                },
                None => {
                    let r: Vec<u64> = Vec::new();
                    proof {
                        assert(r@ =~= t@.program_ids());
                    }
                    r
                },
            }
        },
        Family::MetadataId => {
            let r = t.metadata_ids.clone();
            proof {
                assert(r@ =~= t@.metadata_ids);
            }
            r
        },
    }
}

/// The identifiers a block's transactions claim in a family, as a vector.
#[verifier::loop_isolation(false)]
pub fn block_family_vec(b: &Block, fam: Family) -> (r: Vec<u64>)
    ensures
        r@ == family_ids(b@.transactions, family_fn(fam)),
{
    let mut r: Vec<u64> = Vec::new();
    let n = b.transactions.len();
    proof {
        assert(b@.transactions.take(0) =~= Seq::empty());
    }
    for i in 0..n
        invariant
            n == b.transactions.len(),
            r@ == family_ids(b@.transactions.take(i as int), family_fn(fam)),
    {
        let mut part = tx_family_vec(&b.transactions[i], fam);
        let ghost prev = r@;
        r.append(&mut part);
        proof {
            assert(b@.transactions.take(i + 1).drop_last() =~= b@.transactions.take(i as int));
            assert(b@.transactions.take(i + 1).last() == b@.transactions[i as int]);
            assert(b@.transactions[i as int] == b.transactions@[i as int]@);
        }
    }
    proof {
        assert(b@.transactions.take(n as int) =~= b@.transactions);
    }
    r
}

/// Whether any of a block's transactions claims an identifier in a family.
#[verifier::loop_isolation(false)]
pub fn block_claims(b: &Block, fam: Family, x: u64) -> (r: bool)
    ensures
        r == family_ids(b@.transactions, family_fn(fam)).contains(x),
{
    let n = b.transactions.len();
    for i in 0..n
        invariant
            n == b.transactions.len(),
            forall|j: int| 0 <= j < i ==> !family_fn(fam)((#[trigger] b@.transactions[j])).contains(x),
    {
        if tx_claims(&b.transactions[i], fam, x) {
            proof {
                assert(b@.transactions[i as int] == b.transactions@[i as int]@);
                lemma_family_contains(b@.transactions, family_fn(fam), x);
            }
            return true;
        }
        proof {
            assert(b@.transactions[i as int] == b.transactions@[i as int]@);
        }
    }
    proof {
        lemma_family_contains(b@.transactions, family_fn(fam), x);
    }
    false
}

/// The identifiers of one family claimed anywhere in a block history, in
/// history order.
pub open spec fn history_ids(l: Seq<BlockModel>, f: spec_fn(TxModel) -> Seq<u64>) -> Seq<u64>
    decreases l.len(),
{
    if l.len() == 0 {
        Seq::empty()
    } else {
        history_ids(l.drop_last(), f) + family_ids(l.last().transactions, f)
    }
}

/// Appending one block appends its identifiers.
pub proof fn lemma_history_push(l: Seq<BlockModel>, b: BlockModel, f: spec_fn(TxModel) -> Seq<u64>)
    ensures
        history_ids(l.push(b), f) == history_ids(l, f) + family_ids(b.transactions, f),
{
    assert(l.push(b).drop_last() =~= l);
    assert(l.push(b).last() == b);
}

/// A history holds an identifier exactly when some block claims it.
pub proof fn lemma_history_contains(l: Seq<BlockModel>, f: spec_fn(TxModel) -> Seq<u64>, x: u64)
    ensures
        history_ids(l, f).contains(x) <==> exists|i: int|
            0 <= i < l.len() && family_ids((#[trigger] l[i]).transactions, f).contains(x),
    decreases l.len(),
{
    if l.len() == 0 {
    } else {
        let prefix = l.drop_last();
        lemma_history_contains(prefix, f, x);
        crate::transaction::lemma_seq_add_contains(
            history_ids(prefix, f),
            family_ids(l.last().transactions, f),
            x,
        );
        if exists|i: int|
            0 <= i < l.len() && family_ids((#[trigger] l[i]).transactions, f).contains(x) {
            let i = choose|i: int|
                0 <= i < l.len() && family_ids((#[trigger] l[i]).transactions, f).contains(x);
            if i < l.len() - 1 {
                assert(prefix[i] == l[i]);
            } else {
                assert(l[i] == l.last());
            }
        }
        if history_ids(l, f).contains(x) {
            if history_ids(prefix, f).contains(x) {
                let i = choose|i: int|
                    0 <= i < prefix.len()
                    && family_ids((#[trigger] prefix[i]).transactions, f).contains(x);
                assert(l[i] == prefix[i]);
            } else {
                assert(l[l.len() - 1] == l.last());
            }
        }
    }
}

/// Every identifier family of the history is free of reuse.
pub open spec fn identifiers_unique(l: Seq<BlockModel>) -> bool {
    &&& history_ids(l, family_fn(Family::TxId)).no_duplicates()
    &&& history_ids(l, family_fn(Family::InputId)).no_duplicates()
    &&& history_ids(l, family_fn(Family::OutputId)).no_duplicates()
    &&& history_ids(l, family_fn(Family::ProgramId)).no_duplicates()
    &&& history_ids(l, family_fn(Family::MetadataId)).no_duplicates()
}

/// Well-formedness of a committed history.
pub open spec fn ledger_wf(l: Seq<BlockModel>) -> bool {
    &&& l.len() >= 1
    &&& l[0].spec_is_genesis()
    &&& forall|i: int| 0 <= i < l.len() ==> (#[trigger] l[i]).header.height == i
    &&& forall|i: int| 0 <= i < l.len() ==> (#[trigger] l[i]).header.round == i
    &&& forall|i: int| 0 <= i < l.len() ==> (#[trigger] l[i]).header.timestamp >= 0
    &&& forall|i: int| 1 <= i < l.len() ==> (#[trigger] l[i]).header.timestamp > l[i - 1].header.timestamp
    &&& forall|i: int| 1 <= i < l.len() ==> (#[trigger] l[i]).previous_hash == l[i - 1].block_hash
    &&& forall|i: int| 0 <= i < l.len() ==> (#[trigger] l[i]).block_hash.height == i
    &&& forall|i: int| 0 <= i < l.len() ==> (#[trigger] l[i]).transactions.len() >= 1
    &&& forall|i: int, j: int|
        0 <= i < l.len() && 0 <= j < l[i].transactions.len()
        ==> (#[trigger] l[i].transactions[j]).well_formed()
    &&& identifiers_unique(l)
}

/// The append-only ledger: the committed history and the scans over it.
pub struct Ledger {
    blocks: Vec<Block>,
}

impl View for Ledger {
    type V = Seq<BlockModel>;

    closed spec fn view(&self) -> Seq<BlockModel> {
        crate::block::views_of_blocks(self.blocks@)
    }
}

impl Ledger {
    /// Whether an identifier of a family is already claimed in history.
    #[verifier::loop_isolation(false)]
    pub fn contains_identifier(&self, fam: Family, x: u64) -> (r: bool)
        ensures
            r == history_ids(self@, family_fn(fam)).contains(x),
    {
        let n = self.blocks.len();
        for i in 0..n
            invariant
                n == self.blocks.len(),
                forall|j: int|
                    0 <= j < i
                    ==> !family_ids((#[trigger] self@[j]).transactions, family_fn(fam)).contains(x),
        {
            proof {
                views_of_blocks_is_map(self.blocks@);
            }
            if block_claims(&self.blocks[i], fam, x) {
                proof {
                    lemma_history_contains(self@, family_fn(fam), x);
                }
                return true;
            }
        }
        proof {
            lemma_history_contains(self@, family_fn(fam), x);
        }
        false
    }

    /// Whether a transaction id is already confirmed in history.
    pub fn contains_transaction_id(&self, id: u64) -> (r: bool)
        ensures
            r == history_ids(self@, family_fn(Family::TxId)).contains(id),
    {
        self.contains_identifier(Family::TxId, id)
    }

    /// Whether an input identifier is already consumed in history.
    pub fn contains_input_id(&self, x: u64) -> (r: bool)
        ensures
            r == history_ids(self@, family_fn(Family::InputId)).contains(x),
    {
        self.contains_identifier(Family::InputId, x)
    }

    /// Whether an output commitment is already produced in history.
    pub fn contains_commitment(&self, x: u64) -> (r: bool)
        ensures
            r == history_ids(self@, family_fn(Family::OutputId)).contains(x),
    {
        self.contains_identifier(Family::OutputId, x)
    }

    /// Whether a program id is already deployed in history.
    pub fn contains_program_id(&self, x: u64) -> (r: bool)
        ensures
            r == history_ids(self@, family_fn(Family::ProgramId)).contains(x),
    {
        self.contains_identifier(Family::ProgramId, x)
    }

    /// Whether a transition metadata identifier is already used in history.
    pub fn contains_metadata_id(&self, x: u64) -> (r: bool)
        ensures
            r == history_ids(self@, family_fn(Family::MetadataId)).contains(x),
    {
        self.contains_identifier(Family::MetadataId, x)
    }

    /// Whether a block hash already seals a block of the history.
    #[verifier::loop_isolation(false)]
    pub fn contains_block_hash(&self, h: crate::digest::BlockHash) -> (r: bool)
        ensures
            r == exists|i: int| 0 <= i < self@.len() && (#[trigger] self@[i]).block_hash == h,
    {
        let n = self.blocks.len();
        for i in 0..n
            invariant
                n == self.blocks.len(),
                forall|j: int| 0 <= j < i ==> (#[trigger] self@[j]).block_hash != h,
        {
            proof {
                views_of_blocks_is_map(self.blocks@);
            }
            if self.blocks[i].block_hash == h {
                proof {
                    assert(self@[i as int].block_hash == h);
                }
                return true;
            }
        }
        false
    }

    /// Whether a block already sits at the given height.
    #[verifier::loop_isolation(false)]
    pub fn contains_block_height(&self, h: u32) -> (r: bool)
        ensures
            r == exists|i: int| 0 <= i < self@.len() && (#[trigger] self@[i]).header.height == h,
    {
        let n = self.blocks.len();
        for i in 0..n
            invariant
                n == self.blocks.len(),
                forall|j: int| 0 <= j < i ==> (#[trigger] self@[j]).header.height != h,
        {
            proof {
                views_of_blocks_is_map(self.blocks@);
            }
            if self.blocks[i].header.height == h {
                proof {
                    assert(self@[i as int].header.height == h);
                }
                return true;
            }
        }
        false
    }

    /// The height of the block a hash seals, if any.
    #[verifier::loop_isolation(false)]
    pub fn find_block_height(&self, h: crate::digest::BlockHash) -> (r: Option<u32>)
        ensures
            match r {
                Some(height) => exists|i: int|
                    0 <= i < self@.len() && (#[trigger] self@[i]).block_hash == h
                        && self@[i].header.height == height,
                None => forall|i: int| 0 <= i < self@.len() ==> (#[trigger] self@[i]).block_hash != h,
            },
    {
        let n = self.blocks.len();
        for i in 0..n
            invariant
                n == self.blocks.len(),
                forall|j: int| 0 <= j < i ==> (#[trigger] self@[j]).block_hash != h,
        {
            proof {
                views_of_blocks_is_map(self.blocks@);
            }
            if self.blocks[i].block_hash == h {
                proof {
                    assert(self@[i as int].block_hash == h);
                }
                return Some(self.blocks[i].header.height);
            }
        }
        None
    }

    /// The number of committed blocks.
    pub fn block_count(&self) -> (r: usize)
        ensures
            r == self@.len(),
    {
        self.blocks.len()
    }

    /// The latest committed block.
    pub fn latest_block(&self) -> (r: &Block)
        requires
            self@.len() >= 1,
        ensures
            r@ == self@.last(),
    {
        proof {
            views_of_blocks_is_map(self.blocks@);
        }
        &self.blocks[self.blocks.len() - 1]
    }

    /// The height of the latest committed block.
    pub fn latest_height(&self) -> (r: u32)
        requires
            self@.len() >= 1,
        ensures
            r == self@.last().header.height,
    {
        self.latest_block().header.height
    }

    /// The round of the latest committed block.
    pub fn latest_round(&self) -> (r: u64)
        requires
            self@.len() >= 1,
        ensures
            r == self@.last().header.round,
    {
        self.latest_block().header.round
    }

    /// The timestamp of the latest committed block.
    pub fn latest_timestamp(&self) -> (r: i64)
        requires
            self@.len() >= 1,
        ensures
            r == self@.last().header.timestamp,
    {
        self.latest_block().header.timestamp
    }

    /// The hash of the latest committed block.
    pub fn latest_hash(&self) -> (r: crate::digest::BlockHash)
        requires
            self@.len() >= 1,
        ensures
            r == self@.last().block_hash,
    {
        self.latest_block().block_hash
    }

    /// The state root of the latest committed block.
    pub fn latest_state_root(&self) -> (r: u64)
        requires
            self@.len() >= 1,
        ensures
            r == self@.last().header.state_root,
    {
        self.latest_block().header.state_root
    }

    /// The committed block at a height, if there is one.
    pub fn get_block(&self, height: u32) -> (r: Option<&Block>)
        requires
            ledger_wf(self@),
        ensures
            match r {
                Some(b) => (height as int) < self@.len() && b@ == self@[height as int],
                None => (height as int) >= self@.len(),
            },
    {
        proof {
            views_of_blocks_is_map(self.blocks@);
        }
        if (height as usize) < self.blocks.len() {
            Some(&self.blocks[height as usize])
        } else {
            None
        }
    }
}

/// The starting balance the genesis block grants the operator.
pub const STARTING_GATES: u64 = 1000000;

/// The genesis transaction's id.
pub const GENESIS_TX_ID: u64 = 1;

/// The genesis output's commitment.
pub const GENESIS_COMMITMENT: u64 = 2;

/// A bound strictly above every identifier the genesis block claims.
pub const GENESIS_ID_BOUND: u64 = 3;

/// Every identifier claimed anywhere in the history lies below the bound.
pub open spec fn ledger_ids_below(l: Seq<BlockModel>, bound: u64) -> bool {
    &&& forall|x: u64| history_ids(l, family_fn(Family::TxId)).contains(x) ==> x < bound
    &&& forall|x: u64| history_ids(l, family_fn(Family::InputId)).contains(x) ==> x < bound
    &&& forall|x: u64| history_ids(l, family_fn(Family::OutputId)).contains(x) ==> x < bound
    &&& forall|x: u64| history_ids(l, family_fn(Family::ProgramId)).contains(x) ==> x < bound
    &&& forall|x: u64| history_ids(l, family_fn(Family::MetadataId)).contains(x) ==> x < bound
}

/// Basic validity of a transaction against the committed history: the ordered
/// rule list reused by pool insertion and by block checking.
pub open spec fn spec_check_transaction(l: Seq<BlockModel>, t: TxModel) -> Result<(), ConsensusError> {
    if !t.well_formed() {
        Err(ConsensusError::MalformedInput)
    } else if history_ids(l, family_fn(Family::TxId)).contains(t.id) {
        Err(ConsensusError::DuplicateOrConflicting)
    } else if !t.fee_sufficient() {
        Err(ConsensusError::MalformedInput)
    } else if !t.proof_ok {
        Err(ConsensusError::MalformedInput)
    } else if !seqs_disjoint(t.input_ids, history_ids(l, family_fn(Family::InputId))) {
        Err(ConsensusError::DuplicateOrConflicting)
    } else if !seqs_disjoint(t.commitments(), history_ids(l, family_fn(Family::OutputId))) {
        Err(ConsensusError::DuplicateOrConflicting)
    } else if !seqs_disjoint(t.program_ids(), history_ids(l, family_fn(Family::ProgramId))) {
        Err(ConsensusError::DuplicateOrConflicting)
    } else if !seqs_disjoint(t.metadata_ids, history_ids(l, family_fn(Family::MetadataId))) {
        Err(ConsensusError::DuplicateOrConflicting)
    } else {
        Ok(())
    }
}

/// Whether the basic validity check accepts a transaction against a history,
/// as a function value.
pub open spec fn basic_ok(l: Seq<BlockModel>) -> spec_fn(TxModel) -> bool {
    |t: TxModel| spec_check_transaction(l, t) is Ok
}

/// A block's claims in a family are internally duplicate-free and fresh
/// against the history.
pub open spec fn block_family_fresh(l: Seq<BlockModel>, b: BlockModel, fam: Family) -> bool {
    &&& family_ids(b.transactions, family_fn(fam)).no_duplicates()
    &&& seqs_disjoint(family_ids(b.transactions, family_fn(fam)), history_ids(l, family_fn(fam)))
}

/// The ordered admission rule set for a candidate next block; the first
/// failing rule names the error.
pub open spec fn spec_check_block(l: Seq<BlockModel>, b: BlockModel) -> Result<(), ValidationError> {
    let latest = l.last();
    if b.previous_hash != latest.block_hash {
        Err(ValidationError::PreviousHashMismatch)
    } else if exists|i: int| 0 <= i < l.len() && (#[trigger] l[i]).block_hash == b.block_hash {
        Err(ValidationError::DuplicateBlockHash)
    } else if b.header.height as int != latest.header.height + 1 {
        Err(ValidationError::WrongHeight)
    } else if b.header.round as int != latest.header.round + 1 {
        Err(ValidationError::WrongRound)
    } else if b.header.timestamp <= latest.header.timestamp {
        Err(ValidationError::TimestampTooEarly)
    } else if !block_family_fresh(l, b, Family::TxId) {
        Err(ValidationError::DuplicateTransactionId)
    } else if !block_family_fresh(l, b, Family::InputId) {
        Err(ValidationError::DuplicateInputId)
    } else if !block_family_fresh(l, b, Family::OutputId) {
        Err(ValidationError::DuplicateCommitment)
    } else if !block_family_fresh(l, b, Family::ProgramId) {
        Err(ValidationError::DuplicateProgramId)
    } else if !block_family_fresh(l, b, Family::MetadataId) {
        Err(ValidationError::DuplicateMetadataId)
    } else if b.header.height == 0 && !b.spec_is_genesis() {
        Err(ValidationError::InvalidGenesis)
    } else if !b.header.spec_is_valid() {
        Err(ValidationError::InvalidHeader)
    } else if b.coinbase_solution is Some {
        Err(ValidationError::UnexpectedCoinbase)
    } else if b.header.coinbase_accumulator_point != 0 {
        Err(ValidationError::NonzeroAccumulator)
    } else if b.header.last_coinbase_target != latest.header.last_coinbase_target {
        Err(ValidationError::WrongLastCoinbaseTarget)
    } else if b.header.last_coinbase_timestamp != latest.header.last_coinbase_timestamp {
        Err(ValidationError::WrongLastCoinbaseTimestamp)
    } else if b.header.coinbase_target != spec_coinbase_target(
        latest.header.last_coinbase_target,
        latest.header.last_coinbase_timestamp,
        b.header.timestamp,
    ) {
        Err(ValidationError::WrongCoinbaseTarget)
    } else if b.header.proof_target != spec_proof_target(b.header.coinbase_target) {
        Err(ValidationError::WrongProofTarget)
    } else if b.block_hash != spec_block_hash_of(b.previous_hash, b.header) {
        Err(ValidationError::WrongBlockHash)
    } else if !spec_signature_valid(b.producer, b.block_hash.tag, b.signature) {
        Err(ValidationError::InvalidSignature)
    } else if b.header.transactions_root != spec_transactions_root(b.transactions) {
        Err(ValidationError::WrongTransactionsRoot)
    } else if b.transactions.len() == 0 {
        Err(ValidationError::EmptyTransactions)
    } else if b.transactions.len() > MAX_TRANSACTIONS {
        Err(ValidationError::TooManyTransactions)
    } else if exists|j: int|
        0 <= j < b.transactions.len()
        && spec_check_transaction(l, #[trigger] b.transactions[j]) != Ok::<(), ConsensusError>(()) {
        Err(ValidationError::InvalidTransaction)
    } else {
        Ok(())
    }
}

impl Ledger {
    /// Whether any of the given identifiers is already claimed in history, in
    /// the given family.
    #[verifier::loop_isolation(false)]
    pub fn any_claimed(&self, fam: Family, ids: &Vec<u64>) -> (r: bool)
        ensures
            r == !seqs_disjoint(ids@, history_ids(self@, family_fn(fam))),
    {
        let n = ids.len();
        for i in 0..n
            invariant
                n == ids.len(),
                forall|j: int|
                    0 <= j < i ==> !history_ids(self@, family_fn(fam)).contains(#[trigger] ids@[j]),
        {
            if self.contains_identifier(fam, ids[i]) {
                proof {
                    assert(ids@.contains(ids@[i as int]));
                }
                return true;
            }
        }
        proof {
            assert forall|x: u64| ids@.contains(x)
                implies !history_ids(self@, family_fn(fam)).contains(x) by {
                let j = choose|j: int| 0 <= j < ids@.len() && ids@[j] == x;
                assert(!history_ids(self@, family_fn(fam)).contains(ids@[j]));
            }
        }
        false
    }

    /// Checks a transaction's basic validity against the committed history.
    pub fn check_transaction_basic(&self, t: &Transaction) -> (r: Result<(), ConsensusError>)
        ensures
            r == spec_check_transaction(self@, t@),
    {
        if !t.check_well_formed() {
            return Err(ConsensusError::MalformedInput);
        }
        if self.contains_transaction_id(t.id) {
            return Err(ConsensusError::DuplicateOrConflicting);
        }
        if t.fee >= 0 && (t.fee as u64) < t.size_bytes {
            return Err(ConsensusError::MalformedInput);
        }
        if !t.proof_ok {
            return Err(ConsensusError::MalformedInput);
        }
        if self.any_claimed(Family::InputId, &t.input_ids) {
            return Err(ConsensusError::DuplicateOrConflicting);
        }
        let commitments = t.commitments();
        if self.any_claimed(Family::OutputId, &commitments) {
            return Err(ConsensusError::DuplicateOrConflicting);
        }
        match t.program_id {
            Some(p) => {
                if self.contains_program_id(p) {
                    proof {
                        assert(t@.program_ids()[0] == p);
                        assert(t@.program_ids().contains(p));
                    }
                    return Err(ConsensusError::DuplicateOrConflicting);
                }
                proof {
                    assert forall|x: u64| t@.program_ids().contains(x)
                        implies !history_ids(self@, family_fn(Family::ProgramId)).contains(x) by {
                        assert(t@.program_ids()[0] == p);
                        let j = choose|j: int| 0 <= j < t@.program_ids().len() && t@.program_ids()[j] == x;
                    }
                }
            },
            None => {
                proof {
                    assert(t@.program_ids().len() == 0);
                    assert forall|x: u64| t@.program_ids().contains(x)
                        implies !history_ids(self@, family_fn(Family::ProgramId)).contains(x) by {
                        let j = choose|j: int| 0 <= j < t@.program_ids().len() && t@.program_ids()[j] == x;
                    }
                }
            },
        }
        if self.any_claimed(Family::MetadataId, &t.metadata_ids) {
            return Err(ConsensusError::DuplicateOrConflicting);
        }
        Ok(())
    }

    /// Checks whether a block is a valid next block, by the ordered rule set.
    #[verifier::loop_isolation(false)]
    pub fn check_next_block(&self, b: &Block) -> (r: Result<(), ValidationError>)
        requires
            self@.len() >= 1,
        ensures
            r == spec_check_block(self@, b@),
    {
        let latest_hash = self.latest_hash();
        if b.previous_hash != latest_hash {
            return Err(ValidationError::PreviousHashMismatch);
        }
        if self.contains_block_hash(b.block_hash) {
            return Err(ValidationError::DuplicateBlockHash);
        }
        let latest_height = self.latest_height();
        if (b.header.height as u64) != (latest_height as u64) + 1 {
            return Err(ValidationError::WrongHeight);
        }
        let latest_round = self.latest_round();
        if latest_round == u64::MAX || b.header.round != latest_round + 1 {
            return Err(ValidationError::WrongRound);
        }
        let latest_timestamp = self.latest_timestamp();
        if b.header.timestamp <= latest_timestamp {
            return Err(ValidationError::TimestampTooEarly);
        }
        let tx_ids = block_family_vec(b, Family::TxId);
        if !crate::transaction::vec_no_duplicates(&tx_ids) || self.any_claimed(Family::TxId, &tx_ids) {
            return Err(ValidationError::DuplicateTransactionId);
        }
        let input_ids = block_family_vec(b, Family::InputId);
        if !crate::transaction::vec_no_duplicates(&input_ids)
            || self.any_claimed(Family::InputId, &input_ids) {
            return Err(ValidationError::DuplicateInputId);
        }
        let output_ids = block_family_vec(b, Family::OutputId);
        if !crate::transaction::vec_no_duplicates(&output_ids)
            || self.any_claimed(Family::OutputId, &output_ids) {
            return Err(ValidationError::DuplicateCommitment);
        }
        let program_ids = block_family_vec(b, Family::ProgramId);
        if !crate::transaction::vec_no_duplicates(&program_ids)
            || self.any_claimed(Family::ProgramId, &program_ids) {
            return Err(ValidationError::DuplicateProgramId);
        }
        let metadata_ids = block_family_vec(b, Family::MetadataId);
        if !crate::transaction::vec_no_duplicates(&metadata_ids)
            || self.any_claimed(Family::MetadataId, &metadata_ids) {
            return Err(ValidationError::DuplicateMetadataId);
        }
        if b.header.height == 0 && !b.is_genesis() {
            return Err(ValidationError::InvalidGenesis);
        }
        if !b.header.is_valid() {
            return Err(ValidationError::InvalidHeader);
        }
        if b.coinbase_solution.is_some() {
            return Err(ValidationError::UnexpectedCoinbase);
        }
        if b.header.coinbase_accumulator_point != 0 {
            return Err(ValidationError::NonzeroAccumulator);
        }
        let latest = self.latest_block();
        if b.header.last_coinbase_target != latest.header.last_coinbase_target {
            return Err(ValidationError::WrongLastCoinbaseTarget);
        }
        if b.header.last_coinbase_timestamp != latest.header.last_coinbase_timestamp {
            return Err(ValidationError::WrongLastCoinbaseTimestamp);
        }
        let expected_coinbase_target = coinbase_target(
            latest.header.last_coinbase_target,
            latest.header.last_coinbase_timestamp,
            b.header.timestamp,
        );
        if b.header.coinbase_target != expected_coinbase_target {
            return Err(ValidationError::WrongCoinbaseTarget);
        }
        if b.header.proof_target != proof_target(expected_coinbase_target) {
            return Err(ValidationError::WrongProofTarget);
        }
        let expected_hash = block_hash_of(b.previous_hash, &b.header);
        if b.block_hash != expected_hash {
            return Err(ValidationError::WrongBlockHash);
        }
        if !signature_valid(b.producer, b.block_hash.tag, b.signature) {
            return Err(ValidationError::InvalidSignature);
        }
        if b.header.transactions_root != transactions_root(&b.transactions) {
            return Err(ValidationError::WrongTransactionsRoot);
        }
        let n = b.transactions.len();
        if n == 0 {
            return Err(ValidationError::EmptyTransactions);
        }
        if n > MAX_TRANSACTIONS {
            return Err(ValidationError::TooManyTransactions);
        }
        for j in 0..n
            invariant
                n == b.transactions.len(),
                forall|k: int|
                    0 <= k < j
                    ==> spec_check_transaction(self@, #[trigger] b@.transactions[k])
                        == Ok::<(), ConsensusError>(()),
        {
            if self.check_transaction_basic(&b.transactions[j]).is_err() {
                proof {
                    assert(b@.transactions[j as int] == b.transactions@[j as int]@);
                }
                return Err(ValidationError::InvalidTransaction);
            }
            proof {
                assert(b@.transactions[j as int] == b.transactions@[j as int]@);
            }
        }
        Ok(())
    }

    /// Commits a valid next block, or refuses it with the violated rule and
    /// leaves the history unchanged.
    pub fn add_next_block(&mut self, block: &Block) -> (r: Result<(), ValidationError>)
        requires
            ledger_wf(old(self)@),
        ensures
            match r {
                Ok(()) => {
                    &&& final(self)@ == old(self)@.push(block@)
                    &&& ledger_wf(final(self)@)
                    &&& spec_check_block(old(self)@, block@) == Ok::<(), ValidationError>(())
                },
                Err(e) => {
                    &&& final(self)@ == old(self)@
                    &&& ledger_wf(final(self)@)
                    &&& spec_check_block(old(self)@, block@) == Err::<(), ValidationError>(e)
                },
            },
    {
        match self.check_next_block(block) {
            Ok(()) => {
                let ghost l0 = self@;
                let copied = block.clone();
                self.blocks.push(copied);
                proof {
                    views_of_blocks_push(old(self).blocks@, copied);
                    assert(self@ == l0.push(block@));
                    lemma_check_extends(l0, block@);
                }
                Ok(())
            },
            Err(e) => Err(e),
        }
    }
}

/// A block passing the rule set extends a well-formed history into a
/// well-formed history.
pub proof fn lemma_check_extends(l: Seq<BlockModel>, b: BlockModel)
    requires
        ledger_wf(l),
        spec_check_block(l, b) == Ok::<(), ValidationError>(()),
    ensures
        ledger_wf(l.push(b)),
{
    let l2 = l.push(b);
    let n = l.len() as int;
    assert(l.last() == l[n - 1]);
    assert(forall|i: int| 0 <= i < n ==> l2[i] == l[i]);
    assert(l2[n] == b);

    // The negated rules, surfaced from the Ok result.
    assert(b.previous_hash == l.last().block_hash);
    assert(b.header.height as int == l.last().header.height + 1);
    assert(b.header.round as int == l.last().header.round + 1);
    assert(b.header.timestamp > l.last().header.timestamp);
    assert(block_family_fresh(l, b, Family::TxId));
    assert(block_family_fresh(l, b, Family::InputId));
    assert(block_family_fresh(l, b, Family::OutputId));
    assert(block_family_fresh(l, b, Family::ProgramId));
    assert(block_family_fresh(l, b, Family::MetadataId));
    assert(b.header.spec_is_valid());
    assert(b.block_hash == spec_block_hash_of(b.previous_hash, b.header));
    assert(b.transactions.len() >= 1);
    assert(forall|j: int|
        0 <= j < b.transactions.len()
        ==> spec_check_transaction(l, #[trigger] b.transactions[j]) == Ok::<(), ConsensusError>(()));

    assert(l2[0].spec_is_genesis());
    assert forall|i: int| 0 <= i < l2.len() implies (#[trigger] l2[i]).header.height == i by {
        if i < n {
            assert(l2[i] == l[i]);
        }
    }
    assert forall|i: int| 0 <= i < l2.len() implies (#[trigger] l2[i]).header.round == i by {
        if i < n {
            assert(l2[i] == l[i]);
        }
    }
    assert forall|i: int| 0 <= i < l2.len() implies (#[trigger] l2[i]).header.timestamp >= 0 by {
        if i < n {
            assert(l2[i] == l[i]);
        }
    }
    assert forall|i: int| 1 <= i < l2.len()
        implies (#[trigger] l2[i]).header.timestamp > l2[i - 1].header.timestamp by {
        if i < n {
            assert(l2[i] == l[i]);
            assert(l2[i - 1] == l[i - 1]);
        } else {
            assert(l2[i - 1] == l[n - 1]);
        }
    }
    assert forall|i: int| 1 <= i < l2.len()
        implies (#[trigger] l2[i]).previous_hash == l2[i - 1].block_hash by {
        if i < n {
            assert(l2[i] == l[i]);
            assert(l2[i - 1] == l[i - 1]);
        } else {
            assert(l2[i - 1] == l[n - 1]);
        }
    }
    assert forall|i: int| 0 <= i < l2.len() implies (#[trigger] l2[i]).block_hash.height == i by {
        if i < n {
            assert(l2[i] == l[i]);
        } else {
            assert(l2[i].block_hash == spec_block_hash_of(b.previous_hash, b.header));
        }
    }
    assert forall|i: int| 0 <= i < l2.len() implies (#[trigger] l2[i]).transactions.len() >= 1 by {
        if i < n {
            assert(l2[i] == l[i]);
        }
    }
    assert forall|i: int, j: int|
        0 <= i < l2.len() && 0 <= j < l2[i].transactions.len()
        implies (#[trigger] l2[i].transactions[j]).well_formed() by {
        if i < n {
            assert(l2[i] == l[i]);
            assert(l[i].transactions[j].well_formed());
        } else {
            assert(l2[i] == b);
            assert(spec_check_transaction(l, b.transactions[j]) == Ok::<(), ConsensusError>(()));
        }
    }

    lemma_unique_extends(l, b, Family::TxId);
    lemma_unique_extends(l, b, Family::InputId);
    lemma_unique_extends(l, b, Family::OutputId);
    lemma_unique_extends(l, b, Family::ProgramId);
    lemma_unique_extends(l, b, Family::MetadataId);
}

/// A fresh, duplicate-free block keeps one identifier family duplicate-free.
pub proof fn lemma_unique_extends(l: Seq<BlockModel>, b: BlockModel, fam: Family)
    requires
        history_ids(l, family_fn(fam)).no_duplicates(),
        block_family_fresh(l, b, fam),
    ensures
        history_ids(l.push(b), family_fn(fam)).no_duplicates(),
{
    let f = family_fn(fam);
    lemma_history_push(l, b, f);
    lemma_no_dup_add(history_ids(l, f), family_ids(b.transactions, f));
    assert forall|x: u64| history_ids(l, f).contains(x)
        implies !family_ids(b.transactions, f).contains(x) by {
        if family_ids(b.transactions, f).contains(x) {
            assert(!history_ids(l, f).contains(x));
        }
    }
}

/// The genesis transaction: the operator's starting record.
pub open spec fn spec_genesis_transaction(private_key: u64) -> TxModel {
    TxModel {
        id: GENESIS_TX_ID,
        program_id: None,
        input_ids: Seq::empty(),
        outputs: seq![
            Output {
                commitment: GENESIS_COMMITMENT,
                owner: spec_address_of(private_key),
                gates: STARTING_GATES,
            },
        ],
        metadata_ids: Seq::empty(),
        fee: -1i64,
        size_bytes: 0,
        proof_ok: true,
    }
}

/// The genesis header.
pub open spec fn spec_genesis_header(private_key: u64, timestamp: i64) -> Header {
    Header {
        round: 0,
        height: 0,
        timestamp,
        coinbase_target: GENESIS_COINBASE_TARGET,
        proof_target: spec_proof_target(GENESIS_COINBASE_TARGET),
        last_coinbase_target: GENESIS_COINBASE_TARGET,
        last_coinbase_timestamp: timestamp,
        state_root: 0,
        transactions_root: spec_transactions_root(seq![spec_genesis_transaction(private_key)]),
        coinbase_accumulator_point: 0,
    }
}

/// The genesis block.
pub open spec fn spec_genesis_block(private_key: u64, timestamp: i64) -> BlockModel {
    let h = spec_genesis_header(private_key, timestamp);
    let block_hash = spec_block_hash_of(BlockHash::spec_empty(), h);
    BlockModel {
        previous_hash: BlockHash::spec_empty(),
        header: h,
        transactions: seq![spec_genesis_transaction(private_key)],
        producer: spec_address_of(private_key),
        signature: spec_sign(private_key, block_hash.tag),
        block_hash,
        coinbase_solution: None,
    }
}

impl Ledger {
    /// Creates the ledger holding the operator's genesis block.
    pub fn load(private_key: u64, genesis_timestamp: i64) -> (r: Ledger)
        requires
            genesis_timestamp >= 0,
        ensures
            r@.len() == 1,
            r@[0] == spec_genesis_block(private_key, genesis_timestamp),
            ledger_wf(r@),
            ledger_ids_below(r@, GENESIS_ID_BOUND),
            history_ids(r@, family_fn(Family::TxId)) == seq![GENESIS_TX_ID],
            history_ids(r@, family_fn(Family::InputId)) == Seq::<u64>::empty(),
            history_ids(r@, family_fn(Family::OutputId)) == seq![GENESIS_COMMITMENT],
            history_ids(r@, family_fn(Family::ProgramId)) == Seq::<u64>::empty(),
            history_ids(r@, family_fn(Family::MetadataId)) == Seq::<u64>::empty(),
    {
        let owner = address_of(private_key);
        let genesis_tx = Transaction {
            id: GENESIS_TX_ID,
            program_id: None,
            input_ids: Vec::new(),
            outputs: vec![Output { commitment: GENESIS_COMMITMENT, owner, gates: STARTING_GATES }],
            metadata_ids: Vec::new(),
            fee: -1,
            size_bytes: 0,
            proof_ok: true,
        };
        proof {
            assert(genesis_tx@ =~= spec_genesis_transaction(private_key));
        }
        let mut transactions: Vec<Transaction> = Vec::new();
        transactions.push(genesis_tx);
        proof {
            assert(views_of(transactions@) =~= seq![spec_genesis_transaction(private_key)]);
        }
        let header = Header {
            round: 0,
            height: 0,
            timestamp: genesis_timestamp,
            coinbase_target: GENESIS_COINBASE_TARGET,
            proof_target: proof_target(GENESIS_COINBASE_TARGET),
            last_coinbase_target: GENESIS_COINBASE_TARGET,
            last_coinbase_timestamp: genesis_timestamp,
            state_root: 0,
            transactions_root: transactions_root(&transactions),
            coinbase_accumulator_point: 0,
        };
        proof {
            assert(header == spec_genesis_header(private_key, genesis_timestamp));
        }
        let block_hash = block_hash_of(BlockHash::empty(), &header);
        let signature = sign(private_key, block_hash.tag);
        let genesis = Block {
            previous_hash: BlockHash::empty(),
            header,
            transactions,
            producer: owner,
            signature,
            block_hash,
            coinbase_solution: None,
        };
        proof {
            assert(genesis@ =~= spec_genesis_block(private_key, genesis_timestamp));
        }
        let mut blocks: Vec<Block> = Vec::new();
        blocks.push(genesis);
        let r = Ledger { blocks };
        proof {
            views_of_blocks_is_map(r.blocks@);
            assert(r@.len() == 1);
            assert(r@[0] == spec_genesis_block(private_key, genesis_timestamp));
            lemma_genesis_ledger_wf(private_key, genesis_timestamp, r@);
        }
        r
    }
}

/// The singleton history holding the genesis block is well-formed and claims
/// only identifiers below the genesis bound.
proof fn lemma_genesis_ledger_wf(private_key: u64, timestamp: i64, l: Seq<BlockModel>)
    requires
        timestamp >= 0,
        l.len() == 1,
        l[0] == spec_genesis_block(private_key, timestamp),
    ensures
        ledger_wf(l),
        ledger_ids_below(l, GENESIS_ID_BOUND),
        history_ids(l, family_fn(Family::TxId)) == seq![GENESIS_TX_ID],
        history_ids(l, family_fn(Family::InputId)) == Seq::<u64>::empty(),
        history_ids(l, family_fn(Family::OutputId)) == seq![GENESIS_COMMITMENT],
        history_ids(l, family_fn(Family::ProgramId)) == Seq::<u64>::empty(),
        history_ids(l, family_fn(Family::MetadataId)) == Seq::<u64>::empty(),
{
    let g = spec_genesis_block(private_key, timestamp);
    let gt = spec_genesis_transaction(private_key);
    assert(g.transactions == seq![gt]);
    assert(gt.commitments() =~= seq![GENESIS_COMMITMENT]);
    assert(gt.own_id() =~= seq![GENESIS_TX_ID]);
    assert(gt.program_ids() =~= Seq::<u64>::empty());
    assert(gt.input_ids =~= Seq::<u64>::empty());
    assert(gt.metadata_ids =~= Seq::<u64>::empty());
    assert(gt.well_formed());

    assert(l.drop_last() =~= Seq::<BlockModel>::empty());
    assert(l.last() == g);
    assert(g.transactions.drop_last() =~= Seq::<TxModel>::empty());
    assert(g.transactions.last() == gt);

    lemma_singleton_history(l, g, gt, Family::TxId);
    lemma_singleton_history(l, g, gt, Family::InputId);
    lemma_singleton_history(l, g, gt, Family::OutputId);
    lemma_singleton_history(l, g, gt, Family::ProgramId);
    lemma_singleton_history(l, g, gt, Family::MetadataId);

    assert(history_ids(l, family_fn(Family::TxId)) =~= seq![GENESIS_TX_ID]);
    assert(history_ids(l, family_fn(Family::InputId)) =~= Seq::<u64>::empty());
    assert(history_ids(l, family_fn(Family::OutputId)) =~= seq![GENESIS_COMMITMENT]);
    assert(history_ids(l, family_fn(Family::ProgramId)) =~= Seq::<u64>::empty());
    assert(history_ids(l, family_fn(Family::MetadataId)) =~= Seq::<u64>::empty());
}

/// In a one-block, one-transaction history, a family's identifiers are the
/// transaction's.
proof fn lemma_singleton_history(l: Seq<BlockModel>, g: BlockModel, gt: TxModel, fam: Family)
    requires
        l.len() == 1,
        l[0] == g,
        g.transactions == seq![gt],
    ensures
        history_ids(l, family_fn(fam)) == family_fn(fam)(gt),
{
    let f = family_fn(fam);
    assert(l.drop_last() =~= Seq::<BlockModel>::empty());
    assert(l.last() == g);
    assert(g.transactions.drop_last() =~= Seq::<TxModel>::empty());
    assert(g.transactions.last() == gt);
    assert(family_ids(Seq::<TxModel>::empty(), f) == Seq::<u64>::empty());
    assert(family_ids(g.transactions, f) == Seq::<u64>::empty() + f(gt));
    assert(Seq::<u64>::empty() + f(gt) =~= f(gt));
    assert(history_ids(Seq::<BlockModel>::empty(), f) == Seq::<u64>::empty());
    assert(history_ids(l, f) == Seq::<u64>::empty() + family_ids(g.transactions, f));
    assert(history_ids(l, f) =~= f(gt));
}

/// The output records a batch of transactions produces, in order.
pub open spec fn batch_outputs(txs: Seq<TxModel>) -> Seq<Output>
    decreases txs.len(),
{
    if txs.len() == 0 {
        Seq::empty()
    } else {
        batch_outputs(txs.drop_last()) + txs.last().outputs
    }
}

/// The output records produced anywhere in a history, in history order.
pub open spec fn history_outputs(l: Seq<BlockModel>) -> Seq<Output>
    decreases l.len(),
{
    if l.len() == 0 {
        Seq::empty()
    } else {
        history_outputs(l.drop_last()) + batch_outputs(l.last().transactions)
    }
}

/// A batch holds an output exactly when one of its transactions produces it.
pub proof fn lemma_batch_outputs_contains(txs: Seq<TxModel>, o: Output)
    ensures
        batch_outputs(txs).contains(o) <==> exists|j: int|
            0 <= j < txs.len() && (#[trigger] txs[j]).outputs.contains(o),
    decreases txs.len(),
{
    if txs.len() == 0 {
    } else {
        let prefix = txs.drop_last();
        lemma_batch_outputs_contains(prefix, o);
        lemma_output_seq_add_contains(batch_outputs(prefix), txs.last().outputs, o);
        if exists|j: int| 0 <= j < txs.len() && (#[trigger] txs[j]).outputs.contains(o) {
            let j = choose|j: int| 0 <= j < txs.len() && (#[trigger] txs[j]).outputs.contains(o);
            if j < txs.len() - 1 {
                assert(prefix[j] == txs[j]);
            } else {
                assert(txs[j] == txs.last());
            }
        }
        if batch_outputs(txs).contains(o) {
            if batch_outputs(prefix).contains(o) {
                let j = choose|j: int| 0 <= j < prefix.len() && (#[trigger] prefix[j]).outputs.contains(o);
                assert(txs[j] == prefix[j]);
            } else {
                assert(txs[txs.len() - 1] == txs.last());
            }
        }
    }
}

/// A history holds an output exactly when one of its blocks produces it.
pub proof fn lemma_history_outputs_contains(l: Seq<BlockModel>, o: Output)
    ensures
        history_outputs(l).contains(o) <==> exists|i: int|
            0 <= i < l.len() && batch_outputs((#[trigger] l[i]).transactions).contains(o),
    decreases l.len(),
{
    if l.len() == 0 {
    } else {
        let prefix = l.drop_last();
        lemma_history_outputs_contains(prefix, o);
        lemma_output_seq_add_contains(history_outputs(prefix), batch_outputs(l.last().transactions), o);
        if exists|i: int| 0 <= i < l.len() && batch_outputs((#[trigger] l[i]).transactions).contains(o) {
            let i = choose|i: int|
                0 <= i < l.len() && batch_outputs((#[trigger] l[i]).transactions).contains(o);
            if i < l.len() - 1 {
                assert(prefix[i] == l[i]);
            } else {
                assert(l[i] == l.last());
            }
        }
        if history_outputs(l).contains(o) {
            if history_outputs(prefix).contains(o) {
                let i = choose|i: int|
                    0 <= i < prefix.len()
                    && batch_outputs((#[trigger] prefix[i]).transactions).contains(o);
                assert(l[i] == prefix[i]);
            } else {
                assert(l[l.len() - 1] == l.last());
            }
        }
    }
}

/// Membership in a concatenation of output lists is membership in either
/// part.
pub proof fn lemma_output_seq_add_contains(a: Seq<Output>, b: Seq<Output>, o: Output)
    ensures
        (a + b).contains(o) <==> a.contains(o) || b.contains(o),
{
    if a.contains(o) {
        let i = choose|i: int| 0 <= i < a.len() && a[i] == o;
        assert((a + b)[i] == o);
    }
    if b.contains(o) {
        let i = choose|i: int| 0 <= i < b.len() && b[i] == o;
        assert((a + b)[a.len() + i] == o);
    }
    if (a + b).contains(o) {
        let i = choose|i: int| 0 <= i < (a + b).len() && (a + b)[i] == o;
        if i < a.len() {
            assert(a[i] == o);
        } else {
            assert(b[i - a.len()] == o);
        }
    }
}

/// The commitments of a batch's outputs are its output-identifier family.
pub proof fn lemma_batch_output_commitments(txs: Seq<TxModel>)
    ensures
        batch_outputs(txs).map_values(|o: Output| o.commitment)
            == family_ids(txs, family_fn(Family::OutputId)),
    decreases txs.len(),
{
    let cm = |o: Output| o.commitment;
    if txs.len() == 0 {
        assert(batch_outputs(txs).map_values(cm) =~= family_ids(txs, family_fn(Family::OutputId)));
    } else {
        let prefix = txs.drop_last();
        lemma_batch_output_commitments(prefix);
        assert(batch_outputs(txs) == batch_outputs(prefix) + txs.last().outputs);
        assert((batch_outputs(prefix) + txs.last().outputs).map_values(cm)
            =~= batch_outputs(prefix).map_values(cm) + txs.last().outputs.map_values(cm));
        assert(txs.last().outputs.map_values(cm) == txs.last().commitments());
        assert(family_fn(Family::OutputId)(txs.last()) == txs.last().commitments());
    }
}

/// The commitments of a history's outputs are its output-identifier family.
pub proof fn lemma_history_output_commitments(l: Seq<BlockModel>)
    ensures
        history_outputs(l).map_values(|o: Output| o.commitment)
            == history_ids(l, family_fn(Family::OutputId)),
    decreases l.len(),
{
    let cm = |o: Output| o.commitment;
    if l.len() == 0 {
        assert(history_outputs(l).map_values(cm)
            =~= history_ids(l, family_fn(Family::OutputId)));
    } else {
        let prefix = l.drop_last();
        lemma_history_output_commitments(prefix);
        lemma_batch_output_commitments(l.last().transactions);
        assert(history_outputs(l) == history_outputs(prefix) + batch_outputs(l.last().transactions));
        assert((history_outputs(prefix) + batch_outputs(l.last().transactions)).map_values(cm)
            =~= history_outputs(prefix).map_values(cm)
                + batch_outputs(l.last().transactions).map_values(cm));
    }
}

/// An output record of the operator's that history has produced, has not
/// consumed, and that carries a positive balance.
pub open spec fn spec_is_unspent(l: Seq<BlockModel>, owner: u64, commitment: u64, gates: u64) -> bool {
    &&& history_outputs(l).contains(Output { commitment, owner, gates })
    &&& gates > 0
    &&& !history_ids(l, family_fn(Family::InputId)).contains(commitment)
}

/// The keys of a sequence of records.
pub open spec fn record_keys(s: Seq<(u64, u64)>) -> Seq<u64> {
    s.map_values(|e: (u64, u64)| e.0)
}

impl Ledger {
    /// Every output record produced anywhere in the history, in history
    /// order.
    #[verifier::loop_isolation(false)]
    pub fn all_outputs(&self) -> (r: Vec<Output>)
        ensures
            r@ == history_outputs(self@),
    {
        let mut r: Vec<Output> = Vec::new();
        let n = self.blocks.len();
        proof {
            assert(self@.take(0) =~= Seq::<BlockModel>::empty());
            assert(r@ =~= history_outputs(self@.take(0)));
        }
        for i in 0..n
            invariant
                n == self.blocks.len(),
                r@ == history_outputs(self@.take(i as int)),
        {
            proof {
                views_of_blocks_is_map(self.blocks@);
            }
            let b = &self.blocks[i];
            let m = b.transactions.len();
            let ghost base = r@;
            proof {
                assert(b@.transactions.take(0) =~= Seq::<TxModel>::empty());
                assert(r@ =~= base + batch_outputs(b@.transactions.take(0)));
            }
            for j in 0..m
                invariant
                    m == b.transactions.len(),
                    r@ == base + batch_outputs(b@.transactions.take(j as int)),
            {
                let t = &b.transactions[j];
                let k = t.outputs.len();
                let ghost tx_base = r@;
                for x in 0..k
                    invariant
                        k == t.outputs.len(),
                        r@ == tx_base + t.outputs@.take(x as int),
                {
                    r.push(t.outputs[x]);
                    proof {
                        assert(r@ =~= tx_base + t.outputs@.take(x + 1));
                    }
                }
                proof {
                    assert(t.outputs@.take(k as int) =~= t.outputs@);
                    assert(b@.transactions.take(j + 1).drop_last() =~= b@.transactions.take(j as int));
                    assert(b@.transactions.take(j + 1).last() == b@.transactions[j as int]);
                    assert(b@.transactions[j as int] == b.transactions@[j as int]@);
                    assert(batch_outputs(b@.transactions.take(j + 1))
                        == batch_outputs(b@.transactions.take(j as int)) + t.outputs@);
                    assert(r@ =~= base + batch_outputs(b@.transactions.take(j + 1)));
                }
            }
            proof {
                assert(b@.transactions.take(m as int) =~= b@.transactions);
                assert(self@.take(i + 1).drop_last() =~= self@.take(i as int));
                assert(self@.take(i + 1).last() == self@[i as int]);
                assert(self@[i as int] == b@);
                assert(history_outputs(self@.take(i + 1))
                    == history_outputs(self@.take(i as int)) + batch_outputs(b@.transactions));
                assert(r@ =~= history_outputs(self@.take(i + 1)));
            }
        }
        proof {
            assert(self@.take(n as int) =~= self@);
        }
        r
    }

    /// The operator's unspent records: a full scan of history for outputs
    /// the view key owns, with a positive balance, not yet consumed.
    #[verifier::loop_isolation(false)]
    #[verifier::rlimit(60)]
    pub fn find_unspent_records(&self, view_key: u64) -> (r: Vec<(u64, u64)>)
        requires
            ledger_wf(self@),
        ensures
            forall|k: int|
                0 <= k < r@.len()
                ==> spec_is_unspent(
                    self@,
                    crate::digest::spec_address_of_view_key(view_key),
                    (#[trigger] r@[k]).0,
                    r@[k].1,
                ),
            forall|c: u64, g: u64|
                spec_is_unspent(self@, crate::digest::spec_address_of_view_key(view_key), c, g)
                ==> r@.contains((c, g)),
            record_keys(r@).no_duplicates(),
    {
        let owner = crate::digest::address_of_view_key(view_key);
        let outs = self.all_outputs();
        proof {
            lemma_history_output_commitments(self@);
            assert(history_outputs(self@).map_values(|o: Output| o.commitment).no_duplicates());
        }
        let mut r: Vec<(u64, u64)> = Vec::new();
        let n = outs.len();
        for k in 0..n
            invariant
                n == outs.len(),
                outs@ == history_outputs(self@),
                owner == crate::digest::spec_address_of_view_key(view_key),
                forall|m: int|
                    0 <= m < r@.len()
                    ==> spec_is_unspent(self@, owner, (#[trigger] r@[m]).0, r@[m].1),
                forall|m: int|
                    0 <= m < r@.len()
                    ==> exists|k2: int| 0 <= k2 < k && (#[trigger] r@[m]) == (outs@[k2].commitment, outs@[k2].gates)
                        && outs@[k2].owner == owner,
                forall|k2: int|
                    0 <= k2 < k && (#[trigger] outs@[k2]).owner == owner && outs@[k2].gates > 0
                        && !history_ids(self@, family_fn(Family::InputId)).contains(outs@[k2].commitment)
                    ==> r@.contains((outs@[k2].commitment, outs@[k2].gates)),
                record_keys(r@).no_duplicates(),
        {
            let o = outs[k];
            if o.owner == owner && o.gates > 0 && !self.contains_input_id(o.commitment) {
                let ghost r0 = r@;
                r.push((o.commitment, o.gates));
                proof {
                    assert(outs@[k as int] == o);
                    assert(outs@.contains(outs@[k as int]));
                    assert(spec_is_unspent(self@, owner, o.commitment, o.gates));
                    assert(r@ == r0.push((o.commitment, o.gates)));
                    assert(r@[r0.len() as int] == (o.commitment, o.gates));
                    assert(forall|m: int| 0 <= m < r0.len() ==> #[trigger] r@[m] == r0[m]);
                    assert forall|m: int| 0 <= m < r@.len()
                        implies exists|k2: int|
                            0 <= k2 < k + 1 && (#[trigger] r@[m]) == (outs@[k2].commitment, outs@[k2].gates)
                                && outs@[k2].owner == owner by {
                        if m < r0.len() {
                            assert(r@[m] == r0[m]);
                            let k2 = choose|k2: int|
                                0 <= k2 < k && r0[m] == (outs@[k2].commitment, outs@[k2].gates)
                                    && outs@[k2].owner == owner;
                            assert(0 <= k2 < k + 1 && r@[m] == (outs@[k2].commitment, outs@[k2].gates)
                                && outs@[k2].owner == owner);
                        } else {
                            assert(0 <= k < k + 1 && r@[m] == (outs@[k as int].commitment, outs@[k as int].gates)
                                && outs@[k as int].owner == owner);
                        }
                    }
                    assert forall|k2: int|
                        0 <= k2 < k + 1 && (#[trigger] outs@[k2]).owner == owner && outs@[k2].gates > 0
                            && !history_ids(self@, family_fn(Family::InputId)).contains(outs@[k2].commitment)
                        implies r@.contains((outs@[k2].commitment, outs@[k2].gates)) by {
                        if k2 < k {
                            assert(r0.contains((outs@[k2].commitment, outs@[k2].gates)));
                            let idx = choose|idx: int|
                                0 <= idx < r0.len() && r0[idx] == (outs@[k2].commitment, outs@[k2].gates);
                            assert(r@[idx] == (outs@[k2].commitment, outs@[k2].gates));
                        } else {
                            assert(r@[r0.len() as int] == (outs@[k2].commitment, outs@[k2].gates));
                        }
                    }
                    assert forall|m1: int, m2: int|
                        0 <= m1 < r@.len() && 0 <= m2 < r@.len() && m1 != m2
                        implies record_keys(r@)[m1] != record_keys(r@)[m2] by {
                        if m1 < r0.len() && m2 < r0.len() {
                            assert(record_keys(r0)[m1] == record_keys(r@)[m1]);
                            assert(record_keys(r0)[m2] == record_keys(r@)[m2]);
                        } else {
                            let old_m = if m1 < r0.len() { m1 } else { m2 };
                            assert(r@[old_m] == r0[old_m]);
                            let k2 = choose|k2: int|
                                0 <= k2 < k && r0[old_m] == (outs@[k2].commitment, outs@[k2].gates)
                                    && outs@[k2].owner == owner;
                            let cm = |o2: Output| o2.commitment;
                            if outs@[k2].commitment == o.commitment {
                                assert(outs@.map_values(cm)[k2] == outs@[k2].commitment);
                                assert(outs@.map_values(cm)[k as int] == o.commitment);
                            }
                        }
                    }
                }
            } else {
                proof {
                    assert(outs@[k as int] == o);
                }
            }
        }
        proof {
            assert forall|c: u64, g: u64| spec_is_unspent(self@, owner, c, g)
                implies r@.contains((c, g)) by {
                assert(history_outputs(self@).contains(Output { commitment: c, owner, gates: g }));
                let k2 = choose|k2: int|
                    0 <= k2 < outs@.len() && outs@[k2] == Output { commitment: c, owner, gates: g };
            }
        }
        r
    }

    /// Constructs a transfer transaction consuming the operator's smallest
    /// sufficient unspent record, under fresh identifiers.
    #[verifier::loop_isolation(false)]
    pub fn create_transfer(&self, private_key: u64, to: u64, amount: u64, fresh_id: u64) -> (r:
        Result<Transaction, ConsensusError>)
        requires
            ledger_wf(self@),
            fresh_id <= u64::MAX - 3,
        ensures
            match r {
                Ok(t) => exists|c: u64, g: u64|
                    {
                        &&& spec_is_unspent(self@, spec_address_of(private_key), c, g)
                        &&& g >= amount
                        &&& t@ == spec_transfer(private_key, to, amount, c, g, fresh_id)
                    },
                Err(e) => {
                    &&& e == ConsensusError::TransientResourceExhaustion
                    &&& forall|c: u64, g: u64|
                        spec_is_unspent(self@, spec_address_of(private_key), c, g) ==> g < amount
                },
            },
    {
        let view_key = crate::digest::view_key_of(private_key);
        let records = self.find_unspent_records(view_key);
        let n = records.len();
        let mut best_commitment: u64 = 0;
        let mut best_gates: u64 = 0;
        let mut found = false;
        for k in 0..n
            invariant
                n == records.len(),
                found ==> exists|m: int|
                    0 <= m < k && (#[trigger] records@[m]) == (best_commitment, best_gates),
                found ==> best_gates >= amount,
                !found ==> forall|m: int| 0 <= m < k ==> (#[trigger] records@[m]).1 < amount,
        {
            let (c, g) = records[k];
            if g >= amount && (!found || g < best_gates) {
                best_commitment = c;
                best_gates = g;
                found = true;
                proof {
                    assert(records@[k as int] == (best_commitment, best_gates));
                }
            }
        }
        if !found {
            proof {
                assert forall|c: u64, g: u64|
                    spec_is_unspent(self@, spec_address_of(private_key), c, g)
                    implies g < amount by {
                    assert(records@.contains((c, g)));
                    let m = choose|m: int| 0 <= m < records@.len() && records@[m] == (c, g);
                }
            }
            return Err(ConsensusError::TransientResourceExhaustion);
        }
        let t = build_transfer(private_key, to, amount, best_commitment, best_gates, fresh_id);
        proof {
            let m = choose|m: int|
                0 <= m < records@.len() && records@[m] == (best_commitment, best_gates);
        }
        Ok(t)
    }
}

impl Ledger {
    /// Constructs a deployment of a program id, paying its fee from the
    /// deployer's largest unspent record, under fresh identifiers.
    #[verifier::loop_isolation(false)]
    pub fn create_deploy(
        &self,
        private_key: u64,
        program_id: u64,
        additional_fee: u64,
        fresh_id: u64,
    ) -> (r: Result<Transaction, ConsensusError>)
        requires
            ledger_wf(self@),
            fresh_id <= u64::MAX - 3,
        ensures
            match r {
                Ok(t) => exists|c: u64, g: u64|
                    {
                        &&& spec_is_unspent(self@, spec_address_of(private_key), c, g)
                        &&& g >= additional_fee
                        &&& forall|c2: u64, g2: u64|
                            spec_is_unspent(self@, spec_address_of(private_key), c2, g2)
                                ==> g2 <= g
                        &&& t@ == spec_deployment(
                            private_key,
                            program_id,
                            additional_fee,
                            c,
                            g,
                            fresh_id,
                        )
                    },
                Err(e) => {
                    &&& e == ConsensusError::TransientResourceExhaustion
                    &&& forall|c: u64, g: u64|
                        spec_is_unspent(self@, spec_address_of(private_key), c, g)
                            ==> g < additional_fee
                },
            },
    {
        let view_key = crate::digest::view_key_of(private_key);
        let records = self.find_unspent_records(view_key);
        let n = records.len();
        let mut best_commitment: u64 = 0;
        let mut best_gates: u64 = 0;
        let mut found = false;
        for k in 0..n
            invariant
                n == records.len(),
                found ==> exists|m: int|
                    0 <= m < k && (#[trigger] records@[m]) == (best_commitment, best_gates),
                found == (k > 0),
                forall|m: int| 0 <= m < k ==> (#[trigger] records@[m]).1 <= best_gates,
        {
            let (c, g) = records[k];
            if !found || g > best_gates {
                best_commitment = c;
                best_gates = g;
                found = true;
                proof {
                    assert(records@[k as int] == (best_commitment, best_gates));
                }
            }
        }
        if !found || best_gates < additional_fee {
            proof {
                assert forall|c: u64, g: u64|
                    spec_is_unspent(self@, spec_address_of(private_key), c, g)
                    implies g < additional_fee by {
                    assert(records@.contains((c, g)));
                    let m = choose|m: int| 0 <= m < records@.len() && records@[m] == (c, g);
                }
            }
            return Err(ConsensusError::TransientResourceExhaustion);
        }
        let t = build_deployment(
            private_key,
            program_id,
            additional_fee,
            best_commitment,
            best_gates,
            fresh_id,
        );
        proof {
            let m = choose|m: int|
                0 <= m < records@.len() && records@[m] == (best_commitment, best_gates);
            assert forall|c2: u64, g2: u64|
                spec_is_unspent(self@, spec_address_of(private_key), c2, g2)
                implies g2 <= best_gates by {
                assert(records@.contains((c2, g2)));
                let m2 = choose|m2: int| 0 <= m2 < records@.len() && records@[m2] == (c2, g2);
            }
        }
        Ok(t)
    }
}

/// The deployment transaction claiming a program id, consuming one record to
/// cover its fee and returning the change to the operator, under fresh
/// identifiers.
pub open spec fn spec_deployment(
    private_key: u64,
    program_id: u64,
    additional_fee: u64,
    commitment: u64,
    gates: u64,
    fresh_id: u64,
) -> TxModel {
    TxModel {
        id: fresh_id,
        program_id: Some(program_id),
        input_ids: seq![commitment],
        outputs: if gates > additional_fee {
            seq![
                Output {
                    commitment: (fresh_id + 1) as u64,
                    owner: spec_address_of(private_key),
                    gates: (gates - additional_fee) as u64,
                },
            ]
        } else {
            Seq::empty()
        },
        metadata_ids: Seq::empty(),
        fee: -1i64,
        size_bytes: 0,
        proof_ok: true,
    }
}

/// Builds the deployment transaction `spec_deployment` describes.
pub fn build_deployment(
    private_key: u64,
    program_id: u64,
    additional_fee: u64,
    commitment: u64,
    gates: u64,
    fresh_id: u64,
) -> (r: Transaction)
    requires
        fresh_id <= u64::MAX - 3,
        gates >= additional_fee,
    ensures
        r@ == spec_deployment(private_key, program_id, additional_fee, commitment, gates, fresh_id),
{
    let mut outputs: Vec<Output> = Vec::new();
    if gates > additional_fee {
        outputs.push(Output {
            commitment: fresh_id + 1,
            owner: address_of(private_key),
            gates: gates - additional_fee,
        });
    }
    let mut input_ids: Vec<u64> = Vec::new();
    input_ids.push(commitment);
    let r = Transaction {
        id: fresh_id,
        program_id: Some(program_id),
        input_ids,
        outputs,
        metadata_ids: Vec::new(),
        fee: -1i64,
        size_bytes: 0,
        proof_ok: true,
    };
    proof {
        assert(r@ =~= spec_deployment(
            private_key,
            program_id,
            additional_fee,
            commitment,
            gates,
            fresh_id,
        ));
    }
    r
}

/// The transfer transaction consuming one record, paying the amount to the
/// recipient and returning any change to the operator, under fresh
/// identifiers.
pub open spec fn spec_transfer(
    private_key: u64,
    to: u64,
    amount: u64,
    commitment: u64,
    gates: u64,
    fresh_id: u64,
) -> TxModel {
    TxModel {
        id: fresh_id,
        program_id: None,
        input_ids: seq![commitment],
        outputs: if gates > amount {
            seq![
                Output { commitment: (fresh_id + 1) as u64, owner: to, gates: amount },
                Output {
                    commitment: (fresh_id + 2) as u64,
                    owner: spec_address_of(private_key),
                    gates: (gates - amount) as u64,
                },
            ]
        } else {
            seq![Output { commitment: (fresh_id + 1) as u64, owner: to, gates: amount }]
        },
        metadata_ids: Seq::empty(),
        fee: -1i64,
        size_bytes: 0,
        proof_ok: true,
    }
}

/// Builds the transfer transaction `spec_transfer` describes.
pub fn build_transfer(
    private_key: u64,
    to: u64,
    amount: u64,
    commitment: u64,
    gates: u64,
    fresh_id: u64,
) -> (r: Transaction)
    requires
        fresh_id <= u64::MAX - 3,
        gates >= amount,
    ensures
        r@ == spec_transfer(private_key, to, amount, commitment, gates, fresh_id),
{
    let mut outputs: Vec<Output> = Vec::new();
    outputs.push(Output { commitment: fresh_id + 1, owner: to, gates: amount });
    if gates > amount {
        outputs.push(Output {
            commitment: fresh_id + 2,
            owner: address_of(private_key),
            gates: gates - amount,
        });
    }
    let mut input_ids: Vec<u64> = Vec::new();
    input_ids.push(commitment);
    let r = Transaction {
        id: fresh_id,
        program_id: None,
        input_ids,
        outputs,
        metadata_ids: Vec::new(),
        fee: -1i64,
        size_bytes: 0,
        proof_ok: true,
    };
    proof {
        assert(r@ =~= spec_transfer(private_key, to, amount, commitment, gates, fresh_id));
    }
    r
}


/// Sequencing law: in a well-formed history every committed block sits at
/// the height and round equal to its position, so each accepted block raised
/// both by exactly one; and the rule set refuses a candidate whose height or
/// round is not exactly one past the chain tip.
pub proof fn lemma_committed_sequencing(l: Seq<BlockModel>, b: BlockModel)
    requires
        ledger_wf(l),
    ensures
        forall|i: int| 0 <= i < l.len() ==> (#[trigger] l[i]).header.height == i,
        forall|i: int| 0 <= i < l.len() ==> (#[trigger] l[i]).header.round == i,
        forall|i: int| 1 <= i < l.len() ==> (#[trigger] l[i]).header.height
            == l[i - 1].header.height + 1,
        forall|i: int| 1 <= i < l.len() ==> (#[trigger] l[i]).header.round
            == l[i - 1].header.round + 1,
        b.header.height as int != l.last().header.height + 1 && b.previous_hash
            == l.last().block_hash && !ledger_contains_hash(l, b.block_hash)
            ==> spec_check_block(l, b) == Err::<(), ValidationError>(ValidationError::WrongHeight),
        b.header.height as int == l.last().header.height + 1 && b.header.round as int
            != l.last().header.round + 1 && b.previous_hash == l.last().block_hash
            && !ledger_contains_hash(l, b.block_hash)
            ==> spec_check_block(l, b) == Err::<(), ValidationError>(ValidationError::WrongRound),
{
}

/// Whether a history holds a block sealed by the hash.
pub open spec fn ledger_contains_hash(l: Seq<BlockModel>, h: BlockHash) -> bool {
    exists|i: int| 0 <= i < l.len() && (#[trigger] l[i]).block_hash == h
}

/// Uniqueness law: across a well-formed history, no two distinct committed
/// blocks share an identifier of any family, and within one block no
/// identifier of a family appears twice.
pub proof fn lemma_no_identifier_reuse(l: Seq<BlockModel>, fam: Family)
    requires
        ledger_wf(l),
    ensures
        forall|i1: int, i2: int|
            0 <= i1 < l.len() && 0 <= i2 < l.len() && i1 != i2
            ==> seqs_disjoint(
                family_ids(#[trigger] l[i1].transactions, family_fn(fam)),
                family_ids(#[trigger] l[i2].transactions, family_fn(fam)),
            ),
        forall|i: int|
            0 <= i < l.len()
            ==> family_ids((#[trigger] l[i]).transactions, family_fn(fam)).no_duplicates(),
{
    lemma_history_blocks_disjoint(l, family_fn(fam));
}

/// In a duplicate-free history, distinct blocks claim disjoint identifiers
/// and each block's claims are duplicate-free.
proof fn lemma_history_blocks_disjoint(l: Seq<BlockModel>, f: spec_fn(TxModel) -> Seq<u64>)
    requires
        history_ids(l, f).no_duplicates(),
    ensures
        forall|i1: int, i2: int|
            0 <= i1 < l.len() && 0 <= i2 < l.len() && i1 != i2
            ==> seqs_disjoint(
                family_ids(#[trigger] l[i1].transactions, f),
                family_ids(#[trigger] l[i2].transactions, f),
            ),
        forall|i: int|
            0 <= i < l.len() ==> family_ids((#[trigger] l[i]).transactions, f).no_duplicates(),
    decreases l.len(),
{
    if l.len() == 0 {
    } else {
        let prefix = l.drop_last();
        let last = l.last();
        assert(l[l.len() - 1] == last);
        assert(forall|i: int| 0 <= i < prefix.len() ==> prefix[i] == l[i]);
        assert(history_ids(l, f) == history_ids(prefix, f) + family_ids(last.transactions, f));
        crate::transaction::lemma_no_dup_add(history_ids(prefix, f), family_ids(last.transactions, f));
        lemma_history_blocks_disjoint(prefix, f);
        assert forall|i1: int, i2: int|
            0 <= i1 < l.len() && 0 <= i2 < l.len() && i1 != i2
            implies seqs_disjoint(
                family_ids(#[trigger] l[i1].transactions, f),
                family_ids(#[trigger] l[i2].transactions, f),
            ) by {
            if i1 < l.len() - 1 && i2 < l.len() - 1 {
                assert(l[i1] == prefix[i1]);
                assert(l[i2] == prefix[i2]);
            } else {
                let older = if i1 < i2 { i1 } else { i2 };
                assert(l[older] == prefix[older]);
                assert forall|x: u64| family_ids(l[older].transactions, f).contains(x)
                    implies !family_ids(last.transactions, f).contains(x) by {
                    lemma_history_contains(prefix, f, x);
                    assert(history_ids(prefix, f).contains(x));
                }
                if i1 < i2 {
                } else {
                    assert forall|x: u64| family_ids(last.transactions, f).contains(x)
                        implies !family_ids(l[i2].transactions, f).contains(x) by {
                        if family_ids(l[i2].transactions, f).contains(x) {
                            assert(!family_ids(last.transactions, f).contains(x));
                        }
                    }
                }
            }
        }
    }
}

} // verus!\n