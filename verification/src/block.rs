//! Blocks: ordered batches of confirmed transactions under a sealed header.

use vstd::prelude::*;

use crate::digest::{spec_mix, mix, BlockHash};
use crate::transaction::{views_of, Transaction, TxModel};

verus! {

/// The largest number of transactions a block may carry.
pub const MAX_TRANSACTIONS: usize = 65535;

/// A block header: the metadata a block commits to.
#[derive(Clone, Copy, PartialEq, Eq, Structural, Debug)]
pub struct Header {
    /// The production round, one per committed block.
    pub round: u64,
    /// The block height; the genesis block sits at height zero.
    pub height: u32,
    /// The block timestamp, strictly increasing along the chain.
    pub timestamp: i64,
    /// The stated coinbase target.
    pub coinbase_target: u64,
    /// The stated proof target.
    pub proof_target: u64,
    /// The coinbase target of the last block carrying a coinbase solution.
    pub last_coinbase_target: u64,
    /// The timestamp of the last block carrying a coinbase solution.
    pub last_coinbase_timestamp: i64,
    /// The ledger state root the block was built on.
    pub state_root: u64,
    /// The root committing to the block's transaction list.
    pub transactions_root: u64,
    /// The coinbase accumulator point; the additive identity is zero.
    pub coinbase_accumulator_point: u64,
}

impl Header {
    /// Internal validity of a header: a sound timestamp, and height and round
    /// agreeing on whether this is the genesis block.
    pub open spec fn spec_is_valid(self) -> bool {
        &&& self.timestamp >= 0
        &&& (self.height == 0 <==> self.round == 0)
    }

    /// Internal validity of a header.
    pub fn is_valid(&self) -> (r: bool)
        ensures
            r == self.spec_is_valid(),
    {
        self.timestamp >= 0 && ((self.height == 0) == (self.round == 0))
    }
}

/// A timestamp folded into a tag; negative timestamps share one word, which
/// costs nothing but injectivity the rule set does not rely on.
pub open spec fn spec_time_word(t: i64) -> u64 {
    if t >= 0 {
        t as u64
    } else {
        0
    }
}

/// The tag sealing a header's contents.
pub open spec fn spec_header_seal(h: Header) -> u64 {
    spec_mix(
        spec_mix(
            spec_mix(
                spec_mix(spec_mix(h.round, h.height as u64), spec_time_word(h.timestamp)),
                spec_mix(h.coinbase_target, h.proof_target),
            ),
            spec_mix(h.last_coinbase_target, spec_time_word(h.last_coinbase_timestamp)),
        ),
        spec_mix(spec_mix(h.state_root, h.transactions_root), h.coinbase_accumulator_point),
    )
}

/// The tag sealing a header's contents.
pub fn header_seal(h: &Header) -> (r: u64)
    ensures
        r == spec_header_seal(*h),
{
    let time = if h.timestamp >= 0 { h.timestamp as u64 } else { 0 };
    let last_time = if h.last_coinbase_timestamp >= 0 { h.last_coinbase_timestamp as u64 } else { 0 };
    mix(
        mix(
            mix(
                mix(mix(h.round, h.height as u64), time),
                mix(h.coinbase_target, h.proof_target),
            ),
            mix(h.last_coinbase_target, last_time),
        ),
        mix(mix(h.state_root, h.transactions_root), h.coinbase_accumulator_point),
    )
}

/// The root committing to a transaction list, folded in list order over the
/// content-addressing transaction ids.
pub open spec fn spec_transactions_root(txs: Seq<TxModel>) -> u64
    decreases txs.len(),
{
    if txs.len() == 0 {
        0
    } else {
        spec_mix(spec_transactions_root(txs.drop_last()), txs.last().id)
    }
}

/// The root committing to a transaction list.
pub fn transactions_root(txs: &Vec<Transaction>) -> (r: u64)
    ensures
        r == spec_transactions_root(views_of(txs@)),
{
    let mut r: u64 = 0;
    let n = txs.len();
    proof {
        assert(views_of(txs@).take(0) =~= Seq::empty());
    }
    for i in 0..n
        invariant
            n == txs.len(),
            r == spec_transactions_root(views_of(txs@).take(i as int)),
    {
        r = mix(r, txs[i].id);
        proof {
            assert(views_of(txs@).take(i + 1).drop_last() =~= views_of(txs@).take(i as int));
            assert(views_of(txs@).take(i + 1).last() == txs@[i as int]@);
        }
    }
    proof {
        assert(views_of(txs@).take(n as int) =~= views_of(txs@));
    }
    r
}

/// The hash sealing a block: the previous hash mixed with the header seal,
/// carrying the header's height.
pub open spec fn spec_block_hash_of(previous: BlockHash, h: Header) -> BlockHash {
    BlockHash {
        tag: spec_mix(spec_mix(previous.tag, previous.height as u64), spec_header_seal(h)),
        height: h.height,
    }
}

/// The hash sealing a block.
pub fn block_hash_of(previous: BlockHash, h: &Header) -> (r: BlockHash)
    ensures
        r == spec_block_hash_of(previous, *h),
{
    BlockHash {
        tag: mix(mix(previous.tag, previous.height as u64), header_seal(h)),
        height: h.height,
    }
}

/// A block: confirmed transactions under a sealed, signed header.
#[derive(PartialEq, Eq, Debug)]
pub struct Block {
    /// The hash of the preceding block.
    pub previous_hash: BlockHash,
    /// The header the block commits to.
    pub header: Header,
    /// The confirmed transactions, in block order.
    pub transactions: Vec<Transaction>,
    /// The address of the producing account.
    pub producer: u64,
    /// The producer's signature over the block hash tag.
    pub signature: u64,
    /// The stated block hash.
    pub block_hash: BlockHash,
    /// A coinbase solution; the single-producer engine never attaches one.
    pub coinbase_solution: Option<u64>,
}

/// The mathematical model of a block.
#[verifier::ext_equal]
pub struct BlockModel {
    pub previous_hash: BlockHash,
    pub header: Header,
    pub transactions: Seq<TxModel>,
    pub producer: u64,
    pub signature: u64,
    pub block_hash: BlockHash,
    pub coinbase_solution: Option<u64>,
}

impl View for Block {
    type V = BlockModel;

    open spec fn view(&self) -> BlockModel {
        BlockModel {
            previous_hash: self.previous_hash,
            header: self.header,
            transactions: views_of(self.transactions@),
            producer: self.producer,
            signature: self.signature,
            block_hash: self.block_hash,
            coinbase_solution: self.coinbase_solution,
        }
    }
}

impl Clone for Block {
    fn clone(&self) -> (res: Self)
        ensures
            res@ == self@,
    {
        let res = Block {
            previous_hash: self.previous_hash,
            header: self.header,
            transactions: clone_transactions(&self.transactions),
            producer: self.producer,
            signature: self.signature,
            block_hash: self.block_hash,
            coinbase_solution: self.coinbase_solution,
        };
        proof {
            assert(res@ =~= self@);
        }
        res
    }
}

impl BlockModel {
    /// Whether the block is a well-formed genesis block.
    pub open spec fn spec_is_genesis(self) -> bool {
        &&& self.header.height == 0
        &&& self.header.round == 0
        &&& self.previous_hash == BlockHash::spec_empty()
    }
}

impl Block {
    /// Whether the block is a well-formed genesis block.
    pub fn is_genesis(&self) -> (r: bool)
        ensures
            r == self@.spec_is_genesis(),
    {
        self.header.height == 0 && self.header.round == 0
            && self.previous_hash == BlockHash::empty()
    }

    /// The block's height.
    pub fn height(&self) -> (r: u32)
        ensures
            r == self@.header.height,
    {
        self.header.height
    }

    /// The block's round.
    pub fn round(&self) -> (r: u64)
        ensures
            r == self@.header.round,
    {
        self.header.round
    }

    /// The block's stated hash.
    pub fn hash(&self) -> (r: BlockHash)
        ensures
            r == self@.block_hash,
    {
        self.block_hash
    }

    /// The block's timestamp.
    pub fn timestamp(&self) -> (r: i64)
        ensures
            r == self@.header.timestamp,
    {
        self.header.timestamp
    }
}

/// The models of a sequence of blocks.
pub open spec fn views_of_blocks(bs: Seq<Block>) -> Seq<BlockModel> {
    bs.map_values(|b: Block| b@)
}

/// Taking models commutes with indexing.
pub proof fn views_of_blocks_is_map(bs: Seq<Block>)
    ensures
        views_of_blocks(bs).len() == bs.len(),
        forall|i: int| 0 <= i < bs.len() ==> views_of_blocks(bs)[i] == (#[trigger] bs[i])@,
{
}

/// Taking models commutes with appending one block.
pub proof fn views_of_blocks_push(bs: Seq<Block>, b: Block)
    ensures
        views_of_blocks(bs.push(b)) == views_of_blocks(bs).push(b@),
{
    assert(views_of_blocks(bs.push(b)) =~= views_of_blocks(bs).push(b@));
}

/// Copies a transaction list, preserving its model.
pub fn clone_transactions(txs: &Vec<Transaction>) -> (r: Vec<Transaction>)
    ensures
        views_of(r@) == views_of(txs@),
{
    let mut r: Vec<Transaction> = Vec::new();
    let n = txs.len();
    for i in 0..n
        invariant
            n == txs.len(),
            r@.len() == i,
            forall|k: int| 0 <= k < i ==> (#[trigger] r@[k])@ == txs@[k]@,
    {
        r.push(txs[i].clone());
    }
    proof {
        assert forall|k: int| 0 <= k < n implies views_of(r@)[k] == views_of(txs@)[k] by {
            assert(r@[k]@ == txs@[k]@);
        }
        assert(views_of(r@) =~= views_of(txs@));
    }
    r
}

} // verus!
