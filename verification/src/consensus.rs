//! The consensus engine: turning pool contents into validated, committed
//! blocks while preserving every safety invariant of the ledger.

use vstd::prelude::*;

use crate::block::{
    block_hash_of, spec_block_hash_of, spec_transactions_root, transactions_root, Block,
    BlockModel, Header, MAX_TRANSACTIONS,
};
use crate::digest::{
    address_of, lemma_sign_verifies, mix, sign, spec_address_of, spec_mix, spec_sign,
};
use crate::error::{ConsensusError, ValidationError};
use crate::ledger::{
    basic_ok, block_family_fresh, family_fn, family_of, history_ids, ledger_wf, spec_check_block,
    spec_check_transaction, Family, Ledger,
};
use crate::target::{coinbase_target, proof_target, spec_coinbase_target, spec_proof_target};
use crate::transaction::{
    family_ids, lemma_family_contains, lemma_family_push, lemma_no_dup_add, seqs_disjoint,
    views_of, Transaction, TxModel,
};
use crate::pool::{pool_contains_id, TransactionPool};

verus! {

/// Conflict is symmetric: two transactions share an identifier in some
/// family no matter which way round they are asked.
pub proof fn lemma_conflicts_symmetric(a: TxModel, b: TxModel)
    ensures
        a.conflicts_with(b) == b.conflicts_with(a),
{
}

/// Two transactions claiming a common identifier in any one family conflict.
pub proof fn lemma_common_family_conflicts(a: TxModel, b: TxModel, fam: Family, x: u64)
    requires
        family_of(fam, a).contains(x),
        family_of(fam, b).contains(x),
    ensures
        a.conflicts_with(b),
{
    match fam {
        Family::TxId => {
            let i = choose|i: int| 0 <= i < a.own_id().len() && a.own_id()[i] == x;
            let j = choose|j: int| 0 <= j < b.own_id().len() && b.own_id()[j] == x;
            assert(a.own_id()[i] == a.id);
            assert(b.own_id()[j] == b.id);
        },
        Family::InputId => {
            assert(a.input_ids.contains(x) && b.input_ids.contains(x));
        },
        Family::OutputId => {
            assert(a.commitments().contains(x) && b.commitments().contains(x));
        },
        Family::ProgramId => {
            assert(a.program_ids().contains(x) && b.program_ids().contains(x));
        },
        Family::MetadataId => {
            assert(a.metadata_ids.contains(x) && b.metadata_ids.contains(x));
        },
    }
}

/// An element of a filtered sequence is an element of the sequence.
pub proof fn lemma_filter_member(p: Seq<TxModel>, pred: spec_fn(TxModel) -> bool, x: TxModel)
    requires
        p.filter(pred).contains(x),
    ensures
        p.contains(x),
    decreases p.len(),
{
    reveal(Seq::filter);
    if p.len() == 0 {
    } else {
        let sub = p.drop_last().filter(pred);
        if pred(p.last()) {
            if x == p.last() {
                assert(p[p.len() - 1] == p.last());
            } else {
                let i = choose|i: int| 0 <= i < p.filter(pred).len() && p.filter(pred)[i] == x;
                assert(sub[i] == x);
                lemma_filter_member(p.drop_last(), pred, x);
                let j = choose|j: int| 0 <= j < p.drop_last().len() && p.drop_last()[j] == x;
                assert(p[j] == x);
            }
        } else {
            lemma_filter_member(p.drop_last(), pred, x);
            let j = choose|j: int| 0 <= j < p.drop_last().len() && p.drop_last()[j] == x;
            assert(p[j] == x);
        }
    }
}

/// A staged set is pairwise conflict-free.
pub open spec fn pairwise_conflict_free(p: Seq<TxModel>) -> bool {
    forall|i: int, j: int|
        0 <= i < p.len() && 0 <= j < p.len() && i != j
        ==> !(#[trigger] p[i]).conflicts_with(#[trigger] p[j])
}

/// Filtering keeps a staged set pairwise conflict-free.
pub proof fn lemma_pairwise_filter(p: Seq<TxModel>, pred: spec_fn(TxModel) -> bool)
    requires
        pairwise_conflict_free(p),
    ensures
        pairwise_conflict_free(p.filter(pred)),
    decreases p.len(),
{
    reveal(Seq::filter);
    if p.len() == 0 {
    } else {
        let prefix = p.drop_last();
        assert(pairwise_conflict_free(prefix)) by {
            assert forall|i: int, j: int|
                0 <= i < prefix.len() && 0 <= j < prefix.len() && i != j
                implies !(#[trigger] prefix[i]).conflicts_with(#[trigger] prefix[j]) by {
                assert(prefix[i] == p[i]);
                assert(prefix[j] == p[j]);
            }
        }
        lemma_pairwise_filter(prefix, pred);
        let sub = prefix.filter(pred);
        if pred(p.last()) {
            let q = p.filter(pred);
            assert(q == sub.push(p.last()));
            assert forall|i: int, j: int|
                0 <= i < q.len() && 0 <= j < q.len() && i != j
                implies !(#[trigger] q[i]).conflicts_with(#[trigger] q[j]) by {
                if i < sub.len() && j < sub.len() {
                    assert(q[i] == sub[i]);
                    assert(q[j] == sub[j]);
                } else if i < sub.len() && j == sub.len() {
                    assert(q[i] == sub[i]);
                    assert(q[j] == p.last());
                    assert(sub.contains(sub[i]));
                    lemma_filter_member(prefix, pred, sub[i]);
                    let k = choose|k: int| 0 <= k < prefix.len() && prefix[k] == sub[i];
                    assert(p[k] == sub[i]);
                    assert(p[p.len() - 1] == p.last());
                    assert(!p[k].conflicts_with(p[p.len() - 1]));
                } else {
                    assert(j < sub.len() && i == sub.len());
                    assert(q[j] == sub[j]);
                    assert(q[i] == p.last());
                    assert(sub.contains(sub[j]));
                    lemma_filter_member(prefix, pred, sub[j]);
                    let k = choose|k: int| 0 <= k < prefix.len() && prefix[k] == sub[j];
                    assert(p[k] == sub[j]);
                    assert(p[p.len() - 1] == p.last());
                    assert(!p[p.len() - 1].conflicts_with(p[k]));
                    lemma_conflicts_symmetric(p.last(), sub[j]);
                }
            }
        }
    }
}

/// A prefix of a staged set keeps both coherence properties.
pub proof fn lemma_pairwise_take(p: Seq<TxModel>, n: int)
    requires
        pairwise_conflict_free(p),
        0 <= n <= p.len(),
    ensures
        pairwise_conflict_free(p.take(n)),
{
    assert forall|i: int, j: int|
        0 <= i < p.take(n).len() && 0 <= j < p.take(n).len() && i != j
        implies !(#[trigger] p.take(n)[i]).conflicts_with(#[trigger] p.take(n)[j]) by {
        assert(p.take(n)[i] == p[i]);
        assert(p.take(n)[j] == p[j]);
    }
}

/// In a well-formed, pairwise conflict-free batch, no identifier family
/// holds a value twice.
pub proof fn lemma_family_nodup_of_pairwise(txs: Seq<TxModel>, fam: Family)
    requires
        forall|i: int| 0 <= i < txs.len() ==> (#[trigger] txs[i]).well_formed(),
        pairwise_conflict_free(txs),
    ensures
        family_ids(txs, family_fn(fam)).no_duplicates(),
    decreases txs.len(),
{
    let f = family_fn(fam);
    if txs.len() == 0 {
    } else {
        let prefix = txs.drop_last();
        let last = txs.last();
        assert(forall|i: int| 0 <= i < prefix.len() ==> prefix[i] == txs[i]);
        assert(pairwise_conflict_free(prefix)) by {
            assert forall|i: int, j: int|
                0 <= i < prefix.len() && 0 <= j < prefix.len() && i != j
                implies !(#[trigger] prefix[i]).conflicts_with(#[trigger] prefix[j]) by {
                assert(prefix[i] == txs[i]);
                assert(prefix[j] == txs[j]);
            }
        }
        lemma_family_nodup_of_pairwise(prefix, fam);
        assert(f(last).no_duplicates()) by {
            assert(txs[txs.len() - 1] == last);
            assert(last.well_formed());
            match fam {
                Family::TxId => {
                    assert(last.own_id().len() == 1);
                },
                Family::InputId => {},
                Family::OutputId => {},
                Family::ProgramId => {
                    assert(last.program_ids().len() <= 1);
                },
                Family::MetadataId => {},
            }
        }
        assert(seqs_disjoint(family_ids(prefix, f), f(last))) by {
            assert forall|x: u64| family_ids(prefix, f).contains(x)
                implies !f(last).contains(x) by {
                lemma_family_contains(prefix, f, x);
                let j = choose|j: int| 0 <= j < prefix.len() && f(prefix[j]).contains(x);
                if f(last).contains(x) {
                    lemma_common_family_conflicts(prefix[j], last, fam, x);
                    assert(txs[j] == prefix[j]);
                    assert(txs[txs.len() - 1] == last);
                }
            }
        }
        assert(txs =~= prefix.push(last));
        lemma_family_push(prefix, last, f);
        assert(family_ids(txs, f) == family_ids(prefix, f) + f(last));
        lemma_no_dup_add(family_ids(prefix, f), f(last));
    }
}

/// A transaction the basic check accepts claims nothing a history already
/// holds, in any family.
pub proof fn lemma_check_gives_fresh(l: Seq<BlockModel>, t: TxModel, fam: Family)
    requires
        spec_check_transaction(l, t) == Ok::<(), ConsensusError>(()),
    ensures
        seqs_disjoint(family_of(fam, t), history_ids(l, family_fn(fam))),
{
    match fam {
        Family::TxId => {
            assert forall|x: u64| t.own_id().contains(x)
                implies !history_ids(l, family_fn(fam)).contains(x) by {
                let i = choose|i: int| 0 <= i < t.own_id().len() && t.own_id()[i] == x;
                assert(t.own_id()[i] == t.id);
            }
        },
        Family::InputId => {},
        Family::OutputId => {},
        Family::ProgramId => {},
        Family::MetadataId => {},
    }
}

/// Coherence of a staged set against a history: every staged transaction
/// passes the basic check, and no two staged transactions conflict.
pub open spec fn pool_coherent(l: Seq<BlockModel>, p: Seq<TxModel>) -> bool {
    &&& forall|i: int|
        0 <= i < p.len()
        ==> spec_check_transaction(l, #[trigger] p[i]) == Ok::<(), ConsensusError>(())
    &&& pairwise_conflict_free(p)
}

/// The candidate batch for the next block: the staged transactions the basic
/// check accepts, in pool order, cut to the block size limit.
pub open spec fn spec_candidates(l: Seq<BlockModel>, p: Seq<TxModel>) -> Seq<TxModel> {
    let all = p.filter(basic_ok(l));
    if all.len() > MAX_TRANSACTIONS { all.take(MAX_TRANSACTIONS as int) } else { all }
}

/// The timestamp a proposal built now carries: the clock reading, pushed up
/// just past the chain tip if the clock lags it.
pub open spec fn spec_next_timestamp(l: Seq<BlockModel>, now: i64) -> i64 {
    if now > l.last().header.timestamp {
        now
    } else {
        (l.last().header.timestamp + 1) as i64
    }
}

/// The header of the proposal built from a candidate batch.
pub open spec fn spec_proposal_header(l: Seq<BlockModel>, cands: Seq<TxModel>, now: i64) -> Header {
    let latest = l.last();
    let ts = spec_next_timestamp(l, now);
    let ct = spec_coinbase_target(
        latest.header.last_coinbase_target,
        latest.header.last_coinbase_timestamp,
        ts,
    );
    Header {
        round: (latest.header.round + 1) as u64,
        height: (latest.header.height + 1) as u32,
        timestamp: ts,
        coinbase_target: ct,
        proof_target: spec_proof_target(ct),
        last_coinbase_target: latest.header.last_coinbase_target,
        last_coinbase_timestamp: latest.header.last_coinbase_timestamp,
        state_root: spec_mix(latest.header.state_root, latest.block_hash.tag),
        transactions_root: spec_transactions_root(cands),
        coinbase_accumulator_point: 0,
    }
}

/// The candidate block proposed on top of a history from a staged set.
pub open spec fn spec_proposal(
    l: Seq<BlockModel>,
    p: Seq<TxModel>,
    private_key: u64,
    now: i64,
) -> BlockModel {
    let cands = spec_candidates(l, p);
    let h = spec_proposal_header(l, cands, now);
    let latest = l.last();
    let bh = spec_block_hash_of(latest.block_hash, h);
    BlockModel {
        previous_hash: latest.block_hash,
        header: h,
        transactions: cands,
        producer: spec_address_of(private_key),
        signature: spec_sign(private_key, bh.tag),
        block_hash: bh,
        coinbase_solution: None,
    }
}

/// A proposal built from a coherent, non-empty candidate batch on a
/// well-formed history passes the whole admission rule set.
pub proof fn lemma_proposal_valid(l: Seq<BlockModel>, p: Seq<TxModel>, private_key: u64, now: i64)
    requires
        ledger_wf(l),
        pool_coherent(l, p),
        spec_candidates(l, p).len() >= 1,
        l.last().header.height < u32::MAX,
        l.last().header.round < u64::MAX,
        l.last().header.timestamp < i64::MAX,
    ensures
        spec_check_block(l, spec_proposal(l, p, private_key, now))
            == Ok::<(), ValidationError>(()),
{
    let b = spec_proposal(l, p, private_key, now);
    let cands = spec_candidates(l, p);
    let all = p.filter(basic_ok(l));
    let latest = l.last();
    let n = l.len() as int;
    assert(latest == l[n - 1]);
    assert(latest.header.height == n - 1);
    assert(latest.header.round == n - 1);
    assert(latest.header.timestamp >= 0);
    assert(latest.block_hash.height == n - 1);

    // Every candidate passes the basic check and is well-formed.
    assert forall|j: int| 0 <= j < cands.len()
        implies spec_check_transaction(l, #[trigger] cands[j]) == Ok::<(), ConsensusError>(()) by {
        if all.len() > MAX_TRANSACTIONS {
            assert(cands[j] == all[j]);
        }
        p.lemma_filter_pred(basic_ok(l), j);
        assert(basic_ok(l)(all[j]));
    }
    assert(forall|j: int| 0 <= j < cands.len() ==> (#[trigger] cands[j]).well_formed());

    // The candidates stay pairwise conflict-free.
    lemma_pairwise_filter(p, basic_ok(l));
    if all.len() > MAX_TRANSACTIONS {
        lemma_pairwise_take(all, MAX_TRANSACTIONS as int);
    }
    assert(pairwise_conflict_free(cands));

    // Rule 1: linkage.
    assert(b.previous_hash == latest.block_hash);

    // Rule 2: the hash is fresh, because it carries the new height.
    assert(b.block_hash.height == b.header.height);
    assert(b.header.height == n);
    assert forall|i: int| 0 <= i < l.len() implies (#[trigger] l[i]).block_hash != b.block_hash by {
        assert(l[i].block_hash.height == i);
    }

    // Rules 3 to 5: sequencing and timestamp.
    assert(b.header.height as int == latest.header.height + 1);
    assert(b.header.round as int == latest.header.round + 1);
    assert(b.header.timestamp > latest.header.timestamp);

    // Rules 6 to 9: family freshness, within the block and against history.
    assert forall|fam: Family| true implies #[trigger] block_family_fresh(l, b, fam) by {
        lemma_family_nodup_of_pairwise(cands, fam);
        assert forall|x: u64| family_ids(cands, family_fn(fam)).contains(x)
            implies !history_ids(l, family_fn(fam)).contains(x) by {
            lemma_family_contains(cands, family_fn(fam), x);
            let j = choose|j: int|
                0 <= j < cands.len() && family_fn(fam)(cands[j]).contains(x);
            lemma_check_gives_fresh(l, cands[j], fam);
        }
    }
    assert(block_family_fresh(l, b, Family::TxId));
    assert(block_family_fresh(l, b, Family::InputId));
    assert(block_family_fresh(l, b, Family::OutputId));
    assert(block_family_fresh(l, b, Family::ProgramId));
    assert(block_family_fresh(l, b, Family::MetadataId));

    // Rules 10 to 13: genesis, header validity, no coinbase.
    assert(b.header.height != 0);
    assert(b.header.timestamp >= 0);
    assert(b.header.round != 0);
    assert(b.header.spec_is_valid());

    // Rules 14 to 18: last-coinbase fields, targets, hash, all by
    // construction with the same deterministic functions.

    // Rule 19: the signature verifies against the producer address.
    lemma_sign_verifies(private_key, b.block_hash.tag);

    // Rules 20 to 22: root by construction, and the batch is non-empty and
    // within the size limit.
    assert(b.transactions.len() >= 1);
    assert(b.transactions.len() <= MAX_TRANSACTIONS);

    // Rule 23: every candidate passes the basic check.
    assert(spec_check_block(l, b) == Ok::<(), ValidationError>(()));
}

/// The single-producer consensus engine: the ledger and the pool it stages
/// transactions in, kept coherent with each other.
pub struct SingleNodeConsensus {
    ledger: Ledger,
    memory_pool: TransactionPool,
}

impl SingleNodeConsensus {
    /// The committed history.
    pub closed spec fn spec_ledger(&self) -> Seq<BlockModel> {
        self.ledger@
    }

    /// The staged set.
    pub closed spec fn spec_pool(&self) -> Seq<TxModel> {
        self.memory_pool@
    }

    /// Engine well-formedness: the history is well-formed and the staged set
    /// is coherent with it.
    pub open spec fn wf(&self) -> bool {
        &&& ledger_wf(self.spec_ledger())
        &&& pool_coherent(self.spec_ledger(), self.spec_pool())
    }

    /// Creates an engine over a ledger, with an empty pool.
    pub fn new(ledger: Ledger) -> (r: Result<SingleNodeConsensus, ConsensusError>)
        ensures
            match r {
                Ok(c) => {
                    &&& c.spec_ledger() == ledger@
                    &&& c.spec_pool() == Seq::<TxModel>::empty()
                    &&& ledger_wf(ledger@) ==> c.wf()
                },
                Err(_) => false,
            },
    {
        let c = SingleNodeConsensus { ledger, memory_pool: TransactionPool::new() };
        Ok(c)
    }

    /// The memory pool.
    pub fn memory_pool(&self) -> (r: &TransactionPool)
        ensures
            r@ == self.spec_pool(),
    {
        &self.memory_pool
    }

    /// The ledger.
    pub fn ledger(&self) -> (r: &Ledger)
        ensures
            r@ == self.spec_ledger(),
    {
        &self.ledger
    }

    /// Checks a transaction's basic validity against the ledger.
    pub fn check_transaction_basic(&self, transaction: &Transaction) -> (r: Result<
        (),
        ConsensusError,
    >)
        ensures
            r == spec_check_transaction(self.spec_ledger(), transaction@),
    {
        self.ledger.check_transaction_basic(transaction)
    }

    /// The result staging a transaction must have: a duplicate or conflicting
    /// identifier is refused before the basic check result is surfaced.
    pub open spec fn spec_admit(
        l: Seq<BlockModel>,
        p: Seq<TxModel>,
        t: TxModel,
    ) -> Result<(), ConsensusError> {
        if pool_contains_id(p, t.id) {
            Err(ConsensusError::DuplicateOrConflicting)
        } else if spec_check_transaction(l, t) != Ok::<(), ConsensusError>(()) {
            spec_check_transaction(l, t)
        } else if exists|i: int| 0 <= i < p.len() && (#[trigger] p[i]).conflicts_with(t) {
            Err(ConsensusError::DuplicateOrConflicting)
        } else {
            Ok(())
        }
    }

    /// Stages a transaction, refusing duplicates, conflicts with staged or
    /// confirmed identifiers, and basic-validity failures.
    pub fn add_unconfirmed_transaction(&mut self, transaction: Transaction) -> (r: Result<
        (),
        ConsensusError,
    >)
        requires
            old(self).wf(),
        ensures
            final(self).wf(),
            final(self).spec_ledger() == old(self).spec_ledger(),
            r == Self::spec_admit(old(self).spec_ledger(), old(self).spec_pool(), transaction@),
            match r {
                Ok(()) => final(self).spec_pool() == old(self).spec_pool().push(transaction@),
                Err(_) => final(self).spec_pool() == old(self).spec_pool(),
            },
    {
        if self.memory_pool.contains(transaction.id) {
            return Err(ConsensusError::DuplicateOrConflicting);
        }
        if let Err(e) = self.ledger.check_transaction_basic(&transaction) {
            return Err(e);
        }
        if self.memory_pool.conflicts_any(&transaction) {
            return Err(ConsensusError::DuplicateOrConflicting);
        }
        let ghost p0 = self.spec_pool();
        let ghost t = transaction@;
        match self.memory_pool.add(transaction) {
            Ok(()) => {
                proof {
                    let p2 = p0.push(t);
                    assert forall|i: int, j: int|
                        0 <= i < p2.len() && 0 <= j < p2.len() && i != j
                        implies !(#[trigger] p2[i]).conflicts_with(#[trigger] p2[j]) by {
                        if i < p0.len() && j < p0.len() {
                            assert(p2[i] == p0[i]);
                            assert(p2[j] == p0[j]);
                        } else if i < p0.len() && j == p0.len() {
                            assert(p2[i] == p0[i]);
                            assert(p2[j] == t);
                        } else {
                            assert(p2[i] == t);
                            assert(p2[j] == p0[j]);
                            lemma_conflicts_symmetric(t, p0[j]);
                        }
                    }
                }
                Ok(())
            },
            Err(e) => {
                proof {
                    assert(false);
                }
                Err(e)
            },
        }
    }

    /// Checks whether a block is a valid next block for the ledger.
    pub fn check_next_block(&self, block: &Block) -> (r: Result<(), ValidationError>)
        requires
            self.spec_ledger().len() >= 1,
        ensures
            r == spec_check_block(self.spec_ledger(), block@),
    {
        self.ledger.check_next_block(block)
    }

    /// Builds a candidate next block from the pool at a given clock reading,
    /// signed by the producer key; refuses an empty candidate batch.
    pub fn propose_next_block_at(&self, private_key: u64, now: i64) -> (r: Result<
        Block,
        ConsensusError,
    >)
        requires
            self.wf(),
            self.spec_ledger().last().header.height < u32::MAX,
            self.spec_ledger().last().header.round < u64::MAX,
            self.spec_ledger().last().header.timestamp < i64::MAX,
        ensures
            match r {
                Ok(b) => {
                    &&& b@ == spec_proposal(self.spec_ledger(), self.spec_pool(), private_key, now)
                    &&& spec_check_block(self.spec_ledger(), b@) == Ok::<(), ValidationError>(())
                    &&& spec_candidates(self.spec_ledger(), self.spec_pool()).len() >= 1
                },
                Err(e) => {
                    &&& e == ConsensusError::TransientResourceExhaustion
                    &&& spec_candidates(self.spec_ledger(), self.spec_pool()).len() == 0
                },
            },
    {
        let ghost l = self.spec_ledger();
        let ghost p = self.spec_pool();
        let mut candidates = self.memory_pool.candidates(&self.ledger);
        if candidates.len() > MAX_TRANSACTIONS {
            candidates.truncate(MAX_TRANSACTIONS);
            proof {
                assert(views_of(candidates@) =~= p.filter(basic_ok(l)).take(MAX_TRANSACTIONS as int));
            }
        }
        proof {
            assert(views_of(candidates@) == spec_candidates(l, p));
        }
        if candidates.len() == 0 {
            return Err(ConsensusError::TransientResourceExhaustion);
        }
        let latest_hash = self.ledger.latest_hash();
        let latest = self.ledger.latest_block();
        let latest_timestamp = latest.header.timestamp;
        let ts = if now > latest_timestamp { now } else { latest_timestamp + 1 };
        let ct = coinbase_target(
            latest.header.last_coinbase_target,
            latest.header.last_coinbase_timestamp,
            ts,
        );
        let header = Header {
            round: latest.header.round + 1,
            height: latest.header.height + 1,
            timestamp: ts,
            coinbase_target: ct,
            proof_target: proof_target(ct),
            last_coinbase_target: latest.header.last_coinbase_target,
            last_coinbase_timestamp: latest.header.last_coinbase_timestamp,
            state_root: mix(latest.header.state_root, latest.block_hash.tag),
            transactions_root: transactions_root(&candidates),
            coinbase_accumulator_point: 0,
        };
        let block_hash = block_hash_of(latest_hash, &header);
        let signature = sign(private_key, block_hash.tag);
        let producer = address_of(private_key);
        let block = Block {
            previous_hash: latest_hash,
            header,
            transactions: candidates,
            producer,
            signature,
            block_hash,
            coinbase_solution: None,
        };
        proof {
            assert(block@ =~= spec_proposal(l, p, private_key, now));
            lemma_proposal_valid(l, p, private_key, now);
        }
        Ok(block)
    }

    /// Builds a candidate next block from the pool at the current wall-clock
    /// time, signed by the producer key.
    pub fn propose_next_block(&self, private_key: u64) -> (r: Result<Block, ConsensusError>)
        requires
            self.wf(),
            self.spec_ledger().last().header.height < u32::MAX,
            self.spec_ledger().last().header.round < u64::MAX,
            self.spec_ledger().last().header.timestamp < i64::MAX,
        ensures
            match r {
                Ok(b) => {
                    &&& exists|now: i64|
                        b@ == spec_proposal(
                            self.spec_ledger(),
                            self.spec_pool(),
                            private_key,
                            now,
                        )
                    &&& spec_check_block(self.spec_ledger(), b@) == Ok::<(), ValidationError>(())
                },
                Err(e) => {
                    &&& e == ConsensusError::TransientResourceExhaustion
                    &&& spec_candidates(self.spec_ledger(), self.spec_pool()).len() == 0
                },
            },
    {
        let now = crate::clock::now_unix_timestamp();
        let r = self.propose_next_block_at(private_key, now);
        proof {
            if r is Ok {
                assert(r->Ok_0@ == spec_proposal(
                    self.spec_ledger(),
                    self.spec_pool(),
                    private_key,
                    now,
                ));
            }
        }
        r
    }

    /// Commits a block through the ledger. On refusal the pool is cleared and
    /// the failure surfaced; on success the pool is pruned of entries the new
    /// history invalidates.
    pub fn advance_to_next_block(&mut self, block: &Block) -> (r: Result<(), ConsensusError>)
        requires
            old(self).wf(),
        ensures
            final(self).wf(),
            match r {
                Ok(()) => {
                    &&& spec_check_block(old(self).spec_ledger(), block@)
                        == Ok::<(), ValidationError>(())
                    &&& final(self).spec_ledger() == old(self).spec_ledger().push(block@)
                    &&& final(self).spec_pool() == old(self).spec_pool().filter(
                        basic_ok(final(self).spec_ledger()),
                    )
                },
                Err(e) => {
                    &&& e == ConsensusError::LedgerCommitFailure
                    &&& spec_check_block(old(self).spec_ledger(), block@) is Err
                    &&& final(self).spec_ledger() == old(self).spec_ledger()
                    &&& final(self).spec_pool() == Seq::<TxModel>::empty()
                },
            },
    {
        let ghost p0 = self.spec_pool();
        match self.ledger.add_next_block(block) {
            Ok(()) => {
                let ghost l2 = self.spec_ledger();
                self.memory_pool.remove_invalid(&self.ledger);
                proof {
                    let q = p0.filter(basic_ok(l2));
                    assert forall|i: int| 0 <= i < q.len()
                        implies spec_check_transaction(l2, #[trigger] q[i])
                            == Ok::<(), ConsensusError>(()) by {
                        p0.lemma_filter_pred(basic_ok(l2), i);
                        assert(basic_ok(l2)(q[i]));
                    }
                    lemma_pairwise_filter(p0, basic_ok(l2));
                }
                Ok(())
            },
            Err(_) => {
                self.memory_pool.clear();
                Err(ConsensusError::LedgerCommitFailure)
            },
        }
    }

    /// Prunes the pool of entries the basic check now rejects, committing
    /// nothing.
    pub fn refresh_memory_pool(&mut self) -> (r: Result<(), ConsensusError>)
        requires
            old(self).wf(),
        ensures
            final(self).wf(),
            r is Ok,
            final(self).spec_ledger() == old(self).spec_ledger(),
            final(self).spec_pool() == old(self).spec_pool().filter(
                basic_ok(old(self).spec_ledger()),
            ),
    {
        let ghost l = self.spec_ledger();
        let ghost p0 = self.spec_pool();
        self.memory_pool.remove_invalid(&self.ledger);
        proof {
            let q = p0.filter(basic_ok(l));
            assert forall|i: int| 0 <= i < q.len()
                implies spec_check_transaction(l, #[trigger] q[i])
                    == Ok::<(), ConsensusError>(()) by {
                p0.lemma_filter_pred(basic_ok(l), i);
                assert(basic_ok(l)(q[i]));
            }
            lemma_pairwise_filter(p0, basic_ok(l));
        }
        Ok(())
    }

    /// Wipes the pool entirely, committing nothing.
    pub fn clear_memory_pool(&mut self) -> (r: Result<(), ConsensusError>)
        requires
            old(self).wf(),
        ensures
            final(self).wf(),
            r is Ok,
            final(self).spec_ledger() == old(self).spec_ledger(),
            final(self).spec_pool() == Seq::<TxModel>::empty(),
    {
        self.memory_pool.clear();
        Ok(())
    }
}


/// Idempotence law: a second `clear_memory_pool` finds and leaves exactly
/// the observable state the first one left — the same ledger, and a pool
/// that is already and stays empty — so clearing twice is clearing once.
pub proof fn lemma_clear_memory_pool_idempotent(
    ledger_after_first: Seq<BlockModel>,
    pool_after_first: Seq<TxModel>,
    ledger_after_second: Seq<BlockModel>,
    pool_after_second: Seq<TxModel>,
)
    requires
        // what clear_memory_pool ensures of its first call
        pool_after_first == Seq::<TxModel>::empty(),
        // what clear_memory_pool ensures of a second call on that state
        ledger_after_second == ledger_after_first,
        pool_after_second == Seq::<TxModel>::empty(),
    ensures
        ledger_after_second == ledger_after_first,
        pool_after_second == pool_after_first,
{
}

} // verus!\n