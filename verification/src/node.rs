//! The development beacon: a single node producing blocks on a timed cycle.
//!
//! The beacon owns the consensus engine, the operator's account and record
//! tracker, and the production state: the rolling block-generation duration,
//! the cooperative shutdown flag, and a fresh-identifier counter kept
//! strictly above every identifier the ledger or the pool has ever claimed,
//! from which synthesized transactions draw provably fresh identifiers.

use vstd::prelude::*;

use crate::block::Block;
use crate::consensus::{pool_coherent, spec_candidates, spec_proposal, SingleNodeConsensus};
use crate::digest::{spec_address_of, spec_view_key_of, address_of, view_key_of};
use crate::error::{ConsensusError, ValidationError};
use crate::ledger::{
    basic_ok, family_fn, family_of, history_ids, ledger_ids_below, ledger_wf, record_keys,
    spec_check_block, spec_check_transaction, spec_deployment, spec_genesis_block, spec_transfer,
    build_transfer, Family, Ledger, GENESIS_COMMITMENT, GENESIS_ID_BOUND, STARTING_GATES,
};
use crate::pool::pool_contains_id;
use crate::tracker::{spec_absorb, RecordTracker};
use crate::transaction::{family_ids, lemma_family_contains, Output, Transaction, TxModel};

verus! {

/// The expected wall-clock time per block, in seconds.
pub const ROUND_TIME: u64 = 15;

/// The block-generation duration assumed before the first block is timed.
pub const INITIAL_BLOCK_GENERATION_TIME: u64 = 2;

/// The operator's account: the private key and what it derives.
#[derive(Clone, Copy, PartialEq, Eq, Structural, Debug)]
pub struct Account {
    /// The private key.
    pub private_key: u64,
    /// The view key derived from the private key.
    pub view_key: u64,
    /// The address derived from the view key.
    pub address: u64,
}

impl Account {
    /// Account well-formedness: the keys derive from one another.
    pub open spec fn wf(self) -> bool {
        &&& self.view_key == spec_view_key_of(self.private_key)
        &&& self.address == spec_address_of(self.private_key)
    }

    /// Derives the account of a private key.
    pub fn new(private_key: u64) -> (r: Account)
        ensures
            r.private_key == private_key,
            r.wf(),
    {
        Account { private_key, view_key: view_key_of(private_key), address: address_of(private_key) }
    }
}

/// What one production cycle ended in.
#[derive(Clone, Copy, PartialEq, Eq, Structural, Debug)]
pub enum CycleOutcome {
    /// A block was validated and committed.
    Committed,
    /// The candidate block failed validation; the pool was cleared.
    Rejected,
    /// The ledger refused the commit; the pool was cleared.
    Failed,
    /// The cycle was abandoned with no state to commit.
    Skipped,
}

/// Every transaction of a staged set keeps its identifiers below the bound.
pub open spec fn pool_ids_below(p: Seq<TxModel>, bound: u64) -> bool {
    forall|i: int| 0 <= i < p.len() ==> (#[trigger] p[i]).ids_below(bound)
}

/// The seconds to wait before the next production cycle: the round interval
/// less the last generation duration, floored at zero.
pub open spec fn spec_time_to_wait(generation_time: u64) -> u64 {
    if generation_time >= ROUND_TIME {
        0
    } else {
        (ROUND_TIME - generation_time) as u64
    }
}

/// An identifier a transaction claims in some family lies below any bound
/// the transaction's identifiers lie below.
pub proof fn lemma_family_ids_below(t: TxModel, fam: Family, bound: u64, x: u64)
    requires
        t.ids_below(bound),
        family_of(fam, t).contains(x),
    ensures
        x < bound,
{
    match fam {
        Family::TxId => {
            let i = choose|i: int| 0 <= i < t.own_id().len() && t.own_id()[i] == x;
            assert(t.own_id()[i] == t.id);
        },
        Family::InputId => {
            let i = choose|i: int| 0 <= i < t.input_ids.len() && t.input_ids[i] == x;
        },
        Family::OutputId => {
            let i = choose|i: int| 0 <= i < t.commitments().len() && t.commitments()[i] == x;
            assert(t.commitments()[i] == t.outputs[i].commitment);
        },
        Family::ProgramId => {
            let i = choose|i: int| 0 <= i < t.program_ids().len() && t.program_ids()[i] == x;
            assert(t.program_ids()[i] == t.program_id->Some_0);
        },
        Family::MetadataId => {
            let i = choose|i: int| 0 <= i < t.metadata_ids.len() && t.metadata_ids[i] == x;
        },
    }
}

/// A block whose transactions keep their identifiers below a bound extends a
/// history that keeps them below the same bound.
pub proof fn lemma_ids_below_push(l: Seq<crate::block::BlockModel>, b: crate::block::BlockModel, bound: u64)
    requires
        ledger_ids_below(l, bound),
        forall|j: int| 0 <= j < b.transactions.len() ==> (#[trigger] b.transactions[j]).ids_below(bound),
    ensures
        ledger_ids_below(l.push(b), bound),
{
    lemma_ids_below_push_family(l, b, bound, Family::TxId);
    lemma_ids_below_push_family(l, b, bound, Family::InputId);
    lemma_ids_below_push_family(l, b, bound, Family::OutputId);
    lemma_ids_below_push_family(l, b, bound, Family::ProgramId);
    lemma_ids_below_push_family(l, b, bound, Family::MetadataId);
}

/// The same, for one identifier family.
proof fn lemma_ids_below_push_family(
    l: Seq<crate::block::BlockModel>,
    b: crate::block::BlockModel,
    bound: u64,
    fam: Family,
)
    requires
        forall|x: u64| history_ids(l, family_fn(fam)).contains(x) ==> x < bound,
        forall|j: int| 0 <= j < b.transactions.len() ==> (#[trigger] b.transactions[j]).ids_below(bound),
    ensures
        forall|x: u64| history_ids(l.push(b), family_fn(fam)).contains(x) ==> x < bound,
{
    crate::ledger::lemma_history_push(l, b, family_fn(fam));
    assert forall|x: u64| history_ids(l.push(b), family_fn(fam)).contains(x)
        implies x < bound by {
        crate::transaction::lemma_seq_add_contains(
            history_ids(l, family_fn(fam)),
            family_ids(b.transactions, family_fn(fam)),
            x,
        );
        if history_ids(l, family_fn(fam)).contains(x) {
        } else {
            lemma_family_contains(b.transactions, family_fn(fam), x);
            let j = choose|j: int|
                0 <= j < b.transactions.len() && family_fn(fam)(b.transactions[j]).contains(x);
            lemma_family_ids_below(b.transactions[j], fam, bound, x);
        }
    }
}

/// A filter that accepts every element changes nothing.
pub proof fn lemma_filter_all(p: Seq<TxModel>, pred: spec_fn(TxModel) -> bool)
    requires
        forall|i: int| 0 <= i < p.len() ==> pred(#[trigger] p[i]),
    ensures
        p.filter(pred) == p,
    decreases p.len(),
{
    reveal(Seq::filter);
    if p.len() == 0 {
    } else {
        let prefix = p.drop_last();
        assert(forall|i: int| 0 <= i < prefix.len() ==> prefix[i] == p[i]);
        lemma_filter_all(prefix, pred);
        assert(p[p.len() - 1] == p.last());
        assert(p.filter(pred) =~= p);
    }
}

/// A filter that rejects every element leaves nothing.
pub proof fn lemma_filter_none(p: Seq<TxModel>, pred: spec_fn(TxModel) -> bool)
    requires
        forall|i: int| 0 <= i < p.len() ==> !pred(#[trigger] p[i]),
    ensures
        p.filter(pred) == Seq::<TxModel>::empty(),
    decreases p.len(),
{
    reveal(Seq::filter);
    if p.len() == 0 {
        assert(p.filter(pred) =~= Seq::<TxModel>::empty());
    } else {
        let prefix = p.drop_last();
        assert(forall|i: int| 0 <= i < prefix.len() ==> prefix[i] == p[i]);
        lemma_filter_none(prefix, pred);
        assert(p[p.len() - 1] == p.last());
    }
}

/// The result of the pool-filling step of a production cycle.
pub enum FillerOutcome {
    /// The pool already held work.
    PoolReady,
    /// A self-transfer consuming one tracked record was staged; its produced
    /// outputs are handed back for absorption after the commit.
    Staged(Vec<Output>),
    /// No record could be spent; the cycle is abandoned.
    Abandoned,
}

/// The single-record scenario: an empty pool, exactly one tracked record of
/// positive balance that history has not consumed, and headroom in the
/// counters.
pub open spec fn single_record_scenario(
    p: Seq<TxModel>,
    tracker: Seq<(u64, u64)>,
    l: Seq<crate::block::BlockModel>,
    next_fresh_id: u64,
) -> bool {
    &&& p.len() == 0
    &&& tracker.len() == 1
    &&& tracker[0].1 >= 1
    &&& !history_ids(l, family_fn(Family::InputId)).contains(tracker[0].0)
    &&& next_fresh_id <= u64::MAX - 3
    &&& l.len() >= 1
    &&& l.last().header.height < u32::MAX
    &&& l.last().header.round < u64::MAX
    &&& l.last().header.timestamp < i64::MAX
}

/// The development beacon node.
pub struct DevelopmentBeacon {
    account: Account,
    consensus: SingleNodeConsensus,
    block_generation_time: u64,
    unspent_records: RecordTracker,
    shutdown: bool,
    next_fresh_id: u64,
}

impl DevelopmentBeacon {
    /// The operator's account.
    pub closed spec fn spec_account(&self) -> Account {
        self.account
    }

    /// The committed history.
    pub closed spec fn spec_ledger(&self) -> Seq<crate::block::BlockModel> {
        self.consensus.spec_ledger()
    }

    /// The staged set.
    pub closed spec fn spec_pool(&self) -> Seq<TxModel> {
        self.consensus.spec_pool()
    }

    /// The tracked records.
    pub closed spec fn spec_tracker(&self) -> Seq<(u64, u64)> {
        self.unspent_records@
    }

    /// The fresh-identifier counter.
    pub closed spec fn spec_next_fresh_id(&self) -> u64 {
        self.next_fresh_id
    }

    /// The cooperative shutdown flag.
    pub closed spec fn spec_shutdown(&self) -> bool {
        self.shutdown
    }

    /// The rolling block-generation duration.
    pub closed spec fn spec_block_generation_time(&self) -> u64 {
        self.block_generation_time
    }

    /// Beacon well-formedness: the engine invariants, the account's key
    /// derivations, and the freshness of the identifier counter.
    pub open spec fn wf(&self) -> bool {
        &&& ledger_wf(self.spec_ledger())
        &&& pool_coherent(self.spec_ledger(), self.spec_pool())
        &&& self.spec_account().wf()
        &&& record_keys(self.spec_tracker()).no_duplicates()
        &&& ledger_ids_below(self.spec_ledger(), self.spec_next_fresh_id())
        &&& pool_ids_below(self.spec_pool(), self.spec_next_fresh_id())
        &&& forall|k: int|
            0 <= k < self.spec_tracker().len()
            ==> (#[trigger] self.spec_tracker()[k]).0 < self.spec_next_fresh_id()
    }

    /// Starts a beacon: a fresh genesis ledger for the key, the operator's
    /// records scanned from it, and an empty pool.
    pub fn new(private_key: u64, genesis_timestamp: i64) -> (r: DevelopmentBeacon)
        requires
            genesis_timestamp >= 0,
        ensures
            r.wf(),
            r.spec_account().private_key == private_key,
            r.spec_ledger().len() == 1,
            r.spec_ledger()[0] == spec_genesis_block(private_key, genesis_timestamp),
            r.spec_pool() == Seq::<TxModel>::empty(),
            r.spec_tracker().len() == 1,
            r.spec_tracker()[0] == (GENESIS_COMMITMENT, STARTING_GATES),
            !r.spec_shutdown(),
            r.spec_block_generation_time() == INITIAL_BLOCK_GENERATION_TIME,
            r.spec_next_fresh_id() == GENESIS_ID_BOUND,
    {
        let account = Account::new(private_key);
        let ledger = Ledger::load(private_key, genesis_timestamp);
        let ghost l = ledger@;
        let unspent_records = RecordTracker::load(&ledger, account.view_key);
        proof {
            let g = spec_genesis_block(private_key, genesis_timestamp);
            let gt = crate::ledger::spec_genesis_transaction(private_key);
            let gout = Output {
                commitment: GENESIS_COMMITMENT,
                owner: spec_address_of(private_key),
                gates: STARTING_GATES,
            };
            assert(l.drop_last() =~= Seq::<crate::block::BlockModel>::empty());
            assert(l.last() == g);
            assert(g.transactions.drop_last() =~= Seq::<TxModel>::empty());
            assert(g.transactions.last() == gt);
            assert(crate::ledger::batch_outputs(Seq::<TxModel>::empty())
                == Seq::<Output>::empty());
            assert(crate::ledger::batch_outputs(g.transactions)
                == Seq::<Output>::empty() + gt.outputs);
            assert(crate::ledger::history_outputs(Seq::<crate::block::BlockModel>::empty())
                == Seq::<Output>::empty());
            assert(crate::ledger::history_outputs(l)
                == Seq::<Output>::empty() + crate::ledger::batch_outputs(g.transactions));
            assert(crate::ledger::history_outputs(l) =~= gt.outputs);
            assert(gt.outputs == seq![gout]);
            assert(crate::ledger::history_outputs(l)[0] == gout);
            assert(crate::ledger::history_outputs(l).contains(gout));
            // The genesis record is unspent.
            assert(crate::ledger::spec_is_unspent(
                l,
                spec_address_of(private_key),
                GENESIS_COMMITMENT,
                STARTING_GATES,
            )) by {
                assert(history_ids(l, family_fn(Family::InputId)).len() == 0);
            }
            assert(spec_address_of(private_key)
                == crate::digest::spec_address_of_view_key(account.view_key));
            // The tracker holds exactly that record.
            assert(unspent_records@.contains((GENESIS_COMMITMENT, STARTING_GATES)));
            assert forall|k: int| 0 <= k < unspent_records@.len()
                implies (#[trigger] unspent_records@[k]) == (GENESIS_COMMITMENT, STARTING_GATES) by {
                let c = unspent_records@[k].0;
                let gates = unspent_records@[k].1;
                assert(crate::ledger::spec_is_unspent(l, spec_address_of(private_key), c, gates));
                assert(crate::ledger::history_outputs(l).contains(
                    Output { commitment: c, owner: spec_address_of(private_key), gates },
                ));
                let i = choose|i: int|
                    0 <= i < crate::ledger::history_outputs(l).len()
                    && crate::ledger::history_outputs(l)[i]
                        == Output { commitment: c, owner: spec_address_of(private_key), gates };
                assert(crate::ledger::history_outputs(l)[i] == gout);
            }
            let m = choose|m: int|
                0 <= m < unspent_records@.len()
                && unspent_records@[m] == (GENESIS_COMMITMENT, STARTING_GATES);
            if unspent_records@.len() > 1 {
                let other: int = if m == 0 { 1 } else { 0 };
                assert(record_keys(unspent_records@)[m] == GENESIS_COMMITMENT);
                assert(record_keys(unspent_records@)[other] == GENESIS_COMMITMENT);
                assert(false);
            }
        }
        let consensus = SingleNodeConsensus::new(ledger).unwrap();
        let r = DevelopmentBeacon {
            account,
            consensus,
            block_generation_time: INITIAL_BLOCK_GENERATION_TIME,
            unspent_records,
            shutdown: false,
            next_fresh_id: GENESIS_ID_BOUND,
        };
        r
    }

    /// The operator's private key.
    pub fn private_key(&self) -> (r: u64)
        ensures
            r == self.spec_account().private_key,
    {
        self.account.private_key
    }

    /// The operator's address.
    pub fn address(&self) -> (r: u64)
        ensures
            r == self.spec_account().address,
    {
        self.account.address
    }

    /// The ledger.
    pub fn ledger(&self) -> (r: &Ledger)
        ensures
            r@ == self.spec_ledger(),
    {
        self.consensus.ledger()
    }

    /// The consensus engine, read-only.
    pub fn consensus(&self) -> (r: &SingleNodeConsensus)
        ensures
            r.spec_ledger() == self.spec_ledger(),
            r.spec_pool() == self.spec_pool(),
    {
        &self.consensus
    }

    /// The tracked records, read-only.
    pub fn unspent_records(&self) -> (r: &RecordTracker)
        ensures
            r@ == self.spec_tracker(),
    {
        &self.unspent_records
    }

    /// Sets the cooperative shutdown flag; the production loop observes it
    /// at the end of a full cycle.
    pub fn shut_down(&mut self)
        ensures
            final(self).spec_shutdown(),
            final(self).spec_account() == old(self).spec_account(),
            final(self).spec_ledger() == old(self).spec_ledger(),
            final(self).spec_pool() == old(self).spec_pool(),
            final(self).spec_tracker() == old(self).spec_tracker(),
            final(self).spec_next_fresh_id() == old(self).spec_next_fresh_id(),
            final(self).spec_block_generation_time() == old(self).spec_block_generation_time(),
            old(self).wf() ==> final(self).wf(),
    {
        self.shutdown = true;
    }

    /// Whether the shutdown flag is set.
    pub fn is_shutdown(&self) -> (r: bool)
        ensures
            r == self.spec_shutdown(),
    {
        self.shutdown
    }

    /// Records the elapsed wall-clock duration of the last production cycle.
    pub fn set_block_generation_time(&mut self, seconds: u64)
        ensures
            final(self).spec_block_generation_time() == seconds,
            final(self).spec_account() == old(self).spec_account(),
            final(self).spec_ledger() == old(self).spec_ledger(),
            final(self).spec_pool() == old(self).spec_pool(),
            final(self).spec_tracker() == old(self).spec_tracker(),
            final(self).spec_next_fresh_id() == old(self).spec_next_fresh_id(),
            final(self).spec_shutdown() == old(self).spec_shutdown(),
            old(self).wf() ==> final(self).wf(),
    {
        self.block_generation_time = seconds;
    }

    /// The rolling block-generation duration.
    pub fn block_generation_time(&self) -> (r: u64)
        ensures
            r == self.spec_block_generation_time(),
    {
        self.block_generation_time
    }

    /// The seconds to sleep before the next cycle, adapting the cadence so
    /// a block lands about once per round interval.
    pub fn time_to_wait(&self) -> (r: u64)
        ensures
            r == spec_time_to_wait(self.spec_block_generation_time()),
    {
        if self.block_generation_time >= ROUND_TIME {
            0
        } else {
            ROUND_TIME - self.block_generation_time
        }
    }

    /// Stages an externally submitted transaction, raising the fresh
    /// identifier counter above everything it claims.
    pub fn add_unconfirmed_transaction(&mut self, transaction: Transaction) -> (r: Result<
        (),
        ConsensusError,
    >)
        requires
            old(self).wf(),
        ensures
            final(self).wf(),
            final(self).spec_ledger() == old(self).spec_ledger(),
            final(self).spec_tracker() == old(self).spec_tracker(),
            final(self).spec_shutdown() == old(self).spec_shutdown(),
            match r {
                Ok(()) => final(self).spec_pool() == old(self).spec_pool().push(transaction@),
                Err(_) => final(self).spec_pool() == old(self).spec_pool(),
            },
            r == SingleNodeConsensus::spec_admit(
                old(self).spec_ledger(),
                old(self).spec_pool(),
                transaction@,
            ),
    {
        let m = transaction.max_identifier();
        let ghost t = transaction@;
        match self.consensus.add_unconfirmed_transaction(transaction) {
            Ok(()) => {
                proof {
                    assert(spec_check_transaction(old(self).spec_ledger(), t)
                        == Ok::<(), ConsensusError>(()));
                    assert(t.well_formed());
                    assert(t.ids_below(u64::MAX));
                }
                if m >= self.next_fresh_id {
                    self.next_fresh_id = m + 1;
                }
                proof {
                    assert(t.ids_below(self.next_fresh_id));
                    let p2 = self.consensus.spec_pool();
                    assert(p2 == old(self).spec_pool().push(t));
                    assert forall|i: int| 0 <= i < p2.len()
                        implies (#[trigger] p2[i]).ids_below(self.next_fresh_id) by {
                        if i < old(self).spec_pool().len() {
                            assert(p2[i] == old(self).spec_pool()[i]);
                            assert(old(self).spec_pool()[i].ids_below(
                                old(self).spec_next_fresh_id(),
                            ));
                        } else {
                            assert(p2[i] == t);
                        }
                    }
                }
                Ok(())
            },
            Err(e) => Err(e),
        }
    }

    /// Constructs a transfer from the operator's funds to an address and
    /// stages it; the faucet operation behind the pour endpoint.
    #[verifier::rlimit(80)]
    pub fn faucet_pour(&mut self, to: u64, amount: u64) -> (r: Result<u64, ConsensusError>)
        requires
            old(self).wf(),
        ensures
            final(self).wf(),
            final(self).spec_ledger() == old(self).spec_ledger(),
            final(self).spec_tracker() == old(self).spec_tracker(),
            match r {
                Ok(id) => exists|c: u64, g: u64|
                    {
                        &&& crate::ledger::spec_is_unspent(
                            old(self).spec_ledger(),
                            old(self).spec_account().address,
                            c,
                            g,
                        )
                        &&& g >= amount
                        &&& final(self).spec_pool() == old(self).spec_pool().push(
                            spec_transfer(
                                old(self).spec_account().private_key,
                                to,
                                amount,
                                c,
                                g,
                                old(self).spec_next_fresh_id(),
                            ),
                        )
                        &&& id == old(self).spec_next_fresh_id()
                    },
                Err(e) => {
                    &&& final(self).spec_pool() == old(self).spec_pool()
                    &&& ({
                        ||| (e == ConsensusError::TransientResourceExhaustion && old(
                            self,
                        ).spec_next_fresh_id() > u64::MAX - 3)
                        ||| (e == ConsensusError::TransientResourceExhaustion && forall|
                            c: u64,
                            g: u64,
                        |
                            crate::ledger::spec_is_unspent(
                                old(self).spec_ledger(),
                                old(self).spec_account().address,
                                c,
                                g,
                            ) ==> g < amount)
                        ||| (e == ConsensusError::DuplicateOrConflicting && exists|
                            c: u64,
                            g: u64,
                            i: int,
                        |
                            {
                                &&& crate::ledger::spec_is_unspent(
                                    old(self).spec_ledger(),
                                    old(self).spec_account().address,
                                    c,
                                    g,
                                )
                                &&& g >= amount
                                &&& 0 <= i < old(self).spec_pool().len()
                                &&& #[trigger] old(self).spec_pool()[i].conflicts_with(
                                    spec_transfer(
                                        old(self).spec_account().private_key,
                                        to,
                                        amount,
                                        c,
                                        g,
                                        old(self).spec_next_fresh_id(),
                                    ),
                                )
                            })
                    })
                },
            },
    {
        if self.next_fresh_id > u64::MAX - 3 {
            return Err(ConsensusError::TransientResourceExhaustion);
        }
        let fresh_id = self.next_fresh_id;
        let transfer = match self.consensus.ledger().create_transfer(
            self.account.private_key,
            to,
            amount,
            fresh_id,
        ) {
            Ok(t) => t,
            Err(e) => {
                return Err(e);
            },
        };
        let ghost t = transfer@;
        match self.consensus.add_unconfirmed_transaction(transfer) {
            Ok(()) => {
                self.next_fresh_id = fresh_id + 3;
                proof {
                    let l0 = old(self).spec_ledger();
                    let key = old(self).spec_account().private_key;
                    let (c, g) = choose|c: u64, g: u64|
                        {
                            &&& crate::ledger::spec_is_unspent(l0, spec_address_of(key), c, g)
                            &&& g >= amount
                            &&& t == spec_transfer(key, to, amount, c, g, fresh_id)
                        };
                    lemma_unspent_commitment_below(l0, spec_address_of(key), c, g, fresh_id);
                    assert(t.input_ids =~= seq![c]);
                    assert(t.ids_below((fresh_id + 3) as u64)) by {
                        assert forall|i: int| 0 <= i < t.input_ids.len()
                            implies t.input_ids[i] < fresh_id + 3 by {
                            assert(t.input_ids[i] == c);
                        }
                        assert forall|i: int| 0 <= i < t.outputs.len()
                            implies (#[trigger] t.outputs[i]).commitment < fresh_id + 3 by {}
                    }
                    let p2 = self.consensus.spec_pool();
                    assert(p2 == old(self).spec_pool().push(t));
                    assert forall|i: int| 0 <= i < p2.len()
                        implies (#[trigger] p2[i]).ids_below(self.next_fresh_id) by {
                        if i < old(self).spec_pool().len() {
                            assert(p2[i] == old(self).spec_pool()[i]);
                            assert(old(self).spec_pool()[i].ids_below(
                                old(self).spec_next_fresh_id(),
                            ));
                        } else {
                            assert(p2[i] == t);
                        }
                    }
                }
                Ok(fresh_id)
            },
            Err(e) => {
                proof {
                    let l0 = old(self).spec_ledger();
                    let key = old(self).spec_account().private_key;
                    let p0 = old(self).spec_pool();
                    let (c, g) = choose|c: u64, g: u64|
                        {
                            &&& crate::ledger::spec_is_unspent(l0, spec_address_of(key), c, g)
                            &&& g >= amount
                            &&& t == spec_transfer(key, to, amount, c, g, fresh_id)
                        };
                    lemma_unspent_commitment_below(l0, spec_address_of(key), c, g, fresh_id);
                    lemma_transfer_check_ok(l0, to, amount, c, g, fresh_id, key);
                    assert(!pool_contains_id(p0, t.id)) by {
                        assert forall|i: int| 0 <= i < p0.len()
                            implies (#[trigger] p0[i]).id != t.id by {
                            assert(p0[i].ids_below(fresh_id));
                        }
                    }
                    // With a fresh id and a passing basic check, the only
                    // possible refusal is a conflict with a staged entry.
                    assert(e == ConsensusError::DuplicateOrConflicting);
                    let i = choose|i: int| 0 <= i < p0.len() && (#[trigger] p0[i]).conflicts_with(t);
                    assert(0 <= i < p0.len() && #[trigger] p0[i].conflicts_with(
                        spec_transfer(key, to, amount, c, g, fresh_id),
                    ));
                }
                Err(e)
            },
        }
    }

    /// Constructs a deployment of a program id, paid from the deployer's
    /// largest unspent record, and stages it; the operation behind the
    /// deploy endpoint.
    #[verifier::rlimit(80)]
    pub fn deploy(&mut self, deployer_key: u64, program_id: u64, additional_fee: u64) -> (r:
        Result<u64, ConsensusError>)
        requires
            old(self).wf(),
        ensures
            final(self).wf(),
            final(self).spec_ledger() == old(self).spec_ledger(),
            final(self).spec_tracker() == old(self).spec_tracker(),
            match r {
                Ok(id) => exists|c: u64, g: u64|
                    {
                        &&& crate::ledger::spec_is_unspent(
                            old(self).spec_ledger(),
                            spec_address_of(deployer_key),
                            c,
                            g,
                        )
                        &&& g >= additional_fee
                        &&& final(self).spec_pool() == old(self).spec_pool().push(
                            spec_deployment(
                                deployer_key,
                                program_id,
                                additional_fee,
                                c,
                                g,
                                old(self).spec_next_fresh_id(),
                            ),
                        )
                        &&& id == old(self).spec_next_fresh_id()
                    },
                Err(e) => {
                    &&& final(self).spec_pool() == old(self).spec_pool()
                    &&& ({
                        ||| (e == ConsensusError::TransientResourceExhaustion && old(
                            self,
                        ).spec_next_fresh_id() > u64::MAX - 3)
                        ||| (e == ConsensusError::MalformedInput && program_id == u64::MAX)
                        ||| (e == ConsensusError::DuplicateOrConflicting && history_ids(
                            old(self).spec_ledger(),
                            family_fn(Family::ProgramId),
                        ).contains(program_id))
                        ||| (e == ConsensusError::TransientResourceExhaustion && forall|
                            c: u64,
                            g: u64,
                        |
                            crate::ledger::spec_is_unspent(
                                old(self).spec_ledger(),
                                spec_address_of(deployer_key),
                                c,
                                g,
                            ) ==> g < additional_fee)
                        ||| (e == ConsensusError::DuplicateOrConflicting && exists|
                            c: u64,
                            g: u64,
                            i: int,
                        |
                            {
                                &&& crate::ledger::spec_is_unspent(
                                    old(self).spec_ledger(),
                                    spec_address_of(deployer_key),
                                    c,
                                    g,
                                )
                                &&& g >= additional_fee
                                &&& 0 <= i < old(self).spec_pool().len()
                                &&& #[trigger] old(self).spec_pool()[i].conflicts_with(
                                    spec_deployment(
                                        deployer_key,
                                        program_id,
                                        additional_fee,
                                        c,
                                        g,
                                        old(self).spec_next_fresh_id(),
                                    ),
                                )
                            })
                    })
                },
            },
    {
        if self.next_fresh_id > u64::MAX - 3 {
            return Err(ConsensusError::TransientResourceExhaustion);
        }
        if program_id == u64::MAX {
            return Err(ConsensusError::MalformedInput);
        }
        if self.consensus.ledger().contains_program_id(program_id) {
            return Err(ConsensusError::DuplicateOrConflicting);
        }
        let fresh_id = self.next_fresh_id;
        let deployment = match self.consensus.ledger().create_deploy(
            deployer_key,
            program_id,
            additional_fee,
            fresh_id,
        ) {
            Ok(t) => t,
            Err(e) => {
                return Err(e);
            },
        };
        let ghost t = deployment@;
        let ghost l0 = old(self).spec_ledger();
        let ghost p0 = old(self).spec_pool();
        proof {
            let (c, g) = choose|c: u64, g: u64|
                {
                    &&& crate::ledger::spec_is_unspent(l0, spec_address_of(deployer_key), c, g)
                    &&& g >= additional_fee
                    &&& t == spec_deployment(deployer_key, program_id, additional_fee, c, g, fresh_id)
                };
            lemma_unspent_commitment_below(l0, spec_address_of(deployer_key), c, g, fresh_id);
            lemma_deployment_check_ok(
                l0,
                program_id,
                additional_fee,
                c,
                g,
                fresh_id,
                deployer_key,
            );
            assert(!pool_contains_id(p0, t.id)) by {
                assert forall|i: int| 0 <= i < p0.len() implies (#[trigger] p0[i]).id != t.id by {
                    assert(p0[i].ids_below(fresh_id));
                }
            }
        }
        match self.add_unconfirmed_transaction(deployment) {
            Ok(()) => Ok(fresh_id),
            Err(e) => {
                proof {
                    let (c, g) = choose|c: u64, g: u64|
                        {
                            &&& crate::ledger::spec_is_unspent(
                                l0,
                                spec_address_of(deployer_key),
                                c,
                                g,
                            )
                            &&& g >= additional_fee
                            &&& t == spec_deployment(
                                deployer_key,
                                program_id,
                                additional_fee,
                                c,
                                g,
                                fresh_id,
                            )
                        };
                    // With a fresh id, a fresh program id and a passing basic
                    // check, the only possible refusal is a staged conflict.
                    assert(e == ConsensusError::DuplicateOrConflicting);
                    let i = choose|i: int| 0 <= i < p0.len() && (#[trigger] p0[i]).conflicts_with(t);
                    assert(0 <= i < p0.len() && #[trigger] p0[i].conflicts_with(
                        spec_deployment(deployer_key, program_id, additional_fee, c, g, fresh_id),
                    ));
                }
                Err(e)
            },
        }
    }
}

/// A commitment of an unspent record was produced in history, so it lies
/// below any bound the history's identifiers lie below.
pub proof fn lemma_unspent_commitment_below(
    l: Seq<crate::block::BlockModel>,
    owner: u64,
    c: u64,
    g: u64,
    bound: u64,
)
    requires
        crate::ledger::spec_is_unspent(l, owner, c, g),
        ledger_ids_below(l, bound),
    ensures
        c < bound,
{
    crate::ledger::lemma_history_output_commitments(l);
    let o = Output { commitment: c, owner, gates: g };
    let i = choose|i: int|
        0 <= i < crate::ledger::history_outputs(l).len()
        && crate::ledger::history_outputs(l)[i] == o;
    let cm = |o2: Output| o2.commitment;
    assert(crate::ledger::history_outputs(l).map_values(cm)[i] == c);
    assert(history_ids(l, family_fn(Family::OutputId)).contains(c));
}


/// The largest identifier any transaction of a block claims.
#[verifier::loop_isolation(false)]
pub fn block_max_identifier(b: &Block) -> (r: u64)
    ensures
        forall|b2: u64, j: int|
            r < b2 && 0 <= j < b@.transactions.len()
            ==> #[trigger] b@.transactions[j].ids_below(b2),
        (forall|j: int|
            0 <= j < b@.transactions.len() ==> (#[trigger] b@.transactions[j]).ids_below(u64::MAX))
            ==> r < u64::MAX,
{
    let mut r: u64 = 0;
    let n = b.transactions.len();
    for i in 0..n
        invariant
            n == b.transactions.len(),
            forall|b2: u64, j: int|
                r < b2 && 0 <= j < i ==> #[trigger] b@.transactions[j].ids_below(b2),
            r == 0 || exists|j: int| 0 <= j < i && !(#[trigger] b@.transactions[j]).ids_below(r),
    {
        let m = b.transactions[i].max_identifier();
        proof {
            assert(b@.transactions[i as int] == b.transactions@[i as int]@);
        }
        if m > r {
            r = m;
        }
    }
    proof {
        if forall|j: int|
            0 <= j < b@.transactions.len() ==> (#[trigger] b@.transactions[j]).ids_below(u64::MAX) {
            if r == u64::MAX {
                let j = choose|j: int|
                    0 <= j < n && !(#[trigger] b@.transactions[j]).ids_below(r);
                assert(false);
            }
        }
    }
    r
}

impl DevelopmentBeacon {
    /// Applies the admission policy to a candidate block: a valid candidate
    /// is committed and the pool pruned of entries the new history
    /// invalidates; an invalid candidate clears the whole pool rather than
    /// repairing it.
    pub fn commit_candidate(&mut self, block: &Block) -> (r: CycleOutcome)
        requires
            old(self).wf(),
        ensures
            final(self).wf(),
            final(self).spec_tracker() == old(self).spec_tracker(),
            final(self).spec_account() == old(self).spec_account(),
            final(self).spec_shutdown() == old(self).spec_shutdown(),
            final(self).spec_next_fresh_id() >= old(self).spec_next_fresh_id(),
            spec_check_block(old(self).spec_ledger(), block@) == Ok::<(), ValidationError>(())
                ==> (r == CycleOutcome::Committed && final(self).spec_ledger() == old(self).spec_ledger().push(block@) && final(self).spec_pool() == old(self).spec_pool().filter(basic_ok(final(self).spec_ledger()))),
            spec_check_block(old(self).spec_ledger(), block@) is Err ==> (r
                == CycleOutcome::Rejected && final(self).spec_ledger() == old(self).spec_ledger()
                && final(self).spec_pool() == Seq::<TxModel>::empty()),
    {
        let ghost l0 = self.consensus.spec_ledger();
        let ghost p0 = self.consensus.spec_pool();
        match self.consensus.check_next_block(block) {
            Err(_) => {
                let cleared = self.consensus.clear_memory_pool();
                proof {
                    assert(cleared is Ok);
                }
                CycleOutcome::Rejected
            },
            Ok(()) => {
                let m = block_max_identifier(block);
                proof {
                    assert forall|j: int| 0 <= j < block@.transactions.len()
                        implies (#[trigger] block@.transactions[j]).ids_below(u64::MAX) by {
                        assert(spec_check_transaction(l0, block@.transactions[j])
                            == Ok::<(), ConsensusError>(()));
                    }
                }
                if m >= self.next_fresh_id {
                    self.next_fresh_id = m + 1;
                }
                let ghost bound = self.next_fresh_id;
                match self.consensus.advance_to_next_block(block) {
                    Ok(()) => {
                        proof {
                            let l2 = self.consensus.spec_ledger();
                            assert(forall|j: int|
                                0 <= j < block@.transactions.len()
                                    ==> (#[trigger] block@.transactions[j]).ids_below(bound));
                            lemma_ids_below_push(l0, block@, bound);
                            let q = self.consensus.spec_pool();
                            assert forall|i: int| 0 <= i < q.len()
                                implies (#[trigger] q[i]).ids_below(bound) by {
                                assert(q.contains(q[i]));
                                crate::consensus::lemma_filter_member(p0, basic_ok(l2), q[i]);
                                let k = choose|k: int| 0 <= k < p0.len() && p0[k] == q[i];
                                assert(p0[k].ids_below(old(self).spec_next_fresh_id()));
                            }
                        }
                        CycleOutcome::Committed
                    },
                    Err(_) => {
                        proof {
                            assert(false);
                        }
                        CycleOutcome::Failed
                    },
                }
            },
        }
    }

    /// One production cycle at a given clock reading: when the pool is
    /// empty, synthesize one self-transfer consuming a tracked record so the
    /// chain always has something to confirm; then propose, validate and
    /// commit, clearing the pool on validation or commit failure and
    /// restoring the record when the transfer could not be staged.
    #[verifier::rlimit(100)]
    pub fn produce_next_block_at(&mut self, now: i64) -> (r: CycleOutcome)
        requires
            old(self).wf(),
        ensures
            final(self).wf(),
            final(self).spec_account() == old(self).spec_account(),
            final(self).spec_shutdown() == old(self).spec_shutdown(),
            r == CycleOutcome::Skipped ==> final(self).spec_ledger() == old(self).spec_ledger(),
            (r == CycleOutcome::Rejected || r == CycleOutcome::Failed) ==> (final(self).spec_pool()
                == Seq::<TxModel>::empty() && final(self).spec_ledger() == old(self).spec_ledger()),
            r == CycleOutcome::Committed ==> (final(self).spec_ledger().len() == old(self).spec_ledger().len() + 1 && final(self).spec_ledger() == old(self).spec_ledger().push(final(self).spec_ledger().last()) && spec_check_block(
                old(self).spec_ledger(),
                final(self).spec_ledger().last(),
            ) == Ok::<(), ValidationError>(())),
            (old(self).spec_pool().len() > 0 && old(self).spec_ledger().last().header.height
                < u32::MAX && old(self).spec_ledger().last().header.round < u64::MAX && old(
                self,
            ).spec_ledger().last().header.timestamp < i64::MAX) ==> (r == CycleOutcome::Committed
                && final(self).spec_ledger() == old(self).spec_ledger().push(
                spec_proposal(
                    old(self).spec_ledger(),
                    old(self).spec_pool(),
                    old(self).spec_account().private_key,
                    now,
                ),
            ) && final(self).spec_pool() == old(self).spec_pool().filter(
                basic_ok(final(self).spec_ledger()),
            )),
            single_record_scenario(
                old(self).spec_pool(),
                old(self).spec_tracker(),
                old(self).spec_ledger(),
                old(self).spec_next_fresh_id(),
            ) ==> (r == CycleOutcome::Committed && final(self).spec_ledger().last().transactions
                == Seq::<TxModel>::empty().push(
                spec_transfer(
                    old(self).spec_account().private_key,
                    old(self).spec_account().address,
                    old(self).spec_tracker()[0].1,
                    old(self).spec_tracker()[0].0,
                    old(self).spec_tracker()[0].1,
                    old(self).spec_next_fresh_id(),
                ),
            ) && final(self).spec_tracker().len() == 1 && final(self).spec_pool()
                == Seq::<TxModel>::empty()),
    {
        let ghost l0 = self.consensus.spec_ledger();
        let latest_height = self.consensus.ledger().latest_height();
        let latest_round = self.consensus.ledger().latest_round();
        let latest_timestamp = self.consensus.ledger().latest_timestamp();
        if latest_height == u32::MAX || latest_round == u64::MAX || latest_timestamp == i64::MAX {
            return CycleOutcome::Skipped;
        }
        let filler = self.synthesize_filler();
        proof {
            if old(self).spec_pool().len() > 0 {
                assert(filler is PoolReady);
                assert(self.consensus.spec_pool() == old(self).spec_pool());
            }
            if single_record_scenario(
                old(self).spec_pool(),
                old(self).spec_tracker(),
                l0,
                old(self).spec_next_fresh_id(),
            ) {
                assert(filler is Staged);
                assert(self.consensus.spec_pool() == Seq::<TxModel>::empty().push(
                    spec_transfer(
                        old(self).spec_account().private_key,
                        old(self).spec_account().address,
                        old(self).spec_tracker()[0].1,
                        old(self).spec_tracker()[0].0,
                        old(self).spec_tracker()[0].1,
                        old(self).spec_next_fresh_id(),
                    ),
                ));
            }
        }
        let synthesized_outputs: Option<Vec<Output>> = match filler {
            FillerOutcome::Abandoned => {
                return CycleOutcome::Skipped;
            },
            FillerOutcome::PoolReady => None,
            FillerOutcome::Staged(outs) => Some(outs),
        };
        let proposal = match self.consensus.propose_next_block_at(self.account.private_key, now) {
            Ok(b) => b,
            Err(_) => {
                proof {
                    let p1 = self.consensus.spec_pool();
                    assert(p1.len() >= 1);
                    assert forall|i: int| 0 <= i < p1.len()
                        implies basic_ok(l0)(#[trigger] p1[i]) by {
                        assert(spec_check_transaction(l0, p1[i]) == Ok::<(), ConsensusError>(()));
                    }
                    lemma_filter_all(p1, basic_ok(l0));
                    assert(spec_candidates(l0, p1).len() >= 1);
                    assert(false);
                }
                return CycleOutcome::Skipped;
            },
        };
        let ghost p1 = self.consensus.spec_pool();
        let ghost tracker_before_absorb = self.unspent_records@;
        let outcome = self.commit_candidate(&proposal);
        proof {
            assert(spec_check_block(l0, proposal@) == Ok::<(), ValidationError>(()));
            assert(outcome == CycleOutcome::Committed);
        }
        if let Some(outs) = synthesized_outputs {
            let owner = self.account.address;
            self.unspent_records.absorb(&outs, owner);
            proof {
                assert(outs@ =~= seq![outs@[0]]);
                assert(outs@.drop_last() =~= Seq::<Output>::empty());
                assert(spec_absorb(tracker_before_absorb, Seq::<Output>::empty(), owner)
                    == tracker_before_absorb);
                assert forall|k: int| 0 <= k < self.unspent_records@.len()
                    implies (#[trigger] self.unspent_records@[k]).0 < self.next_fresh_id by {
                    if k < tracker_before_absorb.len() {
                        assert(self.unspent_records@[k] == tracker_before_absorb[k]);
                    } else {
                        assert(self.unspent_records@[k] == (outs@[0].commitment, outs@[0].gates));
                        assert(outs@[0].commitment == old(self).spec_next_fresh_id() + 1);
                        assert(self.next_fresh_id >= old(self).spec_next_fresh_id() + 2);
                    }
                }
            }
        }
        proof {
            if old(self).spec_pool().len() > 0 {
                assert(p1 == old(self).spec_pool());
                assert(proposal@ == spec_proposal(
                    l0,
                    old(self).spec_pool(),
                    old(self).spec_account().private_key,
                    now,
                ));
                assert(self.consensus.spec_ledger() == l0.push(proposal@));
            }
            if single_record_scenario(
                old(self).spec_pool(),
                old(self).spec_tracker(),
                l0,
                old(self).spec_next_fresh_id(),
            ) {
                assert(p1.len() == 1);
                lemma_committed_single_transfer(l0, p1, proposal@);
                assert(proposal@.transactions == p1);
                assert(self.consensus.spec_ledger().last() == proposal@);
                assert(self.consensus.spec_pool() == Seq::<TxModel>::empty());
                assert(self.unspent_records@.len() == 1);
            }
        }
        outcome
    }

    /// When the pool is empty, consumes one tracked record into a staged
    /// self-transfer so the chain always has something to confirm; a record
    /// that cannot be spent abandons the cycle instead.
    #[verifier::rlimit(100)]
    fn synthesize_filler(&mut self) -> (r: FillerOutcome)
        requires
            old(self).wf(),
        ensures
            final(self).wf(),
            final(self).spec_ledger() == old(self).spec_ledger(),
            final(self).spec_account() == old(self).spec_account(),
            final(self).spec_shutdown() == old(self).spec_shutdown(),
            match r {
                FillerOutcome::PoolReady => {
                    &&& old(self).spec_pool().len() > 0
                    &&& final(self).spec_pool() == old(self).spec_pool()
                    &&& final(self).spec_tracker() == old(self).spec_tracker()
                },
                FillerOutcome::Abandoned => {
                    &&& old(self).spec_pool().len() == 0
                    &&& final(self).spec_pool() == old(self).spec_pool()
                },
                FillerOutcome::Staged(outs) => {
                    &&& old(self).spec_pool().len() == 0
                    &&& old(self).spec_tracker().len() >= 1
                    &&& final(self).spec_pool() == Seq::<TxModel>::empty().push(
                        spec_transfer(
                            old(self).spec_account().private_key,
                            old(self).spec_account().address,
                            old(self).spec_tracker()[0].1,
                            old(self).spec_tracker()[0].0,
                            old(self).spec_tracker()[0].1,
                            old(self).spec_next_fresh_id(),
                        ),
                    )
                    &&& outs@ == seq![
                        Output {
                            commitment: (old(self).spec_next_fresh_id() + 1) as u64,
                            owner: old(self).spec_account().address,
                            gates: old(self).spec_tracker()[0].1,
                        },
                    ]
                    &&& final(self).spec_tracker() == old(self).spec_tracker().subrange(
                        1,
                        old(self).spec_tracker().len() as int,
                    )
                    &&& old(self).spec_next_fresh_id() <= u64::MAX - 3
                    &&& final(self).spec_next_fresh_id() == (old(self).spec_next_fresh_id()
                        + 2) as u64
                },
            },
            final(self).spec_next_fresh_id() >= old(self).spec_next_fresh_id(),
            single_record_scenario(
                old(self).spec_pool(),
                old(self).spec_tracker(),
                old(self).spec_ledger(),
                old(self).spec_next_fresh_id(),
            ) ==> r is Staged,
    {
        let ghost l0 = self.consensus.spec_ledger();
        if self.consensus.memory_pool().len() > 0 {
            return FillerOutcome::PoolReady;
        }
        let ghost tracker0 = self.unspent_records@;
        match self.unspent_records.take_one() {
            None => FillerOutcome::Abandoned,
            Some((c, g)) => {
                proof {
                    assert(tracker0[0] == (c, g));
                    assert(record_keys(tracker0)[0] == c);
                    assert(c < self.next_fresh_id);
                    assert forall|k: int| 0 <= k < self.unspent_records@.len()
                        implies (#[trigger] self.unspent_records@[k]).0 < self.next_fresh_id by {
                        assert(self.unspent_records@[k] == tracker0[k + 1]);
                        assert(record_keys(tracker0)[k + 1] == tracker0[k + 1].0);
                    }
                }
                if g == 0 || self.next_fresh_id > u64::MAX - 3 {
                    let ghost shrunk = self.unspent_records@;
                    self.unspent_records.restore(c, g);
                    proof {
                        lemma_restored_keys_below(
                            shrunk,
                            self.unspent_records@,
                            c,
                            g,
                            self.next_fresh_id,
                        );
                    }
                    return FillerOutcome::Abandoned;
                }
                if self.consensus.ledger().contains_input_id(c) {
                    return FillerOutcome::Abandoned;
                }
                let fresh_id = self.next_fresh_id;
                let transfer = build_transfer(
                    self.account.private_key,
                    self.account.address,
                    g,
                    c,
                    g,
                    fresh_id,
                );
                let mut outs: Vec<Output> = Vec::new();
                outs.push(Output { commitment: fresh_id + 1, owner: self.account.address, gates: g });
                let ghost t = transfer@;
                proof {
                    assert(outs@ =~= seq![
                        Output { commitment: (fresh_id + 1) as u64, owner: self.account.address, gates: g },
                    ]);
                    lemma_self_transfer_admitted(l0, t, c, g, fresh_id, self.account.private_key);
                }
                match self.consensus.add_unconfirmed_transaction(transfer) {
                    Ok(()) => {
                        self.next_fresh_id = fresh_id + 2;
                        proof {
                            assert(t.ids_below((fresh_id + 2) as u64)) by {
                                assert forall|i: int| 0 <= i < t.input_ids.len()
                                    implies t.input_ids[i] < fresh_id + 2 by {
                                    assert(t.input_ids[i] == c);
                                }
                                assert(forall|i: int|
                                    0 <= i < t.outputs.len()
                                        ==> (#[trigger] t.outputs[i]).commitment < fresh_id + 2);
                            }
                            let p2 = self.consensus.spec_pool();
                            assert(p2 =~= Seq::<TxModel>::empty().push(t));
                            assert forall|i: int| 0 <= i < p2.len()
                                implies (#[trigger] p2[i]).ids_below(self.next_fresh_id) by {
                                assert(p2[i] == t);
                            }
                        }
                        FillerOutcome::Staged(outs)
                    },
                    Err(_) => {
                        proof {
                            assert(false);
                        }
                        let ghost shrunk = self.unspent_records@;
                        self.unspent_records.restore(c, g);
                        proof {
                            lemma_restored_keys_below(
                                shrunk,
                                self.unspent_records@,
                                c,
                                g,
                                self.next_fresh_id,
                            );
                        }
                        FillerOutcome::Abandoned
                    },
                }
            },
        }
    }

    /// One production cycle at the current wall-clock time.
    pub fn produce_next_block(&mut self) -> (r: CycleOutcome)
        requires
            old(self).wf(),
        ensures
            final(self).wf(),
            final(self).spec_account() == old(self).spec_account(),
            final(self).spec_shutdown() == old(self).spec_shutdown(),
            r == CycleOutcome::Skipped ==> final(self).spec_ledger() == old(self).spec_ledger(),
            (r == CycleOutcome::Rejected || r == CycleOutcome::Failed) ==> (final(self).spec_pool() == Seq::<TxModel>::empty() && final(self).spec_ledger() == old(self).spec_ledger()),
            r == CycleOutcome::Committed ==> (final(self).spec_ledger().len() == old(self).spec_ledger().len() + 1 && spec_check_block(
                old(self).spec_ledger(),
                final(self).spec_ledger().last(),
            ) == Ok::<(), ValidationError>(())),
            (old(self).spec_pool().len() > 0 && old(self).spec_ledger().last().header.height
                < u32::MAX && old(self).spec_ledger().last().header.round < u64::MAX && old(
                self,
            ).spec_ledger().last().header.timestamp < i64::MAX) ==> (r == CycleOutcome::Committed
                && exists|reading: i64|
                final(self).spec_ledger() == old(self).spec_ledger().push(
                    #[trigger] spec_proposal(
                        old(self).spec_ledger(),
                        old(self).spec_pool(),
                        old(self).spec_account().private_key,
                        reading,
                    ),
                ) && final(self).spec_pool() == old(self).spec_pool().filter(
                basic_ok(final(self).spec_ledger()),
            )),
    {
        let now = crate::clock::now_unix_timestamp();
        let r = self.produce_next_block_at(now);
        proof {
            if old(self).spec_pool().len() > 0 && old(self).spec_ledger().last().header.height
                < u32::MAX && old(self).spec_ledger().last().header.round < u64::MAX && old(
                self,
            ).spec_ledger().last().header.timestamp < i64::MAX {
                assert(self.consensus.spec_ledger() == old(self).spec_ledger().push(
                    spec_proposal(
                        old(self).spec_ledger(),
                        old(self).spec_pool(),
                        old(self).spec_account().private_key,
                        now,
                    ),
                ));
            }
        }
        r
    }
}

/// Restoring a record whose key lay below the bound keeps every tracked key
/// below the bound.
proof fn lemma_restored_keys_below(
    before: Seq<(u64, u64)>,
    after: Seq<(u64, u64)>,
    c: u64,
    g: u64,
    bound: u64,
)
    requires
        forall|k: int| 0 <= k < before.len() ==> (#[trigger] before[k]).0 < bound,
        c < bound,
        after == before || after == before.push((c, g)),
    ensures
        forall|k: int| 0 <= k < after.len() ==> (#[trigger] after[k]).0 < bound,
{
    if after == before.push((c, g)) {
        assert forall|k: int| 0 <= k < after.len() implies (#[trigger] after[k]).0 < bound by {
            if k < before.len() {
                assert(after[k] == before[k]);
            } else {
                assert(after[k] == (c, g));
            }
        }
    }
}

/// A transfer built on an unconsumed commitment of history, under fresh
/// identifiers, passes the basic validity check.
pub proof fn lemma_transfer_check_ok(
    l: Seq<crate::block::BlockModel>,
    to: u64,
    amount: u64,
    c: u64,
    g: u64,
    fresh_id: u64,
    private_key: u64,
)
    requires
        ledger_ids_below(l, fresh_id),
        !history_ids(l, family_fn(Family::InputId)).contains(c),
        c < fresh_id,
        fresh_id <= u64::MAX - 3,
        g >= amount,
    ensures
        spec_check_transaction(l, spec_transfer(private_key, to, amount, c, g, fresh_id))
            == Ok::<(), ConsensusError>(()),
{
    let t = spec_transfer(private_key, to, amount, c, g, fresh_id);
    assert(t.input_ids =~= seq![c]);
    assert(t.well_formed()) by {
        assert(t.input_ids.len() == 1);
        if g > amount {
            assert(t.commitments().len() == 2);
            assert(t.commitments()[0] == t.outputs[0].commitment);
            assert(t.commitments()[1] == t.outputs[1].commitment);
        } else {
            assert(t.commitments().len() == 1);
            assert(t.commitments()[0] == t.outputs[0].commitment);
        }
        assert(t.ids_below(u64::MAX)) by {
            assert(forall|i: int| 0 <= i < t.input_ids.len() ==> t.input_ids[i] == c);
            assert(forall|i: int|
                0 <= i < t.outputs.len()
                    ==> (#[trigger] t.outputs[i]).commitment <= fresh_id + 2);
        }
    }
    assert(!history_ids(l, family_fn(Family::TxId)).contains(t.id)) by {
        if history_ids(l, family_fn(Family::TxId)).contains(t.id) {
            assert(t.id < fresh_id);
        }
    }
    assert(t.fee_sufficient());
    assert(crate::transaction::seqs_disjoint(
        t.input_ids,
        history_ids(l, family_fn(Family::InputId)),
    )) by {
        assert forall|x: u64| t.input_ids.contains(x)
            implies !history_ids(l, family_fn(Family::InputId)).contains(x) by {
            let i = choose|i: int| 0 <= i < t.input_ids.len() && t.input_ids[i] == x;
            assert(x == c);
        }
    }
    assert(crate::transaction::seqs_disjoint(
        t.commitments(),
        history_ids(l, family_fn(Family::OutputId)),
    )) by {
        assert forall|x: u64| t.commitments().contains(x)
            implies !history_ids(l, family_fn(Family::OutputId)).contains(x) by {
            let i = choose|i: int| 0 <= i < t.commitments().len() && t.commitments()[i] == x;
            assert(t.commitments()[i] == t.outputs[i].commitment);
            assert(x >= fresh_id + 1);
            if history_ids(l, family_fn(Family::OutputId)).contains(x) {
                assert(x < fresh_id);
            }
        }
    }
    assert(crate::transaction::seqs_disjoint(
        t.program_ids(),
        history_ids(l, family_fn(Family::ProgramId)),
    )) by {
        assert(t.program_ids().len() == 0);
        assert forall|x: u64| t.program_ids().contains(x)
            implies !history_ids(l, family_fn(Family::ProgramId)).contains(x) by {
            let i = choose|i: int| 0 <= i < t.program_ids().len() && t.program_ids()[i] == x;
        }
    }
    assert(crate::transaction::seqs_disjoint(
        t.metadata_ids,
        history_ids(l, family_fn(Family::MetadataId)),
    )) by {
        assert(t.metadata_ids.len() == 0);
        assert forall|x: u64| t.metadata_ids.contains(x)
            implies !history_ids(l, family_fn(Family::MetadataId)).contains(x) by {
            let i = choose|i: int| 0 <= i < t.metadata_ids.len() && t.metadata_ids[i] == x;
        }
    }
}

/// A deployment of a program id not yet deployed, built on an unconsumed
/// commitment of history under fresh identifiers, passes the basic validity
/// check.
pub proof fn lemma_deployment_check_ok(
    l: Seq<crate::block::BlockModel>,
    program_id: u64,
    additional_fee: u64,
    c: u64,
    g: u64,
    fresh_id: u64,
    private_key: u64,
)
    requires
        ledger_ids_below(l, fresh_id),
        !history_ids(l, family_fn(Family::InputId)).contains(c),
        !history_ids(l, family_fn(Family::ProgramId)).contains(program_id),
        program_id < u64::MAX,
        c < fresh_id,
        fresh_id <= u64::MAX - 3,
        g >= additional_fee,
    ensures
        spec_check_transaction(
            l,
            spec_deployment(private_key, program_id, additional_fee, c, g, fresh_id),
        ) == Ok::<(), ConsensusError>(()),
{
    let t = spec_deployment(private_key, program_id, additional_fee, c, g, fresh_id);
    assert(t.input_ids =~= seq![c]);
    assert(t.well_formed()) by {
        assert(t.input_ids.len() == 1);
        if g > additional_fee {
            assert(t.commitments().len() == 1);
            assert(t.commitments()[0] == t.outputs[0].commitment);
        } else {
            assert(t.commitments().len() == 0);
        }
        assert(t.ids_below(u64::MAX)) by {
            assert(forall|i: int| 0 <= i < t.input_ids.len() ==> t.input_ids[i] == c);
            assert(forall|i: int|
                0 <= i < t.outputs.len()
                    ==> (#[trigger] t.outputs[i]).commitment == fresh_id + 1);
        }
    }
    assert(!history_ids(l, family_fn(Family::TxId)).contains(t.id)) by {
        if history_ids(l, family_fn(Family::TxId)).contains(t.id) {
            assert(t.id < fresh_id);
        }
    }
    assert(t.fee_sufficient());
    assert(crate::transaction::seqs_disjoint(
        t.input_ids,
        history_ids(l, family_fn(Family::InputId)),
    )) by {
        assert forall|x: u64| t.input_ids.contains(x)
            implies !history_ids(l, family_fn(Family::InputId)).contains(x) by {
            let i = choose|i: int| 0 <= i < t.input_ids.len() && t.input_ids[i] == x;
            assert(x == c);
        }
    }
    assert(crate::transaction::seqs_disjoint(
        t.commitments(),
        history_ids(l, family_fn(Family::OutputId)),
    )) by {
        assert forall|x: u64| t.commitments().contains(x)
            implies !history_ids(l, family_fn(Family::OutputId)).contains(x) by {
            let i = choose|i: int| 0 <= i < t.commitments().len() && t.commitments()[i] == x;
            assert(t.commitments()[i] == t.outputs[i].commitment);
            assert(x == fresh_id + 1);
            if history_ids(l, family_fn(Family::OutputId)).contains(x) {
                assert(x < fresh_id);
            }
        }
    }
    assert(crate::transaction::seqs_disjoint(
        t.program_ids(),
        history_ids(l, family_fn(Family::ProgramId)),
    )) by {
        assert(t.program_ids()[0] == program_id);
        assert forall|x: u64| t.program_ids().contains(x)
            implies !history_ids(l, family_fn(Family::ProgramId)).contains(x) by {
            let i = choose|i: int| 0 <= i < t.program_ids().len() && t.program_ids()[i] == x;
            assert(x == program_id);
        }
    }
    assert(crate::transaction::seqs_disjoint(
        t.metadata_ids,
        history_ids(l, family_fn(Family::MetadataId)),
    )) by {
        assert(t.metadata_ids.len() == 0);
        assert forall|x: u64| t.metadata_ids.contains(x)
            implies !history_ids(l, family_fn(Family::MetadataId)).contains(x) by {
            let i = choose|i: int| 0 <= i < t.metadata_ids.len() && t.metadata_ids[i] == x;
        }
    }
}

/// A fresh self-transfer on an empty pool is always admitted: its consumed
/// record is unspent and its new identifiers lie above everything in
/// history.
proof fn lemma_self_transfer_admitted(
    l: Seq<crate::block::BlockModel>,
    t: TxModel,
    c: u64,
    g: u64,
    fresh_id: u64,
    private_key: u64,
)
    requires
        t == spec_transfer(private_key, spec_address_of(private_key), g, c, g, fresh_id),
        ledger_ids_below(l, fresh_id),
        !history_ids(l, family_fn(Family::InputId)).contains(c),
        c < fresh_id,
        fresh_id <= u64::MAX - 3,
        g >= 1,
    ensures
        SingleNodeConsensus::spec_admit(l, Seq::<TxModel>::empty(), t)
            == Ok::<(), ConsensusError>(()),
        spec_check_transaction(l, t) == Ok::<(), ConsensusError>(()),
{
    lemma_transfer_check_ok(l, spec_address_of(private_key), g, c, g, fresh_id, private_key);
    assert(!pool_contains_id(Seq::<TxModel>::empty(), t.id)) by {
        assert(Seq::<TxModel>::empty().len() == 0);
    }
    assert(!(exists|i: int|
        0 <= i < Seq::<TxModel>::empty().len() && (#[trigger] Seq::<TxModel>::empty()[i])
            .conflicts_with(t)));
}

/// When the pool holds exactly one coherent transaction, the proposal built
/// from it carries exactly that transaction, and confirming it leaves the
/// pool with nothing valid to keep.
proof fn lemma_committed_single_transfer(
    l0: Seq<crate::block::BlockModel>,
    p1: Seq<TxModel>,
    b: crate::block::BlockModel,
)
    requires
        pool_coherent(l0, p1),
        p1.len() == 1,
        b.transactions == spec_candidates(l0, p1),
    ensures
        spec_candidates(l0, p1) == p1,
        b.transactions.len() == 1,
        p1.filter(basic_ok(l0.push(b))) == Seq::<TxModel>::empty(),
{
    assert forall|i: int| 0 <= i < p1.len() implies basic_ok(l0)(#[trigger] p1[i]) by {
        assert(spec_check_transaction(l0, p1[i]) == Ok::<(), ConsensusError>(()));
    }
    lemma_filter_all(p1, basic_ok(l0));
    assert(spec_candidates(l0, p1) == p1);
    let l2 = l0.push(b);
    crate::ledger::lemma_history_push(l0, b, family_fn(Family::TxId));
    assert forall|i: int| 0 <= i < p1.len() implies !basic_ok(l2)(#[trigger] p1[i]) by {
        let fid = p1[i].id;
        assert(b.transactions[0] == p1[i]);
        crate::transaction::lemma_family_contains(b.transactions, family_fn(Family::TxId), fid);
        assert(p1[i].own_id()[0] == fid);
        assert(family_fn(Family::TxId)(b.transactions[0]).contains(fid));
        crate::transaction::lemma_seq_add_contains(
            history_ids(l0, family_fn(Family::TxId)),
            family_ids(b.transactions, family_fn(Family::TxId)),
            fid,
        );
        assert(history_ids(l2, family_fn(Family::TxId)).contains(fid));
    }
    lemma_filter_none(p1, basic_ok(l2));
}

} // verus!\n