//! The transaction pool: the staging set of unconfirmed transactions.

use vstd::prelude::*;

use crate::block::clone_transactions;
use crate::error::ConsensusError;
use crate::ledger::{basic_ok, Ledger};
use crate::transaction::{views_of, Transaction, TxModel};

verus! {

/// Whether a staged set holds a transaction with the given id.
pub open spec fn pool_contains_id(p: Seq<TxModel>, id: u64) -> bool {
    exists|i: int| 0 <= i < p.len() && (#[trigger] p[i]).id == id
}

/// The in-memory staging area for unconfirmed transactions, in insertion
/// order, with ids unique.
pub struct TransactionPool {
    transactions: Vec<Transaction>,
}

impl View for TransactionPool {
    type V = Seq<TxModel>;

    closed spec fn view(&self) -> Seq<TxModel> {
        views_of(self.transactions@)
    }
}

impl TransactionPool {
    /// Creates an empty pool.
    pub fn new() -> (r: TransactionPool)
        ensures
            r@ == Seq::<TxModel>::empty(),
    {
        let r = TransactionPool { transactions: Vec::new() };
        proof {
            assert(r@ =~= Seq::<TxModel>::empty());
        }
        r
    }

    /// The number of staged transactions.
    pub fn len(&self) -> (r: usize)
        ensures
            r == self@.len(),
    {
        self.transactions.len()
    }

    /// Whether the pool is empty.
    pub fn is_empty(&self) -> (r: bool)
        ensures
            r == (self@.len() == 0),
    {
        self.transactions.len() == 0
    }

    /// Whether a transaction with the given id is staged.
    pub fn contains(&self, id: u64) -> (r: bool)
        ensures
            r == pool_contains_id(self@, id),
    {
        let n = self.transactions.len();
        for i in 0..n
            invariant
                n == self.transactions.len(),
                forall|j: int| 0 <= j < i ==> (#[trigger] self@[j]).id != id,
        {
            proof {
                assert(self@[i as int] == self.transactions@[i as int]@);
            }
            if self.transactions[i].id == id {
                return true;
            }
        }
        false
    }

    /// Whether some staged transaction conflicts with the given one.
    pub fn conflicts_any(&self, tx: &Transaction) -> (r: bool)
        ensures
            r == exists|i: int| 0 <= i < self@.len() && (#[trigger] self@[i]).conflicts_with(tx@),
    {
        let n = self.transactions.len();
        for i in 0..n
            invariant
                n == self.transactions.len(),
                forall|j: int| 0 <= j < i ==> !(#[trigger] self@[j]).conflicts_with(tx@),
        {
            proof {
                assert(self@[i as int] == self.transactions@[i as int]@);
            }
            if self.transactions[i].conflicts_with(tx) {
                return true;
            }
        }
        false
    }

    /// Stages a transaction, refusing an id already staged and changing
    /// nothing in that case.
    pub fn add(&mut self, tx: Transaction) -> (r: Result<(), ConsensusError>)
        ensures
            match r {
                Ok(()) => {
                    &&& !pool_contains_id(old(self)@, tx@.id)
                    &&& final(self)@ == old(self)@.push(tx@)
                },
                Err(e) => {
                    &&& e == ConsensusError::DuplicateOrConflicting
                    &&& pool_contains_id(old(self)@, tx@.id)
                    &&& final(self)@ == old(self)@
                },
            },
    {
        if self.contains(tx.id) {
            return Err(ConsensusError::DuplicateOrConflicting);
        }
        let ghost p0 = self@;
        self.transactions.push(tx);
        proof {
            assert(final(self)@ =~= p0.push(tx@));
        }
        Ok(())
    }

    /// Drops every staged transaction.
    pub fn clear(&mut self)
        ensures
            final(self)@ == Seq::<TxModel>::empty(),
    {
        self.transactions = Vec::new();
        proof {
            assert(final(self)@ =~= Seq::<TxModel>::empty());
        }
    }

    /// The staged transactions the basic validity check currently accepts, in
    /// pool order; staging is left untouched.
    #[verifier::loop_isolation(false)]
    pub fn candidates(&self, ledger: &Ledger) -> (r: Vec<Transaction>)
        ensures
            views_of(r@) == self@.filter(basic_ok(ledger@)),
    {
        let mut r: Vec<Transaction> = Vec::new();
        let n = self.transactions.len();
        proof {
            reveal(Seq::filter);
            assert(self@.take(0) =~= Seq::<TxModel>::empty());
            assert(views_of(r@) =~= self@.take(0).filter(basic_ok(ledger@)));
        }
        for i in 0..n
            invariant
                n == self.transactions.len(),
                views_of(r@) == self@.take(i as int).filter(basic_ok(ledger@)),
        {
            let ghost prev = views_of(r@);
            let keep = ledger.check_transaction_basic(&self.transactions[i]).is_ok();
            if keep {
                r.push(self.transactions[i].clone());
            }
            proof {
                reveal(Seq::filter);
                assert(self@[i as int] == self.transactions@[i as int]@);
                assert(self@.take(i + 1).drop_last() =~= self@.take(i as int));
                assert(self@.take(i + 1).last() == self@[i as int]);
                if keep {
                    assert(views_of(r@) =~= prev.push(self@[i as int]));
                }
            }
        }
        proof {
            assert(self@.take(n as int) =~= self@);
        }
        r
    }

    /// Evicts every staged transaction the basic validity check now rejects.
    pub fn remove_invalid(&mut self, ledger: &Ledger)
        ensures
            final(self)@ == old(self)@.filter(basic_ok(ledger@)),
    {
        let kept = self.candidates(ledger);
        self.transactions = kept;
    }

    /// Copies of all staged transactions, in pool order.
    pub fn transactions(&self) -> (r: Vec<Transaction>)
        ensures
            views_of(r@) == self@,
    {
        clone_transactions(&self.transactions)
    }
}

impl Default for TransactionPool {
    fn default() -> (r: TransactionPool)
        ensures
            r@ == Seq::<TxModel>::empty(),
    {
        TransactionPool::new()
    }
}

/// The ids of a staged set, in pool order.
pub open spec fn pool_ids(p: Seq<TxModel>) -> Seq<u64> {
    p.map_values(|t: TxModel| t.id)
}

/// Counting law: a pool grown through `add` alone holds one entry per
/// distinct id. An accepted `add` appends a transaction whose id was not
/// staged, which keeps the staged ids duplicate-free and grows the length by
/// exactly one; a refused `add` changes nothing, so the length always equals
/// the number of distinct ids accepted so far.
pub proof fn lemma_add_keeps_ids_distinct(p: Seq<TxModel>, t: TxModel)
    requires
        pool_ids(p).no_duplicates(),
        !pool_contains_id(p, t.id),
    ensures
        pool_ids(p.push(t)).no_duplicates(),
        p.push(t).len() == p.len() + 1,
{
    let p2 = p.push(t);
    assert forall|i: int, j: int|
        0 <= i < p2.len() && 0 <= j < p2.len() && i != j
        implies pool_ids(p2)[i] != pool_ids(p2)[j] by {
        if i < p.len() && j < p.len() {
            assert(p2[i] == p[i]);
            assert(p2[j] == p[j]);
            assert(pool_ids(p)[i] != pool_ids(p)[j]);
        } else {
            let staged = if i < p.len() { i } else { j };
            assert(p2[staged] == p[staged]);
            assert(p[staged].id != t.id);
        }
    }
}

} // verus!\n