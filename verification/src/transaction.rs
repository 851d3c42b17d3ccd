//! Transactions: opaque, content-addressed units with globally unique
//! identifiers.
//!
//! A transaction carries input identifiers (consumed, never reusable) and
//! output records whose commitments are its output identifiers; a deployment
//! additionally claims a program id. The whole engine revolves around keeping
//! every identifier family free of reuse, so this module also provides the
//! sequence machinery those uniqueness arguments are written in.

use vstd::prelude::*;

verus! {

/// An output record produced by a transaction: a commitment (the output
/// identifier), the owning address, and the record's balance in gates.
#[derive(Clone, Copy, PartialEq, Eq, Structural, Debug)]
pub struct Output {
    /// The output identifier, globally unique across ledger history.
    pub commitment: u64,
    /// The address owning the produced record.
    pub owner: u64,
    /// The balance of the produced record.
    pub gates: u64,
}

/// An unconfirmed or confirmed transaction.
#[derive(PartialEq, Eq, Debug)]
pub struct Transaction {
    /// The transaction id, globally unique across ledger history.
    pub id: u64,
    /// The program id a deployment claims; an execution claims none.
    pub program_id: Option<u64>,
    /// The consumed input identifiers.
    pub input_ids: Vec<u64>,
    /// The produced output records.
    pub outputs: Vec<Output>,
    /// The transition metadata identifiers: transition public keys and
    /// transition commitments, globally unique like the other families.
    pub metadata_ids: Vec<u64>,
    /// The fee the transaction reports; negative means no balance reported.
    pub fee: i64,
    /// The serialized size of the transaction in bytes.
    pub size_bytes: u64,
    /// Whether the transaction's embedded proofs verify.
    pub proof_ok: bool,
}

/// The mathematical model of a transaction.
#[verifier::ext_equal]
pub struct TxModel {
    pub id: u64,
    pub program_id: Option<u64>,
    pub input_ids: Seq<u64>,
    pub outputs: Seq<Output>,
    pub metadata_ids: Seq<u64>,
    pub fee: i64,
    pub size_bytes: u64,
    pub proof_ok: bool,
}

impl View for Transaction {
    type V = TxModel;

    open spec fn view(&self) -> TxModel {
        TxModel {
            id: self.id,
            program_id: self.program_id,
            input_ids: self.input_ids@,
            outputs: self.outputs@,
            metadata_ids: self.metadata_ids@,
            fee: self.fee,
            size_bytes: self.size_bytes,
            proof_ok: self.proof_ok,
        }
    }
}

impl Clone for Transaction {
    fn clone(&self) -> (res: Self)
        ensures
            res@ == self@,
    {
        let res = Transaction {
            id: self.id,
            program_id: self.program_id,
            input_ids: self.input_ids.clone(),
            outputs: self.outputs.clone(),
            metadata_ids: self.metadata_ids.clone(),
            fee: self.fee,
            size_bytes: self.size_bytes,
            proof_ok: self.proof_ok,
        };
        proof {
            assert(res.input_ids@ =~= self.input_ids@);
            assert(res.outputs@ =~= self.outputs@);
            assert(res.metadata_ids@ =~= self.metadata_ids@);
            assert(res@ =~= self@);
        }
        res
    }
}

/// The views of a sequence of transactions.
pub open spec fn views_of(txs: Seq<Transaction>) -> Seq<TxModel> {
    txs.map_values(|t: Transaction| t@)
}

impl TxModel {
    /// The transaction's output identifiers.
    pub open spec fn commitments(self) -> Seq<u64> {
        self.outputs.map_values(|o: Output| o.commitment)
    }

    /// The transaction's own id, as a one-element identifier family.
    pub open spec fn own_id(self) -> Seq<u64> {
        seq![self.id]
    }

    /// The program ids the transaction deploys.
    pub open spec fn program_ids(self) -> Seq<u64> {
        match self.program_id {
            Some(p) => seq![p],
            None => Seq::empty(),
        }
    }

    /// Basic well-formedness: no identifier is used twice inside the
    /// transaction, and the reserved top identifier stays free.
    pub open spec fn well_formed(self) -> bool {
        &&& self.input_ids.no_duplicates()
        &&& self.commitments().no_duplicates()
        &&& self.metadata_ids.no_duplicates()
        &&& self.ids_below(u64::MAX)
    }

    /// Every identifier of the transaction lies below the bound.
    pub open spec fn ids_below(self, bound: u64) -> bool {
        &&& self.id < bound
        &&& forall|i: int| 0 <= i < self.input_ids.len() ==> self.input_ids[i] < bound
        &&& forall|i: int| 0 <= i < self.outputs.len() ==> (#[trigger] self.outputs[i]).commitment < bound
        &&& forall|i: int| 0 <= i < self.metadata_ids.len() ==> self.metadata_ids[i] < bound
        &&& match self.program_id {
            Some(p) => p < bound,
            None => true,
        }
    }

    /// The fee rule: a transaction reporting a non-negative balance must pay
    /// at least its serialized size in bytes.
    pub open spec fn fee_sufficient(self) -> bool {
        self.fee >= 0 ==> self.fee >= self.size_bytes
    }

    /// Whether two transactions claim a common identifier in any family.
    pub open spec fn conflicts_with(self, other: TxModel) -> bool {
        ||| self.id == other.id
        ||| exists|x: u64| self.input_ids.contains(x) && other.input_ids.contains(x)
        ||| exists|x: u64| self.commitments().contains(x) && other.commitments().contains(x)
        ||| exists|x: u64| self.program_ids().contains(x) && other.program_ids().contains(x)
        ||| exists|x: u64| self.metadata_ids.contains(x) && other.metadata_ids.contains(x)
    }
}

impl Transaction {
    /// The transaction's output identifiers.
    pub fn commitments(&self) -> (r: Vec<u64>)
        ensures
            r@ == self@.commitments(),
    {
        let mut r: Vec<u64> = Vec::new();
        let n = self.outputs.len();
        for i in 0..n
            invariant
                n == self.outputs.len(),
                r@ == self@.commitments().take(i as int),
        {
            r.push(self.outputs[i].commitment);
            proof {
                assert(r@ =~= self@.commitments().take(i + 1));
            }
        }
        proof {
            assert(self@.commitments().take(n as int) =~= self@.commitments());
        }
        r
    }

    /// Checks the basic well-formedness of the transaction.
    pub fn check_well_formed(&self) -> (r: bool)
        ensures
            r == self@.well_formed(),
    {
        let commitments = self.commitments();
        let inputs_ok = vec_no_duplicates(&self.input_ids);
        let outputs_ok = vec_no_duplicates(&commitments);
        let metadata_ok = vec_no_duplicates(&self.metadata_ids);
        let bound_ok = self.max_identifier() < u64::MAX;
        proof {
            assert(self@.ids_below(u64::MAX) <==> self.spec_max_identifier_below(u64::MAX));
        }
        inputs_ok && outputs_ok && metadata_ok && bound_ok
    }

    /// Whether every identifier of the transaction lies below the bound.
    pub open spec fn spec_max_identifier_below(&self, bound: u64) -> bool {
        self@.ids_below(bound)
    }

    /// The largest identifier the transaction claims, in any family.
    pub fn max_identifier(&self) -> (r: u64)
        ensures
            self@.ids_below(u64::MAX) ==> r < u64::MAX,
            forall|b: u64| r < b ==> self@.ids_below(b),
            !self@.ids_below(r),
    {
        let mut r: u64 = self.id;
        let n = self.input_ids.len();
        for i in 0..n
            invariant
                n == self.input_ids.len(),
                r >= self.id,
                forall|j: int| 0 <= j < i ==> self.input_ids@[j] <= r,
                r == self.id || exists|j: int| 0 <= j < i && self.input_ids@[j] == r,
        {
            if self.input_ids[i] > r {
                r = self.input_ids[i];
            }
        }
        let m = self.outputs.len();
        for i in 0..m
            invariant
                m == self.outputs.len(),
                r >= self.id,
                forall|j: int| 0 <= j < self.input_ids@.len() ==> self.input_ids@[j] <= r,
                forall|j: int| 0 <= j < i ==> (#[trigger] self.outputs@[j]).commitment <= r,
                r == self.id || self.input_ids@.contains(r) || exists|j: int|
                    0 <= j < i && (#[trigger] self.outputs@[j]).commitment == r,
        {
            if self.outputs[i].commitment > r {
                r = self.outputs[i].commitment;
            }
        }
        let k = self.metadata_ids.len();
        for i in 0..k
            invariant
                k == self.metadata_ids.len(),
                r >= self.id,
                forall|j: int| 0 <= j < self.input_ids@.len() ==> self.input_ids@[j] <= r,
                forall|j: int| 0 <= j < self.outputs@.len() ==> (#[trigger] self.outputs@[j]).commitment <= r,
                forall|j: int| 0 <= j < i ==> self.metadata_ids@[j] <= r,
                r == self.id || self.input_ids@.contains(r) || (exists|j: int|
                    0 <= j < self.outputs@.len() && (#[trigger] self.outputs@[j]).commitment == r)
                    || exists|j: int| 0 <= j < i && self.metadata_ids@[j] == r,
        {
            if self.metadata_ids[i] > r {
                r = self.metadata_ids[i];
            }
        }
        let mut r = r;
        if let Some(p) = self.program_id {
            if p > r {
                r = p;
            }
        }
        proof {
            if r == self.id {
                assert(!self@.ids_below(r));
            } else if self.input_ids@.contains(r) {
                let j = choose|j: int| 0 <= j < self.input_ids@.len() && self.input_ids@[j] == r;
                assert(!self@.ids_below(r));
            } else if exists|j: int|
                0 <= j < self.outputs@.len() && (#[trigger] self.outputs@[j]).commitment == r {
                let j = choose|j: int|
                    0 <= j < self.outputs@.len() && (#[trigger] self.outputs@[j]).commitment == r;
                assert(!self@.ids_below(r));
            } else if self.metadata_ids@.contains(r) {
                let j = choose|j: int|
                    0 <= j < self.metadata_ids@.len() && self.metadata_ids@[j] == r;
                assert(!self@.ids_below(r));
            } else {
                assert(self.program_id == Some(r));
                assert(!self@.ids_below(r));
            }
        }
        r
    }

    /// Whether this transaction claims an identifier the other also claims.
    pub fn conflicts_with(&self, other: &Transaction) -> (r: bool)
        ensures
            r == self@.conflicts_with(other@),
    {
        if self.id == other.id {
            return true;
        }
        if seqs_overlap(&self.input_ids, &other.input_ids) {
            proof {
                let x = choose|x: u64| self.input_ids@.contains(x) && other.input_ids@.contains(x);
                assert(self@.input_ids.contains(x) && other@.input_ids.contains(x));
            }
            return true;
        }
        let mine = self.commitments();
        let theirs = other.commitments();
        if seqs_overlap(&mine, &theirs) {
            proof {
                let x = choose|x: u64| mine@.contains(x) && theirs@.contains(x);
                assert(self@.commitments().contains(x) && other@.commitments().contains(x));
            }
            return true;
        }
        if seqs_overlap(&self.metadata_ids, &other.metadata_ids) {
            proof {
                let x = choose|x: u64|
                    self.metadata_ids@.contains(x) && other.metadata_ids@.contains(x);
                assert(self@.metadata_ids.contains(x) && other@.metadata_ids.contains(x));
            }
            return true;
        }
        let r = match (self.program_id, other.program_id) {
            (Some(p), Some(q)) => p == q,
            _ => false,
        };
        proof {
            match (self.program_id, other.program_id) {
                (Some(p), Some(q)) => {
                    assert(self@.program_ids()[0] == p);
                    assert(other@.program_ids()[0] == q);
                    assert(self@.program_ids().contains(p));
                    assert(other@.program_ids().contains(q));
                    if p != q {
                        assert forall|x: u64|
                            self@.program_ids().contains(x) implies !other@.program_ids().contains(x) by {
                            assert(self@.program_ids()[0] == p);
                        }
                    }
                },
                _ => {
                    assert(forall|x: u64| !(self@.program_ids().contains(x)
                        && other@.program_ids().contains(x)));
                },
            }
            if !r {
                assert(forall|x: u64| !(self@.metadata_ids.contains(x)
                    && other@.metadata_ids.contains(x)));
                assert(!self@.conflicts_with(other@));
            }
        }
        r
    }
}

/// Whether a vector contains a value.
pub fn vec_contains(v: &Vec<u64>, x: u64) -> (r: bool)
    ensures
        r == v@.contains(x),
{
    let n = v.len();
    for i in 0..n
        invariant
            n == v.len(),
            forall|j: int| 0 <= j < i ==> v@[j] != x,
    {
        if v[i] == x {
            return true;
        }
    }
    false
}

/// Whether a vector holds no value twice.
pub fn vec_no_duplicates(v: &Vec<u64>) -> (r: bool)
    ensures
        r == v@.no_duplicates(),
{
    let n = v.len();
    for i in 0..n
        invariant
            n == v.len(),
            forall|j1: int, j2: int| 0 <= j1 < i && j1 < j2 < n ==> v@[j1] != v@[j2],
    {
        let mut j = i + 1;
        while j < n
            invariant
                n == v.len(),
                i < j <= n,
                forall|j2: int| i < j2 < j ==> v@[i as int] != v@[j2],
            decreases n - j,
        {
            if v[i] == v[j] {
                proof {
                    assert(v@[i as int] == v@[j as int]);
                    assert(!v@.no_duplicates());
                }
                return false;
            }
            j = j + 1;
        }
    }
    proof {
        assert forall|p: int, q: int|
            0 <= p < v@.len() && 0 <= q < v@.len() && p != q implies v@[p] != v@[q] by {
            if p < q {
                assert(v@[p] != v@[q]);
            } else {
                assert(v@[q] != v@[p]);
            }
        }
    }
    true
}

/// Whether two vectors share a value.
pub fn seqs_overlap(a: &Vec<u64>, b: &Vec<u64>) -> (r: bool)
    ensures
        r == exists|x: u64| a@.contains(x) && b@.contains(x),
{
    let n = a.len();
    for i in 0..n
        invariant
            n == a.len(),
            forall|j: int| 0 <= j < i ==> !b@.contains(a@[j]),
    {
        if vec_contains(b, a[i]) {
            proof {
                assert(a@.contains(a@[i as int]));
            }
            return true;
        }
    }
    false
}

/// The identifiers of one family claimed by a sequence of transactions, in
/// order.
pub open spec fn family_ids(txs: Seq<TxModel>, f: spec_fn(TxModel) -> Seq<u64>) -> Seq<u64>
    decreases txs.len(),
{
    if txs.len() == 0 {
        Seq::empty()
    } else {
        family_ids(txs.drop_last(), f) + f(txs.last())
    }
}

/// Appending one transaction appends its identifiers.
pub proof fn lemma_family_push(txs: Seq<TxModel>, t: TxModel, f: spec_fn(TxModel) -> Seq<u64>)
    ensures
        family_ids(txs.push(t), f) == family_ids(txs, f) + f(t),
{
    assert(txs.push(t).drop_last() =~= txs);
    assert(txs.push(t).last() == t);
}

/// A family holds an identifier exactly when some transaction claims it.
pub proof fn lemma_family_contains(txs: Seq<TxModel>, f: spec_fn(TxModel) -> Seq<u64>, x: u64)
    ensures
        family_ids(txs, f).contains(x) <==> exists|j: int| 0 <= j < txs.len() && f(txs[j]).contains(x),
    decreases txs.len(),
{
    if txs.len() == 0 {
    } else {
        let prefix = txs.drop_last();
        lemma_family_contains(prefix, f, x);
        lemma_seq_add_contains(family_ids(prefix, f), f(txs.last()), x);
        if exists|j: int| 0 <= j < txs.len() && f(txs[j]).contains(x) {
            let j = choose|j: int| 0 <= j < txs.len() && f(txs[j]).contains(x);
            if j < txs.len() - 1 {
                assert(prefix[j] == txs[j]);
                assert(family_ids(prefix, f).contains(x));
            } else {
                assert(txs[j] == txs.last());
            }
        }
        if family_ids(txs, f).contains(x) {
            if family_ids(prefix, f).contains(x) {
                let j = choose|j: int| 0 <= j < prefix.len() && f(prefix[j]).contains(x);
                assert(txs[j] == prefix[j]);
            } else {
                assert(f(txs.last()).contains(x));
                assert(txs[txs.len() - 1] == txs.last());
            }
        }
    }
}

/// Membership in a concatenation is membership in either part.
pub proof fn lemma_seq_add_contains(a: Seq<u64>, b: Seq<u64>, x: u64)
    ensures
        (a + b).contains(x) <==> a.contains(x) || b.contains(x),
{
    if a.contains(x) {
        let i = choose|i: int| 0 <= i < a.len() && a[i] == x;
        assert((a + b)[i] == x);
    }
    if b.contains(x) {
        let i = choose|i: int| 0 <= i < b.len() && b[i] == x;
        assert((a + b)[a.len() + i] == x);
    }
    if (a + b).contains(x) {
        let i = choose|i: int| 0 <= i < (a + b).len() && (a + b)[i] == x;
        if i < a.len() {
            assert(a[i] == x);
        } else {
            assert(b[i - a.len()] == x);
        }
    }
}

/// Two sequences of identifiers share no value.
pub open spec fn seqs_disjoint(a: Seq<u64>, b: Seq<u64>) -> bool {
    forall|x: u64| a.contains(x) ==> !b.contains(x)
}

/// A concatenation is duplicate-free exactly when both parts are and they are
/// disjoint.
pub proof fn lemma_no_dup_add(a: Seq<u64>, b: Seq<u64>)
    ensures
        (a + b).no_duplicates() <==> a.no_duplicates() && b.no_duplicates() && seqs_disjoint(a, b),
{
    if a.no_duplicates() && b.no_duplicates() && seqs_disjoint(a, b) {
        assert forall|i: int, j: int|
            0 <= i < (a + b).len() && 0 <= j < (a + b).len() && i != j
            implies (a + b)[i] != (a + b)[j] by {
            if i < a.len() && j < a.len() {
                assert(a[i] != a[j]);
            } else if i >= a.len() && j >= a.len() {
                assert(b[i - a.len()] != b[j - a.len()]);
            } else if i < a.len() && j >= a.len() {
                assert(a.contains(a[i]));
                if (a + b)[i] == (a + b)[j] {
                    assert(b.contains(b[j - a.len()]));
                }
            } else {
                assert(a.contains(a[j]));
                if (a + b)[i] == (a + b)[j] {
                    assert(b.contains(b[i - a.len()]));
                }
            }
        }
    }
    if (a + b).no_duplicates() {
        assert forall|i: int, j: int| 0 <= i < a.len() && 0 <= j < a.len() && i != j
            implies a[i] != a[j] by {
            assert((a + b)[i] == a[i]);
            assert((a + b)[j] == a[j]);
        }
        assert forall|i: int, j: int| 0 <= i < b.len() && 0 <= j < b.len() && i != j
            implies b[i] != b[j] by {
            assert((a + b)[a.len() + i] == b[i]);
            assert((a + b)[a.len() + j] == b[j]);
        }
        assert forall|x: u64| a.contains(x) implies !b.contains(x) by {
            if b.contains(x) {
                let i = choose|i: int| 0 <= i < a.len() && a[i] == x;
                let j = choose|j: int| 0 <= j < b.len() && b[j] == x;
                assert((a + b)[i] == x);
                assert((a + b)[a.len() + j] == x);
            }
        }
    }
}

} // verus!
