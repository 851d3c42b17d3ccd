//! The tracker of the operator's known-unspent output records.

use vstd::prelude::*;

use crate::ledger::{ledger_wf, record_keys, spec_is_unspent, Ledger};
use crate::record_map::{
    entries_has_key, rm_contains_key, rm_get_index, rm_insert, rm_len, rm_new,
    rm_shift_remove_index, record_map_entries,
};
use crate::transaction::Output;

verus! {

/// The entries after absorbing a list of outputs: each output the operator
/// owns with a positive balance is appended, unless its commitment is
/// already tracked.
pub open spec fn spec_absorb(s: Seq<(u64, u64)>, outs: Seq<Output>, owner: u64) -> Seq<(u64, u64)>
    decreases outs.len(),
{
    if outs.len() == 0 {
        s
    } else {
        let s2 = spec_absorb(s, outs.drop_last(), owner);
        let o = outs.last();
        if o.owner == owner && o.gates > 0 && !entries_has_key(s2, o.commitment) {
            s2.push((o.commitment, o.gates))
        } else {
            s2
        }
    }
}

/// The operator's unspent records, keyed by commitment, in insertion order.
pub struct RecordTracker {
    records: indexmap::IndexMap<u64, u64>,
}

impl View for RecordTracker {
    type V = Seq<(u64, u64)>;

    closed spec fn view(&self) -> Seq<(u64, u64)> {
        record_map_entries(&self.records)
    }
}

impl RecordTracker {
    /// Tracker well-formedness: no commitment is tracked twice.
    pub open spec fn wf(&self) -> bool {
        record_keys(self@).no_duplicates()
    }

    /// An empty tracker.
    pub fn new() -> (r: RecordTracker)
        ensures
            r@ == Seq::<(u64, u64)>::empty(),
            r.wf(),
    {
        let r = RecordTracker { records: rm_new() };
        proof {
            assert(record_keys(r@) =~= Seq::<u64>::empty());
        }
        r
    }

    /// Scans the whole history for the operator's unspent records: done once
    /// at startup, since it walks every committed output.
    #[verifier::loop_isolation(false)]
    pub fn load(ledger: &Ledger, view_key: u64) -> (r: RecordTracker)
        requires
            ledger_wf(ledger@),
        ensures
            r.wf(),
            forall|k: int|
                0 <= k < r@.len()
                ==> spec_is_unspent(
                    ledger@,
                    crate::digest::spec_address_of_view_key(view_key),
                    (#[trigger] r@[k]).0,
                    r@[k].1,
                ),
            forall|c: u64, g: u64|
                spec_is_unspent(ledger@, crate::digest::spec_address_of_view_key(view_key), c, g)
                ==> r@.contains((c, g)),
    {
        let found = ledger.find_unspent_records(view_key);
        let mut records = rm_new();
        let n = found.len();
        for i in 0..n
            invariant
                n == found.len(),
                record_map_entries(&records) == found@.take(i as int),
                record_keys(found@).no_duplicates(),
        {
            let (c, g) = found[i];
            proof {
                assert(found@[i as int] == (c, g));
                if entries_has_key(found@.take(i as int), c) {
                    let j = choose|j: int|
                        0 <= j < i && (#[trigger] found@.take(i as int)[j]).0 == c;
                    assert(record_keys(found@)[j] == found@[j].0);
                    assert(record_keys(found@)[i as int] == c);
                }
            }
            rm_insert(&mut records, c, g);
            proof {
                assert(record_map_entries(&records) =~= found@.take(i + 1));
            }
        }
        proof {
            assert(found@.take(n as int) =~= found@);
        }
        let r = RecordTracker { records };
        proof {
            assert(r@ == found@);
        }
        r
    }

    /// The number of tracked records.
    pub fn len(&self) -> (r: usize)
        ensures
            r == self@.len(),
    {
        rm_len(&self.records)
    }

    /// Whether the tracker is empty.
    pub fn is_empty(&self) -> (r: bool)
        ensures
            r == (self@.len() == 0),
    {
        rm_len(&self.records) == 0
    }

    /// Whether a commitment is tracked.
    pub fn contains(&self, commitment: u64) -> (r: bool)
        ensures
            r == entries_has_key(self@, commitment),
    {
        rm_contains_key(&self.records, commitment)
    }

    /// The tracked record at an index, if any.
    pub fn get(&self, index: usize) -> (r: Option<(u64, u64)>)
        ensures
            index < self@.len() ==> r == Some(self@[index as int]),
            index >= self@.len() ==> r is None,
    {
        rm_get_index(&self.records, index)
    }

    /// Removes and returns the lowest-index record; None when empty.
    pub fn take_one(&mut self) -> (r: Option<(u64, u64)>)
        requires
            old(self).wf(),
        ensures
            final(self).wf(),
            old(self)@.len() == 0 ==> (r is None && final(self)@ == old(self)@),
            old(self)@.len() > 0 ==> (r == Some(old(self)@[0]) && final(self)@ == old(self)@
                .subrange(1, old(self)@.len() as int)),
    {
        let ghost s0 = self@;
        let r = rm_shift_remove_index(&mut self.records, 0);
        proof {
            if s0.len() > 0 {
                assert(self@ =~= s0.subrange(0, 0) + s0.subrange(1, s0.len() as int));
                assert(self@ =~= s0.subrange(1, s0.len() as int));
                assert forall|m1: int, m2: int|
                    0 <= m1 < self@.len() && 0 <= m2 < self@.len() && m1 != m2
                    implies record_keys(self@)[m1] != record_keys(self@)[m2] by {
                    assert(self@[m1] == s0[m1 + 1]);
                    assert(self@[m2] == s0[m2 + 1]);
                    assert(record_keys(s0)[m1 + 1] != record_keys(s0)[m2 + 1]);
                }
            }
        }
        r
    }

    /// Re-inserts a record whose consuming transaction failed to build; a
    /// commitment already tracked is left as it stands, so a repeated restore
    /// never double counts.
    pub fn restore(&mut self, commitment: u64, gates: u64)
        requires
            old(self).wf(),
        ensures
            final(self).wf(),
            entries_has_key(old(self)@, commitment) ==> final(self)@ == old(self)@,
            !entries_has_key(old(self)@, commitment) ==> final(self)@ == old(self)@.push(
                (commitment, gates),
            ),
    {
        if !rm_contains_key(&self.records, commitment) {
            let ghost s0 = self@;
            rm_insert(&mut self.records, commitment, gates);
            proof {
                lemma_keys_push_no_dup(s0, commitment, gates);
            }
        }
    }

    /// Inserts the outputs of a confirmed transaction that the operator owns
    /// with a positive balance, skipping commitments already tracked.
    #[verifier::loop_isolation(false)]
    pub fn absorb(&mut self, outputs: &Vec<Output>, owner: u64)
        requires
            old(self).wf(),
        ensures
            final(self).wf(),
            final(self)@ == spec_absorb(old(self)@, outputs@, owner),
    {
        let ghost s0 = self@;
        let n = outputs.len();
        proof {
            assert(outputs@.take(0) =~= Seq::<Output>::empty());
        }
        for i in 0..n
            invariant
                n == outputs.len(),
                self@ == spec_absorb(s0, outputs@.take(i as int), owner),
                self.wf(),
        {
            let o = outputs[i];
            let ghost before = self@;
            if o.owner == owner && o.gates > 0 && !rm_contains_key(&self.records, o.commitment) {
                rm_insert(&mut self.records, o.commitment, o.gates);
                proof {
                    lemma_keys_push_no_dup(before, o.commitment, o.gates);
                }
            }
            proof {
                assert(outputs@.take(i + 1).drop_last() =~= outputs@.take(i as int));
                assert(outputs@.take(i + 1).last() == outputs@[i as int]);
            }
        }
        proof {
            assert(outputs@.take(n as int) =~= outputs@);
        }
    }
}

/// Appending an entry under a key not yet present keeps the keys
/// duplicate-free.
proof fn lemma_keys_push_no_dup(s: Seq<(u64, u64)>, k: u64, v: u64)
    requires
        record_keys(s).no_duplicates(),
        !entries_has_key(s, k),
    ensures
        record_keys(s.push((k, v))).no_duplicates(),
{
    let s2 = s.push((k, v));
    assert forall|m1: int, m2: int|
        0 <= m1 < s2.len() && 0 <= m2 < s2.len() && m1 != m2
        implies record_keys(s2)[m1] != record_keys(s2)[m2] by {
        if m1 < s.len() && m2 < s.len() {
            assert(s2[m1] == s[m1]);
            assert(s2[m2] == s[m2]);
            assert(record_keys(s)[m1] != record_keys(s)[m2]);
        } else {
            let old_m = if m1 < s.len() { m1 } else { m2 };
            assert(s2[old_m] == s[old_m]);
        }
    }
}

} // verus!
