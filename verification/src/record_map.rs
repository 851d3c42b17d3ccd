//! A trusted view of `indexmap`'s ordered map, which holds the operator's
//! unspent records keyed by commitment.
//!
//! The map's contents are named by [`record_map_entries`]: the key-value
//! pairs in the map's insertion order. Each wrapper states over that name
//! what the crate's own documentation and source promise of the method it
//! calls, and nothing more.

use vstd::prelude::*;

use crate::ledger::record_keys;

verus! {

#[verifier::external_type_specification]
#[verifier::external_body]
#[verifier::reject_recursive_types(K)]
#[verifier::reject_recursive_types(V)]
#[verifier::reject_recursive_types(S)]
pub struct ExIndexMap<K, V, S>(indexmap::IndexMap<K, V, S>);

/// The entries an index map holds, in its insertion order.
pub uninterp spec fn record_map_entries(m: &indexmap::IndexMap<u64, u64>) -> Seq<(u64, u64)>;

/// Whether some entry carries the key.
pub open spec fn entries_has_key(s: Seq<(u64, u64)>, k: u64) -> bool {
    exists|i: int| 0 <= i < s.len() && (#[trigger] s[i]).0 == k
}

/// The index of the entry carrying the key.
pub open spec fn key_index(s: Seq<(u64, u64)>, k: u64) -> int {
    choose|i: int| 0 <= i < s.len() && (#[trigger] s[i]).0 == k
}

/// Relies on IndexMap::new: a fresh map holds nothing.
#[verifier::external_body]
pub fn rm_new() -> (m: indexmap::IndexMap<u64, u64>)
    ensures
        record_map_entries(&m) == Seq::<(u64, u64)>::empty(),
{
    indexmap::IndexMap::new()
}

/// Relies on IndexMap::len: the number of entries.
#[verifier::external_body]
pub fn rm_len(m: &indexmap::IndexMap<u64, u64>) -> (n: usize)
    ensures
        n == record_map_entries(m).len(),
{
    m.len()
}

/// Relies on IndexMap::contains_key: whether an equivalent key exists.
#[verifier::external_body]
pub fn rm_contains_key(m: &indexmap::IndexMap<u64, u64>, k: u64) -> (r: bool)
    ensures
        r == entries_has_key(record_map_entries(m), k),
{
    m.contains_key(&k)
}

/// Relies on IndexMap::insert: an existing key keeps its place in the order
/// and has its value replaced, the old value returned; a new key is appended
/// last and None returned.
#[verifier::external_body]
pub fn rm_insert(m: &mut indexmap::IndexMap<u64, u64>, k: u64, v: u64) -> (prev: Option<u64>)
    ensures
        !entries_has_key(record_map_entries(old(m)), k) ==> (record_map_entries(final(m))
            == record_map_entries(old(m)).push((k, v)) && prev is None),
        (entries_has_key(record_map_entries(old(m)), k) && record_keys(
            record_map_entries(old(m)),
        ).no_duplicates()) ==> (record_map_entries(final(m)) == record_map_entries(old(m)).update(
            key_index(record_map_entries(old(m)), k),
            (k, v),
        ) && prev == Some(record_map_entries(old(m))[key_index(record_map_entries(old(m)), k)].1)),
{
    m.insert(k, v)
}

/// Relies on IndexMap::shift_remove_index: removes the entry at the index by
/// shifting all later entries down, preserving their order; None when the
/// index is out of range.
#[verifier::external_body]
pub fn rm_shift_remove_index(m: &mut indexmap::IndexMap<u64, u64>, index: usize) -> (r: Option<
    (u64, u64),
>)
    ensures
        index < record_map_entries(old(m)).len() ==> (r == Some(
            record_map_entries(old(m))[index as int],
        ) && record_map_entries(final(m)) == record_map_entries(old(m)).subrange(0, index as int)
            + record_map_entries(old(m)).subrange(
            index as int + 1,
            record_map_entries(old(m)).len() as int,
        )),
        index >= record_map_entries(old(m)).len() ==> (r is None && record_map_entries(final(m))
            == record_map_entries(old(m))),
{
    m.shift_remove_index(index)
}

/// Relies on IndexMap::get_index: the entry at the index, or None when the
/// index is out of range.
#[verifier::external_body]
pub fn rm_get_index(m: &indexmap::IndexMap<u64, u64>, index: usize) -> (r: Option<(u64, u64)>)
    ensures
        index < record_map_entries(m).len() ==> r == Some(record_map_entries(m)[index as int]),
        index >= record_map_entries(m).len() ==> r is None,
{
    m.get_index(index).map(|(k, v)| (*k, *v))
}

} // verus!
