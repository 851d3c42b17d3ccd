//! Deterministic recomputation of the coinbase and proof targets.
//!
//! The targets are difficulty-like parameters carried for compatibility: the
//! single producer never competes on them, but the proposer and the checker
//! must recompute them with the same deterministic function of the previous
//! block's last coinbase target and timestamp and the new block's timestamp.

use vstd::prelude::*;

verus! {

/// The expected spacing, in seconds, between consecutive blocks' timestamps
/// when the target is in balance.
pub const ANCHOR_TIME: i64 = 20;

/// The coinbase target the genesis block starts from.
pub const GENESIS_COINBASE_TARGET: u64 = 1024;

/// The next coinbase target: blocks arriving slower than the anchor time
/// halve the target, blocks arriving at or faster than the anchor time double
/// it, saturating at the ends of the range.
pub open spec fn spec_coinbase_target(last_target: u64, last_timestamp: i64, new_timestamp: i64) -> u64 {
    if new_timestamp - last_timestamp > ANCHOR_TIME {
        (last_target / 2 + 1) as u64
    } else if last_target > u64::MAX / 2 {
        u64::MAX
    } else if last_target == 0 {
        1
    } else {
        (last_target * 2) as u64
    }
}

/// The next coinbase target, recomputed deterministically.
pub fn coinbase_target(last_target: u64, last_timestamp: i64, new_timestamp: i64) -> (r: u64)
    ensures
        r == spec_coinbase_target(last_target, last_timestamp, new_timestamp),
{
    let elapsed: i128 = (new_timestamp as i128) - (last_timestamp as i128);
    if elapsed > ANCHOR_TIME as i128 {
        last_target / 2 + 1
    } else if last_target > u64::MAX / 2 {
        u64::MAX
    } else if last_target == 0 {
        1
    } else {
        last_target * 2
    }
}

/// The proof target paired with a coinbase target.
pub open spec fn spec_proof_target(coinbase_target: u64) -> u64 {
    (coinbase_target / 4 + 1) as u64
}

/// The proof target paired with a coinbase target.
pub fn proof_target(coinbase_target: u64) -> (r: u64)
    ensures
        r == spec_proof_target(coinbase_target),
{
    coinbase_target / 4 + 1
}

} // verus!
