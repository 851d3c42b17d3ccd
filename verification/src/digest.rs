//! Content tags and producer signatures for the development chain.
//!
//! The development ledger runs with a single trusted producer, so it does not
//! need cryptographic hardness from its hashes and signatures; it needs them
//! to be deterministic, so that a proposer and a checker recompute the same
//! values, and collision-free where the rule set relies on freshness. A block
//! hash therefore carries the height its header commits to next to a mixed
//! tag: two blocks at different heights can never share a hash, which is the
//! one freshness fact the rule set needs.

use vstd::prelude::*;

verus! {

/// Domain separator mixed into every tag.
pub const MIX_SALT: u64 = 0x9e3779b97f4a7c15;

/// Domain separator for deriving a view key from a private key.
pub const VIEW_KEY_DOMAIN: u64 = 0x5649455744;

/// Domain separator for deriving an address from a view key.
pub const ADDRESS_DOMAIN: u64 = 0x4144445244;

/// Mixes two words into one tag.
pub open spec fn spec_mix(a: u64, b: u64) -> u64 {
    (((a << 7) | (a >> 57)) ^ b) ^ MIX_SALT
}

/// Mixes two words into one tag.
pub fn mix(a: u64, b: u64) -> (r: u64)
    ensures
        r == spec_mix(a, b),
{
    (((a << 7) | (a >> 57)) ^ b) ^ MIX_SALT
}

/// The view key derived from a private key.
pub open spec fn spec_view_key_of(private_key: u64) -> u64 {
    spec_mix(private_key, VIEW_KEY_DOMAIN)
}

/// The view key derived from a private key.
pub fn view_key_of(private_key: u64) -> (r: u64)
    ensures
        r == spec_view_key_of(private_key),
{
    mix(private_key, VIEW_KEY_DOMAIN)
}

/// The address derived from a view key.
pub open spec fn spec_address_of_view_key(view_key: u64) -> u64 {
    spec_mix(view_key, ADDRESS_DOMAIN)
}

/// The address derived from a view key.
pub fn address_of_view_key(view_key: u64) -> (r: u64)
    ensures
        r == spec_address_of_view_key(view_key),
{
    mix(view_key, ADDRESS_DOMAIN)
}

/// The address derived from a private key, through its view key.
pub open spec fn spec_address_of(private_key: u64) -> u64 {
    spec_address_of_view_key(spec_view_key_of(private_key))
}

/// The address derived from a private key, through its view key.
pub fn address_of(private_key: u64) -> (r: u64)
    ensures
        r == spec_address_of(private_key),
{
    address_of_view_key(view_key_of(private_key))
}

/// The producer signature over a message, bound to the signer's address.
pub open spec fn spec_sign(private_key: u64, message: u64) -> u64 {
    spec_mix(spec_address_of(private_key), message)
}

/// The producer signature over a message, bound to the signer's address.
pub fn sign(private_key: u64, message: u64) -> (r: u64)
    ensures
        r == spec_sign(private_key, message),
{
    mix(address_of(private_key), message)
}

/// Whether a signature over a message verifies against an address.
pub open spec fn spec_signature_valid(address: u64, message: u64, signature: u64) -> bool {
    signature == spec_mix(address, message)
}

/// Whether a signature over a message verifies against an address.
pub fn signature_valid(address: u64, message: u64, signature: u64) -> (r: bool)
    ensures
        r == spec_signature_valid(address, message, signature),
{
    signature == mix(address, message)
}

/// A signature by a key verifies against that key's address.
pub proof fn lemma_sign_verifies(private_key: u64, message: u64)
    ensures
        spec_signature_valid(spec_address_of(private_key), message, spec_sign(private_key, message)),
{
}

/// The hash sealing a block: a tag mixed from the previous hash and the
/// header, carrying the height the header commits to.
#[derive(Clone, Copy, PartialEq, Eq, Structural, Debug)]
pub struct BlockHash {
    /// The mixed tag.
    pub tag: u64,
    /// The height of the block this hash seals.
    pub height: u32,
}

impl BlockHash {
    /// The hash a genesis block points back to.
    pub open spec fn spec_empty() -> BlockHash {
        BlockHash { tag: 0, height: 0 }
    }

    /// The hash a genesis block points back to.
    pub fn empty() -> (r: BlockHash)
        ensures
            r == BlockHash::spec_empty(),
    {
        BlockHash { tag: 0, height: 0 }
    }
}

} // verus!
