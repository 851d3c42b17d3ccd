use slingshot::digest::{address_of, mix, sign, signature_valid, view_key_of, BlockHash};
use slingshot::target::{coinbase_target, proof_target, GENESIS_COINBASE_TARGET};

#[test]
fn mix_is_deterministic_and_uses_both_words() {
    assert_eq!(mix(1, 2), mix(1, 2));
    assert_ne!(mix(1, 2), mix(1, 3));
    assert_ne!(mix(1, 2), mix(2, 2));
}

#[test]
fn signature_verifies_against_own_address_only() {
    let key = 424242;
    let other_key = 424243;
    let message = 99;
    let signature = sign(key, message);
    assert!(signature_valid(address_of(key), message, signature));
    assert!(!signature_valid(address_of(other_key), message, signature));
    assert!(!signature_valid(address_of(key), message + 1, signature));
}

#[test]
fn address_derives_through_view_key() {
    let key = 7;
    let view = view_key_of(key);
    assert_eq!(address_of(key), slingshot::digest::address_of_view_key(view));
}

#[test]
fn empty_block_hash_is_the_zero_tag() {
    assert_eq!(BlockHash::empty(), BlockHash { tag: 0, height: 0 });
}

#[test]
fn slow_blocks_halve_the_coinbase_target() {
    // 25 seconds elapsed is past the 20-second anchor.
    assert_eq!(coinbase_target(1024, 0, 25), 513);
}

#[test]
fn fast_blocks_double_the_coinbase_target() {
    assert_eq!(coinbase_target(1024, 0, 10), 2048);
    assert_eq!(coinbase_target(0, 0, 10), 1);
    assert_eq!(coinbase_target(u64::MAX, 0, 10), u64::MAX);
}

#[test]
fn proof_target_is_a_quarter_plus_one() {
    assert_eq!(proof_target(1024), 257);
    assert_eq!(proof_target(GENESIS_COINBASE_TARGET), 257);
    assert_eq!(proof_target(0), 1);
}
