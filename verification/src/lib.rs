//! A single-producer development blockchain engine.
//!
//! The crate verifies the consensus core of a local development node: a
//! transaction pool, a block-proposal and block-validation rule set, an
//! append-only ledger with its uniqueness invariants, a tracker for the
//! operator's unspent records, and the decision logic of the periodic
//! block-production cycle.

pub mod block;
pub mod clock;
pub mod consensus;
pub mod digest;
pub mod error;
pub mod ledger;
pub mod node;
pub mod pool;
pub mod record_map;
pub mod target;
pub mod tracker;
pub mod transaction;
