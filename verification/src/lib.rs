//! Core of a collaborative-object (CoValue) replication protocol.
//!
//! A CoValue is a content-addressed, append-only, multi-session log whose
//! transactions are merged by cryptographic chaining.  This crate maintains
//! each CoValue's per-session transaction log with a rolling BLAKE3 hash,
//! accepts new transactions only after verifying their hash chain and an
//! Ed25519 signature over the new head, computes compact known-state
//! summaries, and produces chunked new-content messages within a per-message
//! size budget.

use vstd::prelude::*;

pub mod codec;
pub mod core_state;
pub mod covalue;
pub mod crypto;
pub mod errors;
pub mod ids;
pub mod json;
pub mod permission;
pub mod session;
pub mod smap;
pub mod sync;
pub mod state;
pub mod diff;
mod priority;

pub use priority::CoValuePriority;

verus! {

/// Cumulative payload-byte threshold that triggers intermediate signature
/// checkpoints and bounds the size of a single content piece.
pub const MAX_RECOMMENDED_TX_SIZE: usize = 100 * 1024;

} // verus!
