//! Deterministic-execution commitment and fraud-proof protocol.
//!
//! A match between a deterministic environment and a deterministic agent is
//! recorded as a trace of per-step digests, committed to as a Merkle root,
//! and disputed with compact step-level inclusion proofs.

pub mod artifacts;
pub mod assoc;
pub mod cli;
pub mod codec;
pub mod digest;
pub mod envelope_codec;
pub mod errors;
pub mod executor;
pub mod fraud;
pub mod league;
pub mod ledger;
pub mod merkle;
pub mod trace;
pub mod wallet;

pub use digest::Digest;
pub use errors::ProtocolError;
