//! Failure taxonomy of the protocol.
//!
//! Every operation in this library is a pure function of its inputs, so no
//! error here is retriable: the caller must change the inputs.

use vstd::prelude::*;

verus! {

/// The ways a protocol operation can fail.
#[derive(Clone, Copy, PartialEq, Eq, Structural, Debug)]
pub enum ProtocolError {
    /// Bad parameters, caught before any execution.
    ConfigError,
    /// A guest program failed to load or instantiate; fatal to that agent only.
    LoadError,
    /// Replay produced a different-length or different-content trace than the
    /// committed one: non-determinism or tampering.
    TraceMismatch,
    /// A commitment artifact is malformed.
    InvalidCommitment,
    /// A fraud-proof artifact is malformed.
    InvalidProof,
    /// An inclusion proof was requested for a step beyond the trace length.
    IndexOutOfRange,
    /// Fraud was alleged but the recomputation matches: the allegation is
    /// rejected, not an internal fault.
    NoDivergence,
}

} // verus!
