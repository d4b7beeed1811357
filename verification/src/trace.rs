//! The trace data model: per-step records and the match trace they form.
//!
//! A trace is the single source of truth for "what happened" in one match
//! execution. It stores one fixed-size record per step — digests only, never
//! the raw observation or action — so commitments and proofs are independent
//! of payload size.

use vstd::prelude::*;

use crate::digest::{hash_leaf, spec_hash_leaf, Digest};

verus! {

/// One simulation step: its dense 0-based position, the digest of the
/// observation presented to the agent, and the digest of the action the
/// agent returned. Immutable once produced.
#[derive(Clone, Copy, PartialEq, Eq, Structural, Debug)]
pub struct StepRecord {
    pub step: u64,
    pub obs_hash: Digest,
    pub action_hash: Digest,
}

impl StepRecord {
    /// The Merkle leaf digest of this record.
    pub open spec fn spec_hash(self) -> Digest {
        spec_hash_leaf(self.step, self.obs_hash, self.action_hash)
    }

    /// Computes the Merkle leaf digest of this record.
    pub fn hash(&self) -> (r: Digest)
        ensures
            r == self.spec_hash(),
    {
        hash_leaf(self.step, &self.obs_hash, &self.action_hash)
    }
}

/// The leaf digests of a sequence of step records, in step order.
pub open spec fn leaf_seq(steps: Seq<StepRecord>) -> Seq<Digest> {
    steps.map(|i: int, s: StepRecord| s.spec_hash())
}

/// Step indices are exactly `0..n`, dense and in order.
pub open spec fn steps_wf(steps: Seq<StepRecord>) -> bool {
    forall|i: int| 0 <= i < steps.len() ==> (#[trigger] steps[i]).step == i
}

/// An ordered, append-only record of every step of one match execution,
/// plus the final score. Produced by exactly one match execution and never
/// mutated after completion.
#[derive(Clone, PartialEq, Eq, Debug)]
pub struct MatchTrace {
    pub steps: Vec<StepRecord>,
    pub score: u64,
}

impl MatchTrace {
    /// Validity: step indices are dense and in order.
    pub open spec fn wf(self) -> bool {
        steps_wf(self.steps@)
    }

    /// The number of steps executed before termination.
    pub fn len(&self) -> (n: usize)
        ensures
            n == self.steps@.len(),
    {
        self.steps.len()
    }
}

} // verus!
