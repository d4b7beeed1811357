//! The fraud-proof engine: divergence search between two traces, proof
//! construction at the divergence point, and independent proof verification.
//!
//! Inclusion verification re-confirms that the committer committed to the
//! disputed (observation, action) pair at that exact position; whether that
//! pair is itself invalid under the environment's deterministic transition
//! rule is a separate replay check performed alongside it.

use vstd::prelude::*;

use crate::digest::{hash_leaf, Digest};
use crate::errors::ProtocolError;
use crate::merkle::{open, spec_path, spec_root, spec_verify_inclusion, verify_inclusion, PathNode};
use crate::trace::{leaf_seq, MatchTrace, StepRecord};

verus! {

/// A self-contained allegation about one step: the disputed leaf's contents
/// plus the sibling path needed to recompute the root from it.
#[derive(Clone, PartialEq, Eq, Debug)]
pub struct TraceStepProof {
    pub step_index: u64,
    pub obs_hash: Digest,
    pub action_hash: Digest,
    pub merkle_path: Vec<PathNode>,
}

impl TraceStepProof {
    /// The leaf digest this proof claims at its position.
    pub open spec fn spec_leaf(self) -> Digest {
        StepRecord {
            step: self.step_index,
            obs_hash: self.obs_hash,
            action_hash: self.action_hash,
        }.spec_hash()
    }
}

/// Binds an agent identity, an environment identifier, the originally
/// committed root (hex-encoded) and exactly one step proof: the allegation
/// that the committed execution is inconsistent at that step.
#[derive(Clone, PartialEq, Eq, Debug)]
pub struct FraudProofEnvelope {
    pub agent: String,
    pub system: String,
    pub committed_root: String,
    pub proof: TraceStepProof,
}

/// The length both traces share.
pub open spec fn common_len(a: Seq<StepRecord>, b: Seq<StepRecord>) -> int {
    if a.len() <= b.len() {
        a.len() as int
    } else {
        b.len() as int
    }
}

/// The leaf digests of both traces agree at every position below `n`.
pub open spec fn prefix_agrees(a: Seq<StepRecord>, b: Seq<StepRecord>, n: int) -> bool {
    forall|j: int|
        0 <= j < n ==> (#[trigger] a[j]).spec_hash() == (#[trigger] b[j]).spec_hash()
}

/// `k` is the divergence point of the two traces: the first position whose
/// leaf digests differ, or the shorter trace's length when one side
/// terminated early and the common prefix agrees.
pub open spec fn diverge_at(a: Seq<StepRecord>, b: Seq<StepRecord>, k: int) -> bool {
    let n = common_len(a, b);
    &&& 0 <= k <= n
    &&& prefix_agrees(a, b, k)
    &&& if k < n {
        a[k].spec_hash() != b[k].spec_hash()
    } else {
        a.len() != b.len() && k == n
    }
}

/// Scans step positions in increasing order and returns the first position
/// at which the two traces disagree; when no divergence is found over the
/// common length and the lengths are equal, the traces are judged consistent
/// and `None` is returned.
pub fn first_divergent_step(a: &MatchTrace, b: &MatchTrace) -> (r: Option<usize>)
    ensures
        match r {
            Some(k) => diverge_at(a.steps@, b.steps@, k as int),
            None => a.steps@.len() == b.steps@.len() && prefix_agrees(
                a.steps@,
                b.steps@,
                a.steps@.len() as int,
            ),
        },
{
    let n = if a.steps.len() < b.steps.len() {
        a.steps.len()
    } else {
        b.steps.len()
    };
    let mut i: usize = 0;
    while i < n
        invariant
            n == common_len(a.steps@, b.steps@),
            i <= n,
            prefix_agrees(a.steps@, b.steps@, i as int),
        decreases n - i,
    {
        let ha = a.steps[i].hash();
        let hb = b.steps[i].hash();
        if ha != hb {
            return Some(i);
        }
        i += 1;
    }
    if a.steps.len() != b.steps.len() {
        return Some(n);
    }
    None
}

/// Builds the step proof for the first divergence between the reference
/// trace anchored to the root under challenge and an independently
/// recomputed trace: the reference trace's own leaf contents at that
/// position plus its authentication path. `None` when no divergence exists,
/// or when the divergence point is the reference trace's own length (the
/// reference terminated early, so it has no leaf there to dispute).
pub fn build_first_divergent_proof(committed: &MatchTrace, recomputed: &MatchTrace) -> (r: Option<
    TraceStepProof,
>)
    requires
        committed.wf(),
    ensures
        match r {
            Some(p) => {
                let k = p.step_index as int;
                &&& diverge_at(committed.steps@, recomputed.steps@, k)
                &&& k < committed.steps@.len()
                &&& p.obs_hash == committed.steps@[k].obs_hash
                &&& p.action_hash == committed.steps@[k].action_hash
                &&& p.merkle_path@ == spec_path(leaf_seq(committed.steps@), k)
            },
            None => prefix_agrees(
                committed.steps@,
                recomputed.steps@,
                common_len(committed.steps@, recomputed.steps@),
            ) && committed.steps@.len() <= recomputed.steps@.len(),
        },
{
    let idx = match first_divergent_step(committed, recomputed) {
        Some(k) => k,
        None => {
            return None;
        },
    };
    if idx >= committed.steps.len() {
        return None;
    }
    let step = committed.steps[idx];
    let path = match open(committed, idx) {
        Ok(p) => p,
        Err(_) => {
            return None;
        },
    };
    Some(
        TraceStepProof {
            step_index: step.step,
            obs_hash: step.obs_hash,
            action_hash: step.action_hash,
            merkle_path: path,
        },
    )
}

/// Checks the allegation: recomputes the leaf digest from the disputed
/// step's contents and verifies its inclusion in the committed root at that
/// exact position. True exactly when the committer did commit to that
/// (observation, action) pair at that step.
pub fn verify_step_proof(root: &Digest, proof: &TraceStepProof) -> (r: bool)
    ensures
        r == spec_verify_inclusion(
            *root,
            proof.step_index as int,
            proof.spec_leaf(),
            proof.merkle_path@,
        ),
{
    let leaf = hash_leaf(proof.step_index, &proof.obs_hash, &proof.action_hash);
    verify_inclusion(root, proof.step_index, &leaf, &proof.merkle_path)
}

/// Replays' cheap consistency check: the recomputed trace matches the
/// committed root exactly when its own commitment equals that root;
/// a mismatch signals non-determinism or tampering.
pub fn check_replay(expected_root: &Digest, trace: &MatchTrace) -> (r: Result<(), ProtocolError>)
    ensures
        match r {
            Ok(()) => spec_root(leaf_seq(trace.steps@)) == *expected_root,
            Err(e) => spec_root(leaf_seq(trace.steps@)) != *expected_root && e
                == ProtocolError::TraceMismatch,
        },
{
    let root = crate::merkle::commit(trace);
    if root == *expected_root {
        Ok(())
    } else {
        Err(ProtocolError::TraceMismatch)
    }
}

/// Builds the fraud proof for a dispute, or rejects the allegation: when no
/// divergence below the reference trace's length exists, the answer is
/// `NoDivergence` — the recomputation matches as far as the reference goes,
/// so there is no step to dispute.
pub fn prove_step_fraud(committed: &MatchTrace, recomputed: &MatchTrace) -> (r: Result<
    TraceStepProof,
    ProtocolError,
>)
    requires
        committed.wf(),
    ensures
        match r {
            Ok(p) => {
                let k = p.step_index as int;
                &&& diverge_at(committed.steps@, recomputed.steps@, k)
                &&& k < committed.steps@.len()
                &&& p.obs_hash == committed.steps@[k].obs_hash
                &&& p.action_hash == committed.steps@[k].action_hash
                &&& p.merkle_path@ == spec_path(leaf_seq(committed.steps@), k)
            },
            Err(e) => prefix_agrees(
                committed.steps@,
                recomputed.steps@,
                common_len(committed.steps@, recomputed.steps@),
            ) && committed.steps@.len() <= recomputed.steps@.len() && e
                == ProtocolError::NoDivergence,
        },
{
    match build_first_divergent_proof(committed, recomputed) {
        Some(p) => Ok(p),
        None => Err(ProtocolError::NoDivergence),
    }
}

} // verus!
