//! The trace commitment engine: Merkle tree construction, inclusion-path
//! opening, and trust-minimized inclusion verification.
//!
//! The tree is built bottom-up from the leaf digests of the step records by
//! pairwise hashing; when a level has an odd number of nodes the last node is
//! paired with itself, so the tree shape is fully determined by the leaf
//! count. `verify_inclusion` needs only a root, a leaf and a path — never the
//! trace — and is the primitive the dispute protocol rests on.

use vstd::prelude::*;

use crate::digest::{hash_pair, spec_hash_pair, Digest};
use crate::errors::ProtocolError;
use crate::trace::{leaf_seq, MatchTrace, StepRecord};

verus! {

/// One element of a Merkle authentication path: a sibling digest and the
/// side the sibling stands on. `right` is true when the sibling is the right
/// child, i.e. the node on the path is the left child.
#[derive(Clone, Copy, PartialEq, Eq, Structural, Debug)]
pub struct PathNode {
    pub sibling: Digest,
    pub right: bool,
}

/// The level above `l`: pairwise parent digests, with an odd last node
/// paired with itself.
pub open spec fn next_level(l: Seq<Digest>) -> Seq<Digest> {
    Seq::new(
        ((l.len() + 1) / 2) as nat,
        |i: int|
            spec_hash_pair(
                l[2 * i],
                if 2 * i + 1 < l.len() {
                    l[2 * i + 1]
                } else {
                    l[2 * i]
                },
            ),
    )
}

/// The Merkle root over a level of digests: levels are reduced until one
/// node is left. An empty trace commits to the all-zero digest.
pub open spec fn spec_root(l: Seq<Digest>) -> Digest
    decreases l.len(),
{
    if l.len() == 0 {
        Digest::spec_zero()
    } else if l.len() == 1 {
        l[0]
    } else {
        spec_root(next_level(l))
    }
}

/// The authentication path of the leaf at position `i` of level `l`: one
/// sibling per level, bottom-up.
pub open spec fn spec_path(l: Seq<Digest>, i: int) -> Seq<PathNode>
    decreases l.len(),
{
    if l.len() <= 1 {
        Seq::empty()
    } else {
        let node = if i % 2 == 0 {
            PathNode {
                sibling: if i + 1 < l.len() {
                    l[i + 1]
                } else {
                    l[i]
                },
                right: true,
            }
        } else {
            PathNode { sibling: l[i - 1], right: false }
        };
        seq![node] + spec_path(next_level(l), i / 2)
    }
}

/// Recomputes a candidate root by combining a leaf upward through a path.
/// `None` when a path element's side disagrees with the position bits of the
/// index, or when the path is too short to bring the index down to zero.
pub open spec fn spec_climb(leaf: Digest, i: int, path: Seq<PathNode>) -> Option<Digest>
    decreases path.len(),
{
    if path.len() == 0 {
        if i == 0 {
            Some(leaf)
        } else {
            None
        }
    } else {
        let node = path[0];
        if node.right == (i % 2 == 0) {
            let parent = if i % 2 == 0 {
                spec_hash_pair(leaf, node.sibling)
            } else {
                spec_hash_pair(node.sibling, leaf)
            };
            spec_climb(parent, i / 2, path.drop_first())
        } else {
            None
        }
    }
}

/// A leaf, its position and a path verify against a root exactly when the
/// recomputed candidate root equals it.
pub open spec fn spec_verify_inclusion(
    root: Digest,
    index: int,
    leaf: Digest,
    path: Seq<PathNode>,
) -> bool {
    spec_climb(leaf, index, path) == Some(root)
}

/// The path generated for any leaf of a level climbs back to that level's
/// root: opening a commitment always yields a verifying proof.
pub proof fn lemma_path_climbs_to_root(l: Seq<Digest>, i: int)
    requires
        0 <= i < l.len(),
    ensures
        spec_climb(l[i], i, spec_path(l, i)) == Some(spec_root(l)),
    decreases l.len(),
{
    if l.len() <= 1 {
        assert(spec_path(l, i) =~= Seq::<PathNode>::empty());
    } else {
        let nl = next_level(l);
        let path = spec_path(l, i);
        let node = path[0];
        assert(path.drop_first() =~= spec_path(nl, i / 2));
        let parent = if i % 2 == 0 {
            spec_hash_pair(l[i], node.sibling)
        } else {
            spec_hash_pair(node.sibling, l[i])
        };
        assert(2 * (i / 2) == if i % 2 == 0 { i } else { i - 1 });
        assert(nl[i / 2] == parent);
        assert(0 <= i / 2 < nl.len());
        lemma_path_climbs_to_root(nl, i / 2);
        assert(spec_climb(l[i], i, path) == spec_climb(parent, i / 2, spec_path(nl, i / 2)));
    }
}

/// Inclusion completeness: for every trace and every valid step position,
/// the opened path for that position verifies against the committed root
/// with the step's own leaf digest.
pub proof fn lemma_open_verifies(steps: Seq<StepRecord>, i: int)
    requires
        0 <= i < steps.len(),
    ensures
        spec_verify_inclusion(
            spec_root(leaf_seq(steps)),
            i,
            steps[i].spec_hash(),
            spec_path(leaf_seq(steps), i),
        ),
{
    assert(leaf_seq(steps)[i] == steps[i].spec_hash());
    lemma_path_climbs_to_root(leaf_seq(steps), i);
}

/// Computes the level above `cur`.
fn build_next_level(cur: &Vec<Digest>) -> (r: Vec<Digest>)
    requires
        cur@.len() >= 2,
    ensures
        r@ == next_level(cur@),
{
    let m = cur.len();
    let half = m / 2 + m % 2;
    assert(half == (m + 1) as int / 2);
    let mut next: Vec<Digest> = Vec::new();
    let mut j: usize = 0;
    while j < half
        invariant
            m == cur@.len(),
            2 <= m,
            half == (m + 1) / 2,
            j <= half,
            next@ =~= next_level(cur@).take(j as int),
        decreases half - j,
    {
        let a = cur[2 * j];
        let b = if 2 * j + 1 < m {
            cur[2 * j + 1]
        } else {
            cur[2 * j]
        };
        next.push(hash_pair(&a, &b));
        assert(next@ =~= next_level(cur@).take(j as int + 1));
        j += 1;
    }
    assert(next@ =~= next_level(cur@));
    next
}

/// Computes the leaf digests of a trace, in step order.
fn leaves_of(trace: &MatchTrace) -> (r: Vec<Digest>)
    ensures
        r@ == leaf_seq(trace.steps@),
{
    let n = trace.steps.len();
    let mut leaves: Vec<Digest> = Vec::new();
    let mut k: usize = 0;
    while k < n
        invariant
            n == trace.steps@.len(),
            k <= n,
            leaves@ =~= leaf_seq(trace.steps@).take(k as int),
        decreases n - k,
    {
        leaves.push(trace.steps[k].hash());
        assert(leaves@ =~= leaf_seq(trace.steps@).take(k as int + 1));
        k += 1;
    }
    assert(leaves@ =~= leaf_seq(trace.steps@));
    leaves
}

/// Builds the Merkle tree over the trace's step records and returns its
/// 32-byte root: the commitment published instead of the full trace.
/// Deterministic: the result is a function of the step records alone.
pub fn commit(trace: &MatchTrace) -> (r: Digest)
    ensures
        r == spec_root(leaf_seq(trace.steps@)),
{
    let mut cur = leaves_of(trace);
    if cur.len() == 0 {
        return Digest::zero();
    }
    let ghost l0 = leaf_seq(trace.steps@);
    while cur.len() > 1
        invariant
            1 <= cur@.len(),
            spec_root(cur@) == spec_root(l0),
        decreases cur@.len(),
    {
        let next = build_next_level(&cur);
        assert(spec_root(cur@) == spec_root(next_level(cur@)));
        cur = next;
    }
    cur[0]
}

/// Reconstructs the authentication path for the leaf at `index` by retracing
/// the same pairing and padding rule used by `commit`. Fails with
/// `IndexOutOfRange` when `index` is at or beyond the trace length; succeeds
/// on every valid index, returning the path of that leaf.
pub fn open(trace: &MatchTrace, index: usize) -> (r: Result<Vec<PathNode>, ProtocolError>)
    ensures
        match r {
            Ok(path) => index < trace.steps@.len() && path@ == spec_path(
                leaf_seq(trace.steps@),
                index as int,
            ),
            Err(e) => index >= trace.steps@.len() && e == ProtocolError::IndexOutOfRange,
        },
{
    if index >= trace.steps.len() {
        return Err(ProtocolError::IndexOutOfRange);
    }
    let ghost l0 = leaf_seq(trace.steps@);
    let mut cur = leaves_of(trace);
    let mut idx = index;
    let mut path: Vec<PathNode> = Vec::new();
    while cur.len() > 1
        invariant
            idx < cur@.len(),
            spec_path(l0, index as int) =~= path@ + spec_path(cur@, idx as int),
        decreases cur@.len(),
    {
        let m = cur.len();
        let node = if idx % 2 == 0 {
            PathNode {
                sibling: if idx + 1 < m {
                    cur[idx + 1]
                } else {
                    cur[idx]
                },
                right: true,
            }
        } else {
            PathNode { sibling: cur[idx - 1], right: false }
        };
        assert(spec_path(cur@, idx as int) =~= seq![node] + spec_path(
            next_level(cur@),
            idx as int / 2,
        ));
        path.push(node);
        let next = build_next_level(&cur);
        cur = next;
        idx = idx / 2;
        assert(spec_path(l0, index as int) =~= path@ + spec_path(cur@, idx as int));
    }
    assert(spec_path(cur@, idx as int) =~= Seq::<PathNode>::empty());
    assert(path@ =~= spec_path(l0, index as int));
    Ok(path)
}

/// Recomputes a candidate root by combining `leaf` upward through `path`
/// following the position bits of `index`, and compares it to `root`. Needs
/// no access to the original trace.
pub fn verify_inclusion(root: &Digest, index: u64, leaf: &Digest, path: &Vec<PathNode>) -> (r:
    bool)
    ensures
        r == spec_verify_inclusion(*root, index as int, *leaf, path@),
{
    let mut cur: Digest = *leaf;
    let mut idx: u64 = index;
    let mut k: usize = 0;
    assert(path@.skip(0) =~= path@);
    while k < path.len()
        invariant
            k <= path@.len(),
            spec_climb(*leaf, index as int, path@) == spec_climb(
                cur,
                idx as int,
                path@.skip(k as int),
            ),
        decreases path@.len() - k,
    {
        let node = path[k];
        assert(path@.skip(k as int)[0] == path@[k as int]);
        if node.right != (idx % 2 == 0) {
            assert(spec_climb(cur, idx as int, path@.skip(k as int)) is None);
            return false;
        }
        let parent = if idx % 2 == 0 {
            hash_pair(&cur, &node.sibling)
        } else {
            hash_pair(&node.sibling, &cur)
        };
        assert(path@.skip(k as int).drop_first() =~= path@.skip(k as int + 1));
        cur = parent;
        idx = idx / 2;
        k += 1;
    }
    assert(path@.skip(k as int) =~= Seq::<PathNode>::empty());
    idx == 0 && cur == *root
}

impl MatchTrace {
    /// The Merkle root committing to this trace.
    pub fn root(&self) -> (r: Digest)
        ensures
            r == spec_root(leaf_seq(self.steps@)),
    {
        commit(self)
    }

    /// The authentication path of the step at `index`; `IndexOutOfRange`
    /// when the trace has no such step.
    pub fn step_proof(&self, index: usize) -> (r: Result<Vec<PathNode>, ProtocolError>)
        ensures
            match r {
                Ok(path) => index < self.steps@.len() && path@ == spec_path(
                    leaf_seq(self.steps@),
                    index as int,
                ),
                Err(e) => index >= self.steps@.len() && e == ProtocolError::IndexOutOfRange,
            },
    {
        open(self, index)
    }
}

} // verus!
