//! Fixed-width digests and the canonical mixing function used for step
//! records and Merkle nodes.
//!
//! A digest is 32 bytes, held as four 64-bit words, most significant word
//! first. Hashing is a word-at-a-time sponge over a splitmix-style mixer;
//! every hashing operation is a pure function of its inputs, which is the
//! load-bearing property for reproducible commitments. Collision resistance
//! is a statistical property of the mixer and is not stated as a contract.

use vstd::prelude::*;

verus! {

/// A 256-bit digest: four 64-bit words, most significant first.
#[derive(Clone, Copy, PartialEq, Eq, Structural, Debug)]
pub struct Digest {
    pub w0: u64,
    pub w1: u64,
    pub w2: u64,
    pub w3: u64,
}

impl Digest {
    /// The all-zero digest, used as the root of an empty trace.
    pub open spec fn spec_zero() -> Digest {
        Digest { w0: 0, w1: 0, w2: 0, w3: 0 }
    }

    /// Returns the all-zero digest.
    pub fn zero() -> (r: Digest)
        ensures
            r == Digest::spec_zero(),
    {
        Digest { w0: 0, w1: 0, w2: 0, w3: 0 }
    }
}

/// One 64-bit mixing round (a splitmix-style finalizer).
pub closed spec fn spec_mix64(z: u64) -> u64 {
    let a = (z ^ (z >> 30)).wrapping_mul(0xbf58476d1ce4e5b9);
    let b = (a ^ (a >> 27)).wrapping_mul(0x94d049bb133111eb);
    b ^ (b >> 31)
}

/// Executable form of [`spec_mix64`].
pub fn mix64(z: u64) -> (r: u64)
    ensures
        r == spec_mix64(z),
{
    let a = (z ^ (z >> 30)).wrapping_mul(0xbf58476d1ce4e5b9);
    let b = (a ^ (a >> 27)).wrapping_mul(0x94d049bb133111eb);
    b ^ (b >> 31)
}

/// Absorbs one word into the sponge state.
pub closed spec fn spec_absorb(d: Digest, x: u64) -> Digest {
    let t = spec_mix64(d.w0 ^ x);
    Digest {
        w0: d.w1 ^ t,
        w1: d.w2.wrapping_add(spec_mix64(t ^ 0x9e3779b97f4a7c15)),
        w2: d.w3 ^ spec_mix64(t ^ 0xc2b2ae3d27d4eb4f),
        w3: d.w0.wrapping_add(spec_mix64(t ^ 0x165667b19e3779f9)),
    }
}

/// Executable form of [`spec_absorb`].
pub fn absorb(d: &Digest, x: u64) -> (r: Digest)
    ensures
        r == spec_absorb(*d, x),
{
    let t = mix64(d.w0 ^ x);
    Digest {
        w0: d.w1 ^ t,
        w1: d.w2.wrapping_add(mix64(t ^ 0x9e3779b97f4a7c15)),
        w2: d.w3 ^ mix64(t ^ 0xc2b2ae3d27d4eb4f),
        w3: d.w0.wrapping_add(mix64(t ^ 0x165667b19e3779f9)),
    }
}

/// Initial sponge state for a given domain tag, so that word hashing,
/// leaf hashing and node hashing can never collide by construction alone.
pub closed spec fn spec_iv(tag: u64) -> Digest {
    Digest {
        w0: spec_mix64(tag),
        w1: spec_mix64(tag ^ 0xa0761d6478bd642f),
        w2: spec_mix64(tag ^ 0xe7037ed1a0b428db),
        w3: spec_mix64(tag ^ 0x8ebc6af09c88c6e3),
    }
}

/// Executable form of [`spec_iv`].
pub fn iv(tag: u64) -> (r: Digest)
    ensures
        r == spec_iv(tag),
{
    Digest {
        w0: mix64(tag),
        w1: mix64(tag ^ 0xa0761d6478bd642f),
        w2: mix64(tag ^ 0xe7037ed1a0b428db),
        w3: mix64(tag ^ 0x8ebc6af09c88c6e3),
    }
}

/// Digest of a single numeric value (an observation or an action).
pub open spec fn spec_hash_u64(x: u64) -> Digest {
    spec_absorb(spec_iv(1), x)
}

/// Hashes one numeric value (an observation or an action).
pub fn hash_u64(x: u64) -> (r: Digest)
    ensures
        r == spec_hash_u64(x),
{
    let d = iv(1);
    absorb(&d, x)
}

/// Absorbs the four words of a digest into the sponge state.
pub closed spec fn spec_absorb_digest(d: Digest, x: Digest) -> Digest {
    spec_absorb(spec_absorb(spec_absorb(spec_absorb(d, x.w0), x.w1), x.w2), x.w3)
}

/// Executable form of [`spec_absorb_digest`].
pub fn absorb_digest(d: &Digest, x: &Digest) -> (r: Digest)
    ensures
        r == spec_absorb_digest(*d, *x),
{
    let d = absorb(d, x.w0);
    let d = absorb(&d, x.w1);
    let d = absorb(&d, x.w2);
    absorb(&d, x.w3)
}

/// Digest of an interior Merkle node from its two children, in order.
pub open spec fn spec_hash_pair(a: Digest, b: Digest) -> Digest {
    spec_absorb_digest(spec_absorb_digest(spec_iv(2), a), b)
}

/// Hashes two child digests into their parent node digest.
pub fn hash_pair(a: &Digest, b: &Digest) -> (r: Digest)
    ensures
        r == spec_hash_pair(*a, *b),
{
    let d = iv(2);
    let d = absorb_digest(&d, a);
    absorb_digest(&d, b)
}

/// Digest of one step record: its index and the digests of the observation
/// presented to the agent and of the action the agent returned.
pub open spec fn spec_hash_leaf(step: u64, obs: Digest, action: Digest) -> Digest {
    spec_absorb_digest(spec_absorb_digest(spec_absorb(spec_iv(3), step), obs), action)
}

/// Hashes one step record into its Merkle leaf digest.
pub fn hash_leaf(step: u64, obs: &Digest, action: &Digest) -> (r: Digest)
    ensures
        r == spec_hash_leaf(step, *obs, *action),
{
    let d = iv(3);
    let d = absorb(&d, step);
    let d = absorb_digest(&d, obs);
    absorb_digest(&d, action)
}

} // verus!
