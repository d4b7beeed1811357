//! Canonical JSON text of the fraud-proof envelope.
//!
//! The envelope carries one allegation: agent, environment, the committed
//! root under challenge, and a single step proof with its Merkle path. As
//! with the commitment record, rendering is canonical and parsing accepts
//! exactly the canonical form.

use vstd::prelude::*;

use crate::artifacts::{
    chars_of, lit_action, lit_action_vec, lit_comma, lit_comma_vec, lit_committed_root,
    lit_committed_root_vec, lit_end, lit_end_vec, lit_env_system, lit_env_system_vec, lit_false,
    lit_false_vec, lit_item_close, lit_item_close_vec, lit_obj_agent, lit_obj_agent_vec, lit_obs,
    lit_obs_vec, lit_path, lit_path_vec, lit_proof, lit_proof_vec, lit_right, lit_right_vec,
    lit_sibling, lit_sibling_vec, lit_true, lit_true_vec, name_bytes, name_ok, push_name,
    read_name,
};
use crate::codec::{
    dec_value, digits_end, expect, has_lit, hex_run, name_end, push_dec_u64, push_digest_hex,
    read_dec_u64, read_digest_hex, spec_dec, spec_digest_hex, spec_digest_of_hex,
};
use crate::digest::Digest;
use crate::errors::ProtocolError;
use crate::fraud::{FraudProofEnvelope, TraceStepProof};
use crate::merkle::PathNode;

verus! {

impl FraudProofEnvelope {
    /// The mathematical content of this artifact.
    pub open spec fn model(self) -> (
        Seq<char>,
        Seq<char>,
        Seq<char>,
        u64,
        Digest,
        Digest,
        Seq<PathNode>,
    ) {
        (
            self.agent@,
            self.system@,
            self.committed_root@,
            self.proof.step_index,
            self.proof.obs_hash,
            self.proof.action_hash,
            self.proof.merkle_path@,
        )
    }

    /// Validity: every text field can stand in a JSON name field.
    pub open spec fn wf(self) -> bool {
        name_ok(self.agent@) && name_ok(self.system@) && name_ok(self.committed_root@)
    }
}

/// The canonical text of one Merkle path element.
pub open spec fn spec_render_item(n: PathNode) -> Seq<u8> {
    lit_sibling() + spec_digest_hex(n.sibling) + lit_right() + (if n.right {
        lit_true()
    } else {
        lit_false()
    }) + lit_item_close()
}

/// The canonical text of a Merkle path: its elements, comma-separated.
pub open spec fn spec_render_path(path: Seq<PathNode>) -> Seq<u8>
    decreases path.len(),
{
    if path.len() == 0 {
        Seq::empty()
    } else if path.len() == 1 {
        spec_render_item(path[0])
    } else {
        spec_render_item(path[0]) + lit_comma() + spec_render_path(path.drop_first())
    }
}

/// The canonical text of a fraud-proof envelope.
pub open spec fn spec_render_envelope(e: FraudProofEnvelope) -> Seq<u8> {
    lit_obj_agent() + name_bytes(e.agent@) + lit_env_system() + name_bytes(e.system@)
        + lit_committed_root() + name_bytes(e.committed_root@) + lit_proof() + spec_dec(
        e.proof.step_index as int,
    ) + lit_obs() + spec_digest_hex(e.proof.obs_hash) + lit_action() + spec_digest_hex(
        e.proof.action_hash,
    ) + lit_path() + spec_render_path(e.proof.merkle_path@) + lit_end()
}

/// What one path element at `p` denotes, and where it ends; `None` when the
/// text there is not a canonical element.
#[verifier::opaque]
pub open spec fn spec_parse_item(s: Seq<u8>, p: int) -> Option<(PathNode, int)> {
    let d1 = p + lit_sibling().len();
    let r0 = d1 + 64;
    let b0 = r0 + lit_right().len();
    if has_lit(s, p, lit_sibling()) && d1 + 64 <= s.len() && hex_run(s, d1, d1 + 64) && has_lit(
        s,
        r0,
        lit_right(),
    ) {
        let sib = spec_digest_of_hex(s.subrange(d1, d1 + 64));
        if has_lit(s, b0, lit_true()) && has_lit(s, b0 + lit_true().len(), lit_item_close()) {
            Some(
                (
                    PathNode { sibling: sib, right: true },
                    b0 + lit_true().len() + lit_item_close().len(),
                ),
            )
        } else if has_lit(s, b0, lit_false()) && has_lit(
            s,
            b0 + lit_false().len(),
            lit_item_close(),
        ) {
            Some(
                (
                    PathNode { sibling: sib, right: false },
                    b0 + lit_false().len() + lit_item_close().len(),
                ),
            )
        } else {
            None
        }
    } else {
        None
    }
}

/// What a non-empty comma-separated run of path elements at `p` denotes,
/// and where it ends.
pub open spec fn spec_parse_path(s: Seq<u8>, p: int) -> Option<(Seq<PathNode>, int)>
    decreases s.len() - p,
{
    match spec_parse_item(s, p) {
        None => None,
        Some(t) => {
            let q = t.1;
            if p < q < s.len() && s[q] == 44 {
                match spec_parse_path(s, q + 1) {
                    None => None,
                    Some(rest) => Some((seq![t.0] + rest.0, rest.1)),
                }
            } else {
                Some((seq![t.0], q))
            }
        },
    }
}

/// What the canonical text of a fraud-proof envelope denotes; `None` when
/// the text is not canonical.
pub open spec fn spec_parse_envelope(s: Seq<u8>) -> Option<
    (Seq<char>, Seq<char>, Seq<char>, u64, Digest, Digest, Seq<PathNode>),
> {
    let p1 = lit_obj_agent().len() as int;
    let q1 = name_end(s, p1);
    let p2 = q1 + lit_env_system().len();
    let q2 = name_end(s, p2);
    let p3 = q2 + lit_committed_root().len();
    let q3 = name_end(s, p3);
    let p4 = q3 + lit_proof().len();
    let de = digits_end(s, p4);
    let p5 = de + lit_obs().len();
    let p6 = p5 + 64 + lit_action().len();
    let p7 = p6 + 64 + lit_path().len();
    if has_lit(s, 0, lit_obj_agent()) && has_lit(s, q1, lit_env_system()) && has_lit(
        s,
        q2,
        lit_committed_root(),
    ) && has_lit(s, q3, lit_proof()) && de > p4 && dec_value(s, p4, de) <= u64::MAX && has_lit(
        s,
        de,
        lit_obs(),
    ) && p5 + 64 <= s.len() && hex_run(s, p5, p5 + 64) && has_lit(s, p5 + 64, lit_action()) && p6
        + 64 <= s.len() && hex_run(s, p6, p6 + 64) && has_lit(s, p6 + 64, lit_path()) {
        let head = (
            chars_of(s.subrange(p1, q1)),
            chars_of(s.subrange(p2, q2)),
            chars_of(s.subrange(p3, q3)),
            dec_value(s, p4, de) as u64,
            spec_digest_of_hex(s.subrange(p5, p5 + 64)),
            spec_digest_of_hex(s.subrange(p6, p6 + 64)),
        );
        if has_lit(s, p7, lit_end()) && p7 + lit_end().len() == s.len() {
            Some((head.0, head.1, head.2, head.3, head.4, head.5, Seq::empty()))
        } else {
            match spec_parse_path(s, p7) {
                None => None,
                Some(t) => {
                    if has_lit(s, t.1, lit_end()) && t.1 + lit_end().len() == s.len() {
                        Some((head.0, head.1, head.2, head.3, head.4, head.5, t.0))
                    } else {
                        None
                    }
                },
            }
        }
    } else {
        None
    }
}

/// Appends the canonical text of one path element.
fn push_item(out: &mut Vec<u8>, n: &PathNode)
    ensures
        final(out)@ == old(out)@ + spec_render_item(*n),
{
    let mut piece = lit_sibling_vec();
    out.append(&mut piece);
    push_digest_hex(out, &n.sibling);
    let mut piece = lit_right_vec();
    out.append(&mut piece);
    if n.right {
        let mut piece = lit_true_vec();
        out.append(&mut piece);
    } else {
        let mut piece = lit_false_vec();
        out.append(&mut piece);
    }
    let mut piece = lit_item_close_vec();
    out.append(&mut piece);
    assert(final(out)@ =~= old(out)@ + spec_render_item(*n));
}

/// The canonical text of the path elements from `i` on, each preceded by a
/// comma.
pub open spec fn spec_render_path_tail(path: Seq<PathNode>, i: int) -> Seq<u8>
    decreases path.len() - i,
{
    if i < 0 || i >= path.len() {
        Seq::empty()
    } else {
        lit_comma() + spec_render_item(path[i]) + spec_render_path_tail(path, i + 1)
    }
}

/// The head-and-tail reading of a rendered path.
proof fn lemma_render_path_tail(path: Seq<PathNode>, i: int)
    requires
        0 <= i < path.len(),
    ensures
        spec_render_path(path.skip(i)) == spec_render_item(path[i]) + spec_render_path_tail(
            path,
            i + 1,
        ),
    decreases path.len() - i,
{
    if i + 1 < path.len() {
        lemma_render_path_tail(path, i + 1);
        assert(path.skip(i).drop_first() =~= path.skip(i + 1));
        assert(path.skip(i)[0] == path[i]);
        assert(spec_render_path_tail(path, i + 1) =~= lit_comma() + spec_render_path(
            path.skip(i + 1),
        ));
    } else {
        assert(path.skip(i) =~= seq![path[i]]);
        assert(spec_render_path_tail(path, i + 1) =~= Seq::<u8>::empty());
        assert(spec_render_item(path[i]) + Seq::<u8>::empty() =~= spec_render_item(path[i]));
    }
}

/// Appends the canonical text of a whole path.
fn push_path(out: &mut Vec<u8>, path: &Vec<PathNode>)
    ensures
        final(out)@ == old(out)@ + spec_render_path(path@),
{
    let ghost base = out@;
    if path.len() == 0 {
        assert(final(out)@ =~= old(out)@ + spec_render_path(path@));
        return ;
    }
    push_item(out, &path[0]);
    proof {
        lemma_render_path_tail(path@, 0);
        assert(path@.skip(0) =~= path@);
        assert(base + spec_render_path(path@) =~= out@ + spec_render_path_tail(path@, 1));
    }
    let mut i: usize = 1;
    while i < path.len()
        invariant
            1 <= i <= path@.len(),
            base + spec_render_path(path@) =~= out@ + spec_render_path_tail(path@, i as int),
        decreases path@.len() - i,
    {
        let mut piece = lit_comma_vec();
        out.append(&mut piece);
        push_item(out, &path[i]);
        proof {
            assert(spec_render_path_tail(path@, i as int) =~= lit_comma() + spec_render_item(
                path@[i as int],
            ) + spec_render_path_tail(path@, i as int + 1));
            assert(base + spec_render_path(path@) =~= out@ + spec_render_path_tail(
                path@,
                i as int + 1,
            ));
        }
        i += 1;
    }
    assert(spec_render_path_tail(path@, path@.len() as int) =~= Seq::<u8>::empty());
    assert(out@ =~= base + spec_render_path(path@));
}

/// Renders a fraud-proof envelope as its canonical text.
pub fn render_envelope(e: &FraudProofEnvelope) -> (out: Vec<u8>)
    requires
        e.wf(),
    ensures
        out@ == spec_render_envelope(*e),
{
    let mut out: Vec<u8> = Vec::new();
    let mut piece = lit_obj_agent_vec();
    out.append(&mut piece);
    push_name(&mut out, &e.agent);
    let mut piece = lit_env_system_vec();
    out.append(&mut piece);
    push_name(&mut out, &e.system);
    let mut piece = lit_committed_root_vec();
    out.append(&mut piece);
    push_name(&mut out, &e.committed_root);
    let mut piece = lit_proof_vec();
    out.append(&mut piece);
    push_dec_u64(&mut out, e.proof.step_index);
    let mut piece = lit_obs_vec();
    out.append(&mut piece);
    push_digest_hex(&mut out, &e.proof.obs_hash);
    let mut piece = lit_action_vec();
    out.append(&mut piece);
    push_digest_hex(&mut out, &e.proof.action_hash);
    let mut piece = lit_path_vec();
    out.append(&mut piece);
    push_path(&mut out, &e.proof.merkle_path);
    let mut piece = lit_end_vec();
    out.append(&mut piece);
    assert(out@ =~= spec_render_envelope(*e));
    out
}

/// Reads one path element at `p`.
fn read_item(s: &Vec<u8>, p: usize) -> (r: Option<(PathNode, usize)>)
    ensures
        match r {
            Some(v) => spec_parse_item(s@, p as int) == Some((v.0, v.1 as int)) && p < v.1
                <= s@.len(),
            None => spec_parse_item(s@, p as int) is None,
        },
{
    proof {
        reveal(spec_parse_item);
    }
    let lit1 = lit_sibling_vec();
    let d1 = match expect(s, p, &lit1) {
        Some(q) => q,
        None => {
            return None;
        },
    };
    if s.len() < 64 || d1 > s.len() - 64 {
        return None;
    }
    let sib = match read_digest_hex(s, d1) {
        Some(d) => d,
        None => {
            return None;
        },
    };
    let lit2 = lit_right_vec();
    let b0 = match expect(s, d1 + 64, &lit2) {
        Some(q) => q,
        None => {
            return None;
        },
    };
    let lit_t = lit_true_vec();
    let lit_f = lit_false_vec();
    let lit_c = lit_item_close_vec();
    match expect(s, b0, &lit_t) {
        Some(after_bool) => {
            match expect(s, after_bool, &lit_c) {
                Some(q) => Some((PathNode { sibling: sib, right: true }, q)),
                None => None,
            }
        },
        None => {
            match expect(s, b0, &lit_f) {
                Some(after_bool) => {
                    match expect(s, after_bool, &lit_c) {
                        Some(q) => Some((PathNode { sibling: sib, right: false }, q)),
                        None => None,
                    }
                },
                None => None,
            }
        },
    }
}

/// Parses the canonical text of a fraud-proof envelope; any departure from
/// the canonical form is an `InvalidProof`.
#[verifier::rlimit(100)]
#[verifier::spinoff_prover]
pub fn parse_envelope(s: &Vec<u8>) -> (r: Result<FraudProofEnvelope, ProtocolError>)
    ensures
        match r {
            Ok(e) => spec_parse_envelope(s@) == Some(e.model()) && e.wf(),
            Err(err) => spec_parse_envelope(s@) is None && err == ProtocolError::InvalidProof,
        },
{
    let lit1 = lit_obj_agent_vec();
    let p1 = match expect(s, 0, &lit1) {
        Some(q) => q,
        None => {
            return Err(ProtocolError::InvalidProof);
        },
    };
    let (agent, q1) = read_name(s, p1);
    let lit2 = lit_env_system_vec();
    let p2 = match expect(s, q1, &lit2) {
        Some(q) => q,
        None => {
            return Err(ProtocolError::InvalidProof);
        },
    };
    let (system, q2) = read_name(s, p2);
    let lit3 = lit_committed_root_vec();
    let p3 = match expect(s, q2, &lit3) {
        Some(q) => q,
        None => {
            return Err(ProtocolError::InvalidProof);
        },
    };
    let (committed_root, q3) = read_name(s, p3);
    let lit4 = lit_proof_vec();
    let p4 = match expect(s, q3, &lit4) {
        Some(q) => q,
        None => {
            return Err(ProtocolError::InvalidProof);
        },
    };
    let (step_index, de) = match read_dec_u64(s, p4) {
        Some(v) => v,
        None => {
            return Err(ProtocolError::InvalidProof);
        },
    };
    let lit5 = lit_obs_vec();
    let p5 = match expect(s, de, &lit5) {
        Some(q) => q,
        None => {
            return Err(ProtocolError::InvalidProof);
        },
    };
    if s.len() < 64 || p5 > s.len() - 64 {
        return Err(ProtocolError::InvalidProof);
    }
    let obs_hash = match read_digest_hex(s, p5) {
        Some(d) => d,
        None => {
            return Err(ProtocolError::InvalidProof);
        },
    };
    let lit6 = lit_action_vec();
    let p6 = match expect(s, p5 + 64, &lit6) {
        Some(q) => q,
        None => {
            return Err(ProtocolError::InvalidProof);
        },
    };
    if p6 > s.len() - 64 {
        return Err(ProtocolError::InvalidProof);
    }
    let action_hash = match read_digest_hex(s, p6) {
        Some(d) => d,
        None => {
            return Err(ProtocolError::InvalidProof);
        },
    };
    let lit7 = lit_path_vec();
    let p7 = match expect(s, p6 + 64, &lit7) {
        Some(q) => q,
        None => {
            return Err(ProtocolError::InvalidProof);
        },
    };
    let lit_e = lit_end_vec();
    let mut merkle_path: Vec<PathNode> = Vec::new();
    match expect(s, p7, &lit_e) {
        Some(q) => {
            if q != s.len() {
                proof {
                    lemma_item_not_at_close(s@, p7 as int);
                }
                return Err(ProtocolError::InvalidProof);
            }
        },
        None => {
            let parsed = match read_path(s, p7) {
                Some(v) => v,
                None => {
                    return Err(ProtocolError::InvalidProof);
                },
            };
            merkle_path = parsed.0;
            let q = match expect(s, parsed.1, &lit_e) {
                Some(q) => q,
                None => {
                    return Err(ProtocolError::InvalidProof);
                },
            };
            if q != s.len() {
                return Err(ProtocolError::InvalidProof);
            }
        },
    }
    let envelope = FraudProofEnvelope {
        agent,
        system,
        committed_root,
        proof: TraceStepProof { step_index, obs_hash, action_hash, merkle_path },
    };
    proof {
        crate::codec::lemma_name_end_all(s@, p1 as int);
        crate::codec::lemma_name_end_all(s@, p2 as int);
        crate::codec::lemma_name_end_all(s@, p3 as int);
        crate::artifacts::lemma_chars_of_name_ok(s@, p1 as int, q1 as int);
        crate::artifacts::lemma_chars_of_name_ok(s@, p2 as int, q2 as int);
        crate::artifacts::lemma_chars_of_name_ok(s@, p3 as int, q3 as int);
    }
    Ok(envelope)
}

/// Reads a non-empty comma-separated run of path elements at `p`: the
/// elements and the position after the last one.
fn read_path(s: &Vec<u8>, p: usize) -> (r: Option<(Vec<PathNode>, usize)>)
    requires
        p <= s@.len(),
    ensures
        match r {
            Some(v) => spec_parse_path(s@, p as int) == Some((v.0@, v.1 as int)) && v.1 <= s@.len(),
            None => spec_parse_path(s@, p as int) is None,
        },
{
    let mut items: Vec<PathNode> = Vec::new();
    let first = match read_item(s, p) {
        Some(v) => v,
        None => {
            return None;
        },
    };
    items.push(first.0);
    let mut cur = first.1;
    assert(items@ =~= seq![first.0]);
    while cur < s.len() && s[cur] == 44
        invariant
            cur <= s@.len(),
            (cur < s@.len() && s@[cur as int] == 44) ==> spec_parse_path(s@, p as int) == (
            match spec_parse_path(s@, cur as int + 1) {
                Some(u) => Some((items@ + u.0, u.1)),
                None => None,
            }),
            !(cur < s@.len() && s@[cur as int] == 44) ==> spec_parse_path(s@, p as int) == Some(
                (items@, cur as int),
            ),
        decreases s@.len() - cur,
    {
        let item = match read_item(s, cur + 1) {
            Some(v) => v,
            None => {
                return None;
            },
        };
        let ghost acc0 = items@;
        items.push(item.0);
        proof {
            if item.1 < s@.len() && s@[item.1 as int] == 44 {
                if let Some(u) = spec_parse_path(s@, item.1 as int + 1) {
                    assert(acc0 + (seq![item.0] + u.0) =~= items@ + u.0);
                }
            } else {
                assert(acc0 + seq![item.0] =~= items@);
            }
        }
        cur = item.1;
    }
    Some((items, cur))
}

/// No path element starts where the closing text stands.
proof fn lemma_item_not_at_close(s: Seq<u8>, p: int)
    requires
        has_lit(s, p, lit_end()),
    ensures
        spec_parse_path(s, p) is None,
{
    reveal(spec_parse_item);
    assert(s.subrange(p, p + lit_end().len())[0] == s[p]);
    assert(s[p] == 93);
    if has_lit(s, p, lit_sibling()) {
        assert(s.subrange(p, p + lit_sibling().len())[0] == s[p]);
        assert(false);
    }
}

/// Decodes a hex-encoded 32-byte root string; anything else is an
/// `InvalidCommitment`.
pub fn decode_root(hex: &String) -> (r: Result<Digest, ProtocolError>)
    ensures
        match r {
            Ok(d) => vstd::utf8::is_ascii_chars(hex@) && hex@.len() == 64 && hex_run(
                name_bytes(hex@),
                0,
                64,
            ) && d == spec_digest_of_hex(name_bytes(hex@)),
            Err(e) => !(vstd::utf8::is_ascii_chars(hex@) && hex@.len() == 64 && hex_run(
                name_bytes(hex@),
                0,
                64,
            )) && e == ProtocolError::InvalidCommitment,
        },
{
    if !hex.is_ascii() {
        return Err(ProtocolError::InvalidCommitment);
    }
    proof {
        vstd::utf8::is_ascii_chars_encode_utf8(hex@);
    }
    let bytes = hex.as_str().as_bytes_vec();
    assert(bytes@ =~= name_bytes(hex@));
    if bytes.len() != 64 {
        return Err(ProtocolError::InvalidCommitment);
    }
    match read_digest_hex(&bytes, 0) {
        Some(d) => {
            assert(bytes@.subrange(0, 64) =~= bytes@);
            Ok(d)
        },
        None => Err(ProtocolError::InvalidCommitment),
    }
}

/// Checks a fraud-proof allegation against a commitment record: decodes the
/// committed root from the record and verifies the disputed step's inclusion
/// in it at its exact position.
pub fn verify_fraud_envelope(commitment: &crate::artifacts::Commitment, envelope: &FraudProofEnvelope) -> (r:
    Result<bool, ProtocolError>)
    ensures
        match r {
            Ok(b) => b == crate::merkle::spec_verify_inclusion(
                spec_digest_of_hex(name_bytes(commitment.merkle_root@)),
                envelope.proof.step_index as int,
                envelope.proof.spec_leaf(),
                envelope.proof.merkle_path@,
            ),
            Err(e) => !(vstd::utf8::is_ascii_chars(commitment.merkle_root@)
                && commitment.merkle_root@.len() == 64 && hex_run(
                name_bytes(commitment.merkle_root@),
                0,
                64,
            )) && e == ProtocolError::InvalidCommitment,
        },
{
    let root = match decode_root(&commitment.merkle_root) {
        Ok(d) => d,
        Err(e) => {
            return Err(e);
        },
    };
    Ok(crate::fraud::verify_step_proof(&root, &envelope.proof))
}

} // verus!
