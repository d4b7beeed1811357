//! The published artifacts and their canonical JSON text: the commitment
//! record that binds an agent to an environment and a Merkle root, and the
//! fraud-proof envelope that carries one disputed step.
//!
//! Each artifact has one canonical rendering, and parsing accepts exactly
//! that form: a parsed artifact re-renders to the same bytes, and a rendered
//! artifact parses back to the same value, so re-verifying after a round
//! trip gives the same answer as before.

use vstd::prelude::*;

use crate::codec::{
    dec_value, digits_end, has_lit, is_digit, lemma_dec_embed, lemma_name_end_all,
    lemma_name_end_run, lemma_spec_dec_digits, name_byte_ok, name_end, push_dec_u64, read_dec_u64,
    spec_dec,
};
use crate::errors::ProtocolError;
use crate::executor::SystemParams;

verus! {

/// May this character stand in a JSON name field: printable ASCII, no
/// quote, no backslash?
pub open spec fn name_ok_char(c: char) -> bool {
    ' ' <= c <= '~' && c != '"' && c != '\\'
}

/// May this text stand in a JSON name field?
pub open spec fn name_ok(s: Seq<char>) -> bool {
    forall|i: int| 0 <= i < s.len() ==> name_ok_char(#[trigger] s[i])
}

/// The bytes of a name field's characters.
pub open spec fn name_bytes(s: Seq<char>) -> Seq<u8> {
    s.map(|i: int, c: char| c as u8)
}

/// The characters of a name field's bytes.
pub open spec fn chars_of(s: Seq<u8>) -> Seq<char> {
    s.map(|i: int, b: u8| b as char)
}

/// A rendered name embedded in a larger text reads back as itself: the name
/// run ends at its end and its characters come back unchanged.
pub proof fn lemma_name_embed(s: Seq<u8>, p: int, name: Seq<char>)
    requires
        name_ok(name),
        0 <= p,
        p + name.len() <= s.len(),
        s.subrange(p, p + name.len()) == name_bytes(name),
        p + name.len() == s.len() || !name_byte_ok(s[p + name.len()]),
    ensures
        name_end(s, p) == p + name.len(),
        chars_of(s.subrange(p, p + name.len())) == name,
{
    assert forall|k: int| p <= k < p + name.len() implies name_byte_ok(#[trigger] s[k]) by {
        assert(s[k] == name_bytes(name)[k - p]);
        assert(name_bytes(name)[k - p] == name[k - p] as u8);
        assert(name_ok_char(name[k - p]));
    }
    lemma_name_end_run(s, p, p + name.len());
    assert(chars_of(s.subrange(p, p + name.len())) =~= name) by {
        assert forall|k: int| 0 <= k < name.len() implies chars_of(
            s.subrange(p, p + name.len()),
        )[k] == name[k] by {
            assert(s.subrange(p, p + name.len())[k] == name[k] as u8);
            assert(name_ok_char(name[k]));
        }
    }
}

/// The text `{"system":"`.
pub open spec fn lit_obj_system() -> Seq<u8> {
    seq![123u8, 34, 115, 121, 115, 116, 101, 109, 34, 58, 34]
}

/// Builds the text `{"system":"`.
pub(crate) fn lit_obj_system_vec() -> (v: Vec<u8>)
    ensures
        v@ == lit_obj_system(),
{
    let mut v: Vec<u8> = Vec::new();
    v.push(123);
    v.push(34);
    v.push(115);
    v.push(121);
    v.push(115);
    v.push(116);
    v.push(101);
    v.push(109);
    v.push(34);
    v.push(58);
    v.push(34);
    assert(v@ =~= lit_obj_system());
    v
}

/// The text `","agent":"`.
pub open spec fn lit_agent() -> Seq<u8> {
    seq![34u8, 44, 34, 97, 103, 101, 110, 116, 34, 58, 34]
}

/// Builds the text `","agent":"`.
pub(crate) fn lit_agent_vec() -> (v: Vec<u8>)
    ensures
        v@ == lit_agent(),
{
    let mut v: Vec<u8> = Vec::new();
    v.push(34);
    v.push(44);
    v.push(34);
    v.push(97);
    v.push(103);
    v.push(101);
    v.push(110);
    v.push(116);
    v.push(34);
    v.push(58);
    v.push(34);
    assert(v@ =~= lit_agent());
    v
}

/// The text `","merkle_root":"`.
pub open spec fn lit_root() -> Seq<u8> {
    seq![34u8, 44, 34, 109, 101, 114, 107, 108, 101, 95, 114, 111, 111, 116, 34, 58, 34]
}

/// Builds the text `","merkle_root":"`.
pub(crate) fn lit_root_vec() -> (v: Vec<u8>)
    ensures
        v@ == lit_root(),
{
    let mut v: Vec<u8> = Vec::new();
    v.push(34);
    v.push(44);
    v.push(34);
    v.push(109);
    v.push(101);
    v.push(114);
    v.push(107);
    v.push(108);
    v.push(101);
    v.push(95);
    v.push(114);
    v.push(111);
    v.push(111);
    v.push(116);
    v.push(34);
    v.push(58);
    v.push(34);
    assert(v@ =~= lit_root());
    v
}

/// The text `","system_params":{"width":`.
pub open spec fn lit_params() -> Seq<u8> {
    seq![34u8, 44, 34, 115, 121, 115, 116, 101, 109, 95, 112, 97, 114, 97, 109, 115, 34, 58, 123, 34, 119, 105, 100, 116, 104, 34, 58]
}

/// Builds the text `","system_params":{"width":`.
pub(crate) fn lit_params_vec() -> (v: Vec<u8>)
    ensures
        v@ == lit_params(),
{
    let mut v: Vec<u8> = Vec::new();
    v.push(34);
    v.push(44);
    v.push(34);
    v.push(115);
    v.push(121);
    v.push(115);
    v.push(116);
    v.push(101);
    v.push(109);
    v.push(95);
    v.push(112);
    v.push(97);
    v.push(114);
    v.push(97);
    v.push(109);
    v.push(115);
    v.push(34);
    v.push(58);
    v.push(123);
    v.push(34);
    v.push(119);
    v.push(105);
    v.push(100);
    v.push(116);
    v.push(104);
    v.push(34);
    v.push(58);
    assert(v@ =~= lit_params());
    v
}

/// The text `,"height":`.
pub open spec fn lit_height() -> Seq<u8> {
    seq![44u8, 34, 104, 101, 105, 103, 104, 116, 34, 58]
}

/// Builds the text `,"height":`.
pub(crate) fn lit_height_vec() -> (v: Vec<u8>)
    ensures
        v@ == lit_height(),
{
    let mut v: Vec<u8> = Vec::new();
    v.push(44);
    v.push(34);
    v.push(104);
    v.push(101);
    v.push(105);
    v.push(103);
    v.push(104);
    v.push(116);
    v.push(34);
    v.push(58);
    assert(v@ =~= lit_height());
    v
}

/// The text `,"steps":`.
pub open spec fn lit_steps() -> Seq<u8> {
    seq![44u8, 34, 115, 116, 101, 112, 115, 34, 58]
}

/// Builds the text `,"steps":`.
pub(crate) fn lit_steps_vec() -> (v: Vec<u8>)
    ensures
        v@ == lit_steps(),
{
    let mut v: Vec<u8> = Vec::new();
    v.push(44);
    v.push(34);
    v.push(115);
    v.push(116);
    v.push(101);
    v.push(112);
    v.push(115);
    v.push(34);
    v.push(58);
    assert(v@ =~= lit_steps());
    v
}

/// The text `}}`.
pub open spec fn lit_close() -> Seq<u8> {
    seq![125u8, 125]
}

/// Builds the text `}}`.
pub(crate) fn lit_close_vec() -> (v: Vec<u8>)
    ensures
        v@ == lit_close(),
{
    let mut v: Vec<u8> = Vec::new();
    v.push(125);
    v.push(125);
    assert(v@ =~= lit_close());
    v
}

/// The text `{"agent":"`.
pub open spec fn lit_obj_agent() -> Seq<u8> {
    seq![123u8, 34, 97, 103, 101, 110, 116, 34, 58, 34]
}

/// Builds the text `{"agent":"`.
pub(crate) fn lit_obj_agent_vec() -> (v: Vec<u8>)
    ensures
        v@ == lit_obj_agent(),
{
    let mut v: Vec<u8> = Vec::new();
    v.push(123);
    v.push(34);
    v.push(97);
    v.push(103);
    v.push(101);
    v.push(110);
    v.push(116);
    v.push(34);
    v.push(58);
    v.push(34);
    assert(v@ =~= lit_obj_agent());
    v
}

/// The text `","system":"`.
pub open spec fn lit_env_system() -> Seq<u8> {
    seq![34u8, 44, 34, 115, 121, 115, 116, 101, 109, 34, 58, 34]
}

/// Builds the text `","system":"`.
pub(crate) fn lit_env_system_vec() -> (v: Vec<u8>)
    ensures
        v@ == lit_env_system(),
{
    let mut v: Vec<u8> = Vec::new();
    v.push(34);
    v.push(44);
    v.push(34);
    v.push(115);
    v.push(121);
    v.push(115);
    v.push(116);
    v.push(101);
    v.push(109);
    v.push(34);
    v.push(58);
    v.push(34);
    assert(v@ =~= lit_env_system());
    v
}

/// The text `","committed_root":"`.
pub open spec fn lit_committed_root() -> Seq<u8> {
    seq![34u8, 44, 34, 99, 111, 109, 109, 105, 116, 116, 101, 100, 95, 114, 111, 111, 116, 34, 58, 34]
}

/// Builds the text `","committed_root":"`.
pub(crate) fn lit_committed_root_vec() -> (v: Vec<u8>)
    ensures
        v@ == lit_committed_root(),
{
    let mut v: Vec<u8> = Vec::new();
    v.push(34);
    v.push(44);
    v.push(34);
    v.push(99);
    v.push(111);
    v.push(109);
    v.push(109);
    v.push(105);
    v.push(116);
    v.push(116);
    v.push(101);
    v.push(100);
    v.push(95);
    v.push(114);
    v.push(111);
    v.push(111);
    v.push(116);
    v.push(34);
    v.push(58);
    v.push(34);
    assert(v@ =~= lit_committed_root());
    v
}

/// The text `","proof":{"step_index":`.
pub open spec fn lit_proof() -> Seq<u8> {
    seq![34u8, 44, 34, 112, 114, 111, 111, 102, 34, 58, 123, 34, 115, 116, 101, 112, 95, 105, 110, 100, 101, 120, 34, 58]
}

/// Builds the text `","proof":{"step_index":`.
pub(crate) fn lit_proof_vec() -> (v: Vec<u8>)
    ensures
        v@ == lit_proof(),
{
    let mut v: Vec<u8> = Vec::new();
    v.push(34);
    v.push(44);
    v.push(34);
    v.push(112);
    v.push(114);
    v.push(111);
    v.push(111);
    v.push(102);
    v.push(34);
    v.push(58);
    v.push(123);
    v.push(34);
    v.push(115);
    v.push(116);
    v.push(101);
    v.push(112);
    v.push(95);
    v.push(105);
    v.push(110);
    v.push(100);
    v.push(101);
    v.push(120);
    v.push(34);
    v.push(58);
    assert(v@ =~= lit_proof());
    v
}

/// The text `,"obs_hash":"`.
pub open spec fn lit_obs() -> Seq<u8> {
    seq![44u8, 34, 111, 98, 115, 95, 104, 97, 115, 104, 34, 58, 34]
}

/// Builds the text `,"obs_hash":"`.
pub(crate) fn lit_obs_vec() -> (v: Vec<u8>)
    ensures
        v@ == lit_obs(),
{
    let mut v: Vec<u8> = Vec::new();
    v.push(44);
    v.push(34);
    v.push(111);
    v.push(98);
    v.push(115);
    v.push(95);
    v.push(104);
    v.push(97);
    v.push(115);
    v.push(104);
    v.push(34);
    v.push(58);
    v.push(34);
    assert(v@ =~= lit_obs());
    v
}

/// The text `","action_hash":"`.
pub open spec fn lit_action() -> Seq<u8> {
    seq![34u8, 44, 34, 97, 99, 116, 105, 111, 110, 95, 104, 97, 115, 104, 34, 58, 34]
}

/// Builds the text `","action_hash":"`.
pub(crate) fn lit_action_vec() -> (v: Vec<u8>)
    ensures
        v@ == lit_action(),
{
    let mut v: Vec<u8> = Vec::new();
    v.push(34);
    v.push(44);
    v.push(34);
    v.push(97);
    v.push(99);
    v.push(116);
    v.push(105);
    v.push(111);
    v.push(110);
    v.push(95);
    v.push(104);
    v.push(97);
    v.push(115);
    v.push(104);
    v.push(34);
    v.push(58);
    v.push(34);
    assert(v@ =~= lit_action());
    v
}

/// The text `","merkle_path":[`.
pub open spec fn lit_path() -> Seq<u8> {
    seq![34u8, 44, 34, 109, 101, 114, 107, 108, 101, 95, 112, 97, 116, 104, 34, 58, 91]
}

/// Builds the text `","merkle_path":[`.
pub(crate) fn lit_path_vec() -> (v: Vec<u8>)
    ensures
        v@ == lit_path(),
{
    let mut v: Vec<u8> = Vec::new();
    v.push(34);
    v.push(44);
    v.push(34);
    v.push(109);
    v.push(101);
    v.push(114);
    v.push(107);
    v.push(108);
    v.push(101);
    v.push(95);
    v.push(112);
    v.push(97);
    v.push(116);
    v.push(104);
    v.push(34);
    v.push(58);
    v.push(91);
    assert(v@ =~= lit_path());
    v
}

/// The text `{"sibling":"`.
pub open spec fn lit_sibling() -> Seq<u8> {
    seq![123u8, 34, 115, 105, 98, 108, 105, 110, 103, 34, 58, 34]
}

/// Builds the text `{"sibling":"`.
pub(crate) fn lit_sibling_vec() -> (v: Vec<u8>)
    ensures
        v@ == lit_sibling(),
{
    let mut v: Vec<u8> = Vec::new();
    v.push(123);
    v.push(34);
    v.push(115);
    v.push(105);
    v.push(98);
    v.push(108);
    v.push(105);
    v.push(110);
    v.push(103);
    v.push(34);
    v.push(58);
    v.push(34);
    assert(v@ =~= lit_sibling());
    v
}

/// The text `","right":`.
pub open spec fn lit_right() -> Seq<u8> {
    seq![34u8, 44, 34, 114, 105, 103, 104, 116, 34, 58]
}

/// Builds the text `","right":`.
pub(crate) fn lit_right_vec() -> (v: Vec<u8>)
    ensures
        v@ == lit_right(),
{
    let mut v: Vec<u8> = Vec::new();
    v.push(34);
    v.push(44);
    v.push(34);
    v.push(114);
    v.push(105);
    v.push(103);
    v.push(104);
    v.push(116);
    v.push(34);
    v.push(58);
    assert(v@ =~= lit_right());
    v
}

/// The text `}`.
pub open spec fn lit_item_close() -> Seq<u8> {
    seq![125u8]
}

/// Builds the text `}`.
pub(crate) fn lit_item_close_vec() -> (v: Vec<u8>)
    ensures
        v@ == lit_item_close(),
{
    let mut v: Vec<u8> = Vec::new();
    v.push(125);
    assert(v@ =~= lit_item_close());
    v
}

/// The text `,`.
pub open spec fn lit_comma() -> Seq<u8> {
    seq![44u8]
}

/// Builds the text `,`.
pub(crate) fn lit_comma_vec() -> (v: Vec<u8>)
    ensures
        v@ == lit_comma(),
{
    let mut v: Vec<u8> = Vec::new();
    v.push(44);
    assert(v@ =~= lit_comma());
    v
}

/// The text `true`.
pub open spec fn lit_true() -> Seq<u8> {
    seq![116u8, 114, 117, 101]
}

/// Builds the text `true`.
pub(crate) fn lit_true_vec() -> (v: Vec<u8>)
    ensures
        v@ == lit_true(),
{
    let mut v: Vec<u8> = Vec::new();
    v.push(116);
    v.push(114);
    v.push(117);
    v.push(101);
    assert(v@ =~= lit_true());
    v
}

/// The text `false`.
pub open spec fn lit_false() -> Seq<u8> {
    seq![102u8, 97, 108, 115, 101]
}

/// Builds the text `false`.
pub(crate) fn lit_false_vec() -> (v: Vec<u8>)
    ensures
        v@ == lit_false(),
{
    let mut v: Vec<u8> = Vec::new();
    v.push(102);
    v.push(97);
    v.push(108);
    v.push(115);
    v.push(101);
    assert(v@ =~= lit_false());
    v
}

/// The text `]}}`.
pub open spec fn lit_end() -> Seq<u8> {
    seq![93u8, 125, 125]
}

/// Builds the text `]}}`.
pub(crate) fn lit_end_vec() -> (v: Vec<u8>)
    ensures
        v@ == lit_end(),
{
    let mut v: Vec<u8> = Vec::new();
    v.push(93);
    v.push(125);
    v.push(125);
    assert(v@ =~= lit_end());
    v
}


/// Where an optionally signed integer at `p` ends.
pub open spec fn int_end(s: Seq<u8>, p: int) -> int {
    if 0 <= p < s.len() && s[p] == 45 {
        digits_end(s, p + 1)
    } else {
        digits_end(s, p)
    }
}

/// Does an optionally signed integer with at least one digit stand at `p`?
pub open spec fn int_has_digits(s: Seq<u8>, p: int) -> bool {
    if 0 <= p < s.len() && s[p] == 45 {
        digits_end(s, p + 1) > p + 1
    } else {
        digits_end(s, p) > p
    }
}

/// The value of the optionally signed integer at `p`.
pub open spec fn int_value(s: Seq<u8>, p: int) -> int {
    if 0 <= p < s.len() && s[p] == 45 {
        -dec_value(s, p + 1, digits_end(s, p + 1))
    } else {
        dec_value(s, p, digits_end(s, p))
    }
}

/// The rendering of a signed integer: a minus sign for negative values,
/// then the decimal digits of the magnitude.
pub open spec fn spec_render_int(v: int) -> Seq<u8> {
    if v < 0 {
        seq![45u8] + spec_dec(-v)
    } else {
        spec_dec(v)
    }
}

/// Reads an `i32` at `p`: its value and the position after its last digit.
pub fn read_int_i32(s: &Vec<u8>, p: usize) -> (r: Option<(i32, usize)>)
    requires
        p <= s@.len(),
    ensures
        match r {
            Some(v) => int_has_digits(s@, p as int) && -2147483648 <= int_value(s@, p as int)
                <= 2147483647 && v.0 as int == int_value(s@, p as int) && v.1 == int_end(
                s@,
                p as int,
            ),
            None => !(int_has_digits(s@, p as int) && -2147483648 <= int_value(s@, p as int)
                <= 2147483647),
        },
{
    let n_total = s.len();
    if p < n_total && s[p] == 45 {
        match read_dec_u64(s, p + 1) {
            Some((v, q)) => {
                if v <= 2147483648 {
                    let w: i32 = (-(v as i64)) as i32;
                    Some((w, q))
                } else {
                    None
                }
            },
            None => None,
        }
    } else {
        match read_dec_u64(s, p) {
            Some((v, q)) => {
                if v <= 2147483647 {
                    Some((v as i32, q))
                } else {
                    None
                }
            },
            None => None,
        }
    }
}

/// Appends the rendering of a signed integer.
pub fn push_int_i32(out: &mut Vec<u8>, v: i32)
    ensures
        final(out)@ == old(out)@ + spec_render_int(v as int),
{
    if v < 0 {
        out.push(45);
        let m: u64 = (-(v as i64)) as u64;
        push_dec_u64(out, m);
        assert(final(out)@ =~= old(out)@ + spec_render_int(v as int));
    } else {
        push_dec_u64(out, v as u64);
    }
}

/// Binds an agent identity and an environment identifier with its
/// parameters to a published Merkle root: the record verification and
/// dispute anchor to. Immutable once published.
#[derive(Clone, PartialEq, Eq, Debug)]
pub struct Commitment {
    pub system: String,
    pub agent: String,
    pub merkle_root: String,
    pub system_params: SystemParams,
}

impl Commitment {
    /// The mathematical content of this artifact.
    pub open spec fn model(self) -> (Seq<char>, Seq<char>, Seq<char>, SystemParams) {
        (self.system@, self.agent@, self.merkle_root@, self.system_params)
    }

    /// Validity: every text field can stand in a JSON name field.
    pub open spec fn wf(self) -> bool {
        name_ok(self.system@) && name_ok(self.agent@) && name_ok(self.merkle_root@)
    }
}

/// The canonical text of a commitment record.
pub open spec fn spec_render_commitment(c: Commitment) -> Seq<u8> {
    lit_obj_system() + name_bytes(c.system@) + lit_agent() + name_bytes(c.agent@) + lit_root()
        + name_bytes(c.merkle_root@) + lit_params() + spec_render_int(c.system_params.width as int)
        + lit_height() + spec_render_int(c.system_params.height as int) + lit_steps() + spec_dec(
        c.system_params.steps as int,
    ) + lit_close()
}

/// What the canonical text of a commitment record denotes; `None` when the
/// text is not canonical.
pub open spec fn spec_parse_commitment(s: Seq<u8>) -> Option<
    (Seq<char>, Seq<char>, Seq<char>, SystemParams),
> {
    let p1 = lit_obj_system().len() as int;
    let q1 = name_end(s, p1);
    let p2 = q1 + lit_agent().len();
    let q2 = name_end(s, p2);
    let p3 = q2 + lit_root().len();
    let q3 = name_end(s, p3);
    let p4 = q3 + lit_params().len();
    let we = int_end(s, p4);
    let p5 = we + lit_height().len();
    let he = int_end(s, p5);
    let p6 = he + lit_steps().len();
    let se = digits_end(s, p6);
    let p7 = se + lit_close().len();
    if has_lit(s, 0, lit_obj_system()) && has_lit(s, q1, lit_agent()) && has_lit(s, q2, lit_root())
        && has_lit(s, q3, lit_params()) && int_has_digits(s, p4) && -2147483648 <= int_value(s, p4)
        <= 2147483647 && has_lit(s, we, lit_height()) && int_has_digits(s, p5) && -2147483648
        <= int_value(s, p5) <= 2147483647 && has_lit(s, he, lit_steps()) && se > p6 && dec_value(
        s,
        p6,
        se,
    ) <= u64::MAX && has_lit(s, se, lit_close()) && p7 == s.len() {
        Some(
            (
                chars_of(s.subrange(p1, q1)),
                chars_of(s.subrange(p2, q2)),
                chars_of(s.subrange(p3, q3)),
                SystemParams {
                    width: int_value(s, p4) as i32,
                    height: int_value(s, p5) as i32,
                    steps: dec_value(s, p6, se) as u64,
                },
            ),
        )
    } else {
        None
    }
}

/// Collects the name field starting at `p`: its characters and the position
/// where it stops.
pub(crate) fn read_name(s: &Vec<u8>, p: usize) -> (r: (String, usize))
    requires
        p <= s@.len(),
    ensures
        r.1 == name_end(s@, p as int),
        p <= r.1 <= s@.len(),
        r.0@ == chars_of(s@.subrange(p as int, r.1 as int)),
{
    let n_total = s.len();
    let mut bytes: Vec<u8> = Vec::new();
    let mut q: usize = p;
    while q < n_total && 32 <= s[q] && s[q] <= 126 && s[q] != 34 && s[q] != 92
        invariant
            n_total == s@.len(),
            p <= q <= n_total,
            forall|k: int| p <= k < q ==> name_byte_ok(#[trigger] s@[k]),
            bytes@ =~= s@.subrange(p as int, q as int),
        decreases n_total - q,
    {
        bytes.push(s[q]);
        assert(bytes@ =~= s@.subrange(p as int, q as int + 1));
        q += 1;
    }
    proof {
        lemma_name_end_run(s@, p as int, q as int);
    }
    let name = ascii_bytes_to_string(bytes);
    assert(name@ =~= chars_of(s@.subrange(p as int, q as int)));
    (name, q)
}

/// Relies on String::from_utf8: decoding bytes below 128 is UTF-8 decoding
/// of ASCII, which maps each byte to the character with that code point and
/// cannot fail.
#[verifier::external_body]
fn ascii_bytes_to_string(bytes: Vec<u8>) -> (r: String)
    requires
        forall|i: int| 0 <= i < bytes@.len() ==> bytes@[i] < 128,
    ensures
        r@ == bytes@.map(|i: int, b: u8| b as char),
{
    String::from_utf8(bytes).unwrap()
}

/// Renders a commitment record as its canonical text.
pub fn render_commitment(c: &Commitment) -> (out: Vec<u8>)
    requires
        c.wf(),
    ensures
        out@ == spec_render_commitment(*c),
{
    let mut out: Vec<u8> = Vec::new();
    let mut piece = lit_obj_system_vec();
    out.append(&mut piece);
    push_name(&mut out, &c.system);
    let mut piece = lit_agent_vec();
    out.append(&mut piece);
    push_name(&mut out, &c.agent);
    let mut piece = lit_root_vec();
    out.append(&mut piece);
    push_name(&mut out, &c.merkle_root);
    let mut piece = lit_params_vec();
    out.append(&mut piece);
    push_int_i32(&mut out, c.system_params.width);
    let mut piece = lit_height_vec();
    out.append(&mut piece);
    push_int_i32(&mut out, c.system_params.height);
    let mut piece = lit_steps_vec();
    out.append(&mut piece);
    push_dec_u64(&mut out, c.system_params.steps);
    let mut piece = lit_close_vec();
    out.append(&mut piece);
    assert(out@ =~= spec_render_commitment(*c));
    out
}

/// Appends the bytes of a name field.
pub(crate) fn push_name(out: &mut Vec<u8>, s: &String)
    requires
        name_ok(s@),
    ensures
        final(out)@ == old(out)@ + name_bytes(s@),
{
    proof {
        assert(vstd::utf8::is_ascii_chars(s@));
        vstd::utf8::is_ascii_chars_encode_utf8(s@);
    }
    let slice = s.as_str().as_bytes();
    out.extend_from_slice(slice);
    assert(final(out)@ =~= old(out)@ + name_bytes(s@));
}

/// Parses the canonical text of a commitment record; any departure from the
/// canonical form is an `InvalidCommitment`.
pub fn parse_commitment(s: &Vec<u8>) -> (r: Result<Commitment, ProtocolError>)
    ensures
        match r {
            Ok(c) => spec_parse_commitment(s@) == Some(c.model()) && c.wf(),
            Err(e) => spec_parse_commitment(s@) is None && e == ProtocolError::InvalidCommitment,
        },
{
    let lit1 = lit_obj_system_vec();
    let p1 = match crate::codec::expect(s, 0, &lit1) {
        Some(q) => q,
        None => {
            return Err(ProtocolError::InvalidCommitment);
        },
    };
    let (system, q1) = read_name(s, p1);
    let lit2 = lit_agent_vec();
    let p2 = match crate::codec::expect(s, q1, &lit2) {
        Some(q) => q,
        None => {
            return Err(ProtocolError::InvalidCommitment);
        },
    };
    let (agent, q2) = read_name(s, p2);
    let lit3 = lit_root_vec();
    let p3 = match crate::codec::expect(s, q2, &lit3) {
        Some(q) => q,
        None => {
            return Err(ProtocolError::InvalidCommitment);
        },
    };
    let (merkle_root, q3) = read_name(s, p3);
    let lit4 = lit_params_vec();
    let p4 = match crate::codec::expect(s, q3, &lit4) {
        Some(q) => q,
        None => {
            return Err(ProtocolError::InvalidCommitment);
        },
    };
    let (width, we) = match read_int_i32(s, p4) {
        Some(v) => v,
        None => {
            return Err(ProtocolError::InvalidCommitment);
        },
    };
    let lit5 = lit_height_vec();
    let p5 = match crate::codec::expect(s, we, &lit5) {
        Some(q) => q,
        None => {
            return Err(ProtocolError::InvalidCommitment);
        },
    };
    let (height, he) = match read_int_i32(s, p5) {
        Some(v) => v,
        None => {
            return Err(ProtocolError::InvalidCommitment);
        },
    };
    let lit6 = lit_steps_vec();
    let p6 = match crate::codec::expect(s, he, &lit6) {
        Some(q) => q,
        None => {
            return Err(ProtocolError::InvalidCommitment);
        },
    };
    let (steps, se) = match read_dec_u64(s, p6) {
        Some(v) => v,
        None => {
            return Err(ProtocolError::InvalidCommitment);
        },
    };
    let lit7 = lit_close_vec();
    let p7 = match crate::codec::expect(s, se, &lit7) {
        Some(q) => q,
        None => {
            return Err(ProtocolError::InvalidCommitment);
        },
    };
    if p7 != s.len() {
        return Err(ProtocolError::InvalidCommitment);
    }
    let c = Commitment {
        system,
        agent,
        merkle_root,
        system_params: SystemParams { width, height, steps },
    };
    proof {
        lemma_name_end_all(s@, p1 as int);
        lemma_name_end_all(s@, p2 as int);
        lemma_name_end_all(s@, p3 as int);
        lemma_chars_of_name_ok(s@, p1 as int, q1 as int);
        lemma_chars_of_name_ok(s@, p2 as int, q2 as int);
        lemma_chars_of_name_ok(s@, p3 as int, q3 as int);
    }
    Ok(c)
}

/// The characters read from a run of acceptable name bytes can stand in a
/// name field again.
pub(crate) proof fn lemma_chars_of_name_ok(s: Seq<u8>, p: int, q: int)
    requires
        0 <= p <= q <= s.len(),
        q == name_end(s, p),
    ensures
        name_ok(chars_of(s.subrange(p, q))),
{
    lemma_name_end_all(s, p);
    assert forall|i: int| 0 <= i < q - p implies name_ok_char(
        #[trigger] chars_of(s.subrange(p, q))[i],
    ) by {
        assert(name_byte_ok(s[p + i]));
        assert(chars_of(s.subrange(p, q))[i] == s[p + i] as char);
    }
}

/// A canonically rendered commitment parses back to its own content.
#[verifier::rlimit(100)]
#[verifier::spinoff_prover]
pub proof fn lemma_commitment_round_trip(c: Commitment)
    requires
        c.wf(),
    ensures
        spec_parse_commitment(spec_render_commitment(c)) == Some(c.model()),
{
    let s = spec_render_commitment(c);
    let n1 = name_bytes(c.system@);
    let n2 = name_bytes(c.agent@);
    let n3 = name_bytes(c.merkle_root@);
    let w = spec_render_int(c.system_params.width as int);
    let h = spec_render_int(c.system_params.height as int);
    let st = spec_dec(c.system_params.steps as int);
    let p1 = lit_obj_system().len() as int;
    let q1 = p1 + n1.len();
    let p2 = q1 + lit_agent().len();
    let q2 = p2 + n2.len();
    let p3 = q2 + lit_root().len();
    let q3 = p3 + n3.len();
    let p4 = q3 + lit_params().len();
    let we = p4 + w.len();
    let p5 = we + lit_height().len();
    let he = p5 + h.len();
    let p6 = he + lit_steps().len();
    let se = p6 + st.len();
    let p7 = se + lit_close().len();
    lemma_render_int_shape(c.system_params.width as int);
    lemma_render_int_shape(c.system_params.height as int);
    lemma_spec_dec_digits(c.system_params.steps as int);
    assert(s.len() == p7);
    assert(s.subrange(0, p1) =~= lit_obj_system());
    assert(s.subrange(p1, q1) =~= n1);
    assert(s.subrange(q1, p2) =~= lit_agent());
    assert(s.subrange(p2, q2) =~= n2);
    assert(s.subrange(q2, p3) =~= lit_root());
    assert(s.subrange(p3, q3) =~= n3);
    assert(s.subrange(q3, p4) =~= lit_params());
    assert(s.subrange(p4, we) =~= w);
    assert(s.subrange(we, p5) =~= lit_height());
    assert(s.subrange(p5, he) =~= h);
    assert(s.subrange(he, p6) =~= lit_steps());
    assert(s.subrange(p6, se) =~= st);
    assert(s.subrange(se, p7) =~= lit_close());
    lemma_name_embed(s, p1, c.system@);
    lemma_name_embed(s, p2, c.agent@);
    lemma_name_embed(s, p3, c.merkle_root@);
    lemma_int_embed(s, p4, c.system_params.width as int);
    lemma_int_embed(s, p5, c.system_params.height as int);
    lemma_dec_embed(s, p6, c.system_params.steps as int);
}

/// A rendered integer starts with a sign or digit and holds digits after
/// any sign.
proof fn lemma_render_int_shape(v: int)
    ensures
        spec_render_int(v).len() >= 1,
        v < 0 ==> spec_render_int(v)[0] == 45 && spec_render_int(v) == seq![45u8] + spec_dec(-v),
        v >= 0 ==> spec_render_int(v) == spec_dec(v),
{
    if v < 0 {
        lemma_spec_dec_digits(-v);
    } else {
        lemma_spec_dec_digits(v);
    }
}

/// A rendered signed integer embedded in a larger text reads back as
/// itself.
proof fn lemma_int_embed(s: Seq<u8>, p: int, v: int)
    requires
        0 <= p,
        -2147483648 <= v <= 2147483647,
        p + spec_render_int(v).len() <= s.len(),
        s.subrange(p, p + spec_render_int(v).len()) == spec_render_int(v),
        p + spec_render_int(v).len() == s.len() || !is_digit(s[p + spec_render_int(v).len()]),
    ensures
        int_end(s, p) == p + spec_render_int(v).len(),
        int_has_digits(s, p),
        int_value(s, p) == v,
{
    lemma_render_int_shape(v);
    if v < 0 {
        assert(s[p] == 45);
        let m = -v;
        lemma_spec_dec_digits(m);
        assert(s.subrange(p + 1, p + 1 + spec_dec(m).len()) =~= spec_dec(m)) by {
            assert forall|k: int| 0 <= k < spec_dec(m).len() implies #[trigger] s.subrange(
                p + 1,
                p + 1 + spec_dec(m).len(),
            )[k] == spec_dec(m)[k] by {
                assert(s[p + 1 + k] == spec_render_int(v)[1 + k]);
            }
        }
        lemma_dec_embed(s, p + 1, m);
    } else {
        lemma_spec_dec_digits(v);
        assert(s[p] == spec_dec(v)[0]);
        assert(!(s[p] == 45));
        lemma_dec_embed(s, p, v);
    }
}

/// The characters of a digest's hex form.
pub open spec fn spec_root_hex(d: crate::digest::Digest) -> Seq<char> {
    chars_of(crate::codec::spec_digest_hex(d))
}

/// Every byte of a digest's hex form is a printable hex digit.
proof fn lemma_digest_hex_bytes_ok(d: crate::digest::Digest)
    ensures
        forall|k: int|
            0 <= k < crate::codec::spec_digest_hex(d).len() ==> crate::codec::name_byte_ok(
                #[trigger] crate::codec::spec_digest_hex(d)[k],
            ) && crate::codec::spec_digest_hex(d)[k] < 128,
{
    crate::codec::lemma_digest_hex_round_trip(d);
    assert forall|k: int|
        0 <= k < crate::codec::spec_digest_hex(d).len() implies crate::codec::name_byte_ok(
        #[trigger] crate::codec::spec_digest_hex(d)[k],
    ) && crate::codec::spec_digest_hex(d)[k] < 128 by {
        assert(crate::codec::spec_hex_val(crate::codec::spec_digest_hex(d)[k]) is Some);
    }
}

/// Encodes a root digest as its 64 lowercase hex characters.
pub fn root_to_hex(d: &crate::digest::Digest) -> (r: String)
    ensures
        r@ == spec_root_hex(*d),
        r@.len() == 64,
        name_ok(r@),
        vstd::utf8::is_ascii_chars(r@),
{
    let mut bytes: Vec<u8> = Vec::new();
    crate::codec::push_digest_hex(&mut bytes, d);
    proof {
        crate::codec::lemma_digest_hex_round_trip(*d);
        lemma_digest_hex_bytes_ok(*d);
        assert(bytes@ =~= Seq::<u8>::empty() + crate::codec::spec_digest_hex(*d));
    }
    let r = ascii_bytes_to_string(bytes);
    proof {
        assert forall|i: int| 0 <= i < r@.len() implies name_ok_char(#[trigger] r@[i]) by {
            assert(r@[i] == crate::codec::spec_digest_hex(*d)[i] as char);
        }
        assert forall|i: int| 0 <= i < r@.len() implies '\0' <= #[trigger] r@[i]
            <= '\u{7f}' by {
            assert(r@[i] == crate::codec::spec_digest_hex(*d)[i] as char);
        }
    }
    r
}

/// Reading an encoded root back gives the digest: the hex characters decode
/// and denote the same value.
pub proof fn lemma_root_hex_round_trip(d: crate::digest::Digest)
    ensures
        name_bytes(spec_root_hex(d)) == crate::codec::spec_digest_hex(d),
        crate::codec::hex_run(name_bytes(spec_root_hex(d)), 0, 64),
        crate::codec::spec_digest_of_hex(name_bytes(spec_root_hex(d))) == d,
{
    crate::codec::lemma_digest_hex_round_trip(d);
    lemma_digest_hex_bytes_ok(d);
    assert(name_bytes(spec_root_hex(d)) =~= crate::codec::spec_digest_hex(d)) by {
        assert forall|k: int| 0 <= k < 64 implies #[trigger] name_bytes(spec_root_hex(d))[k]
            == crate::codec::spec_digest_hex(d)[k] by {
            assert(spec_root_hex(d)[k] == crate::codec::spec_digest_hex(d)[k] as char);
        }
    }
}

} // verus!
