//! Canonical encoding of the published artifacts: hex-encoded digests and
//! the JSON commitment and fraud-proof files.
//!
//! Rendering is canonical — one byte sequence per artifact — and parsing
//! accepts exactly the canonical form, so an artifact survives a round trip
//! unchanged and re-verifies with the same result. All artifact text is
//! ASCII.

use vstd::prelude::*;

use crate::digest::Digest;

verus! {

/// Is `b` the ASCII code of a decimal digit?
pub open spec fn is_digit(b: u8) -> bool {
    48 <= b <= 57
}

/// The lowercase hex digit byte of a nibble.
pub open spec fn spec_hex_digit(n: u8) -> u8 {
    if n < 10 {
        (48 + n) as u8
    } else {
        (97 + (n - 10)) as u8
    }
}

/// The nibble a hex digit byte denotes, `None` off the alphabet.
pub open spec fn spec_hex_val(b: u8) -> Option<u8> {
    if 48 <= b <= 57 {
        Some((b - 48) as u8)
    } else if 97 <= b <= 102 {
        Some((b - 97 + 10) as u8)
    } else {
        None
    }
}

/// The denoted nibble, with zero off the alphabet.
pub open spec fn spec_hex_val0(b: u8) -> u64 {
    match spec_hex_val(b) {
        Some(n) => n as u64,
        None => 0,
    }
}

/// Encoding a nibble and reading the digit back is the identity.
pub proof fn lemma_hex_digit_round_trip(n: u8)
    requires
        n < 16,
    ensures
        spec_hex_val(spec_hex_digit(n)) == Some(n),
{
}

/// Nibble `k` of a word, most significant first.
pub open spec fn spec_nibble(w: u64, k: int) -> u8 {
    ((w >> (((15 - k) * 4) as u64)) & 0xf) as u8
}

/// The 16 lowercase hex digit bytes of a word, most significant first.
pub open spec fn spec_word_hex(w: u64) -> Seq<u8> {
    Seq::new(16, |k: int| spec_hex_digit(spec_nibble(w, k)))
}

/// The word 16 hex digit bytes denote, most significant first.
pub open spec fn spec_word_of_hex(s: Seq<u8>) -> u64 {
    (spec_hex_val0(s[0]) << 60) | (spec_hex_val0(s[1]) << 56) | (spec_hex_val0(s[2]) << 52) | (
    spec_hex_val0(s[3]) << 48) | (spec_hex_val0(s[4]) << 44) | (spec_hex_val0(s[5]) << 40) | (
    spec_hex_val0(s[6]) << 36) | (spec_hex_val0(s[7]) << 32) | (spec_hex_val0(s[8]) << 28) | (
    spec_hex_val0(s[9]) << 24) | (spec_hex_val0(s[10]) << 20) | (spec_hex_val0(s[11]) << 16) | (
    spec_hex_val0(s[12]) << 12) | (spec_hex_val0(s[13]) << 8) | (spec_hex_val0(s[14]) << 4) | (
    spec_hex_val0(s[15]))
}

/// Every byte of a word's hex form is a hex digit.
pub proof fn lemma_word_hex_digits(w: u64)
    ensures
        forall|k: int| 0 <= k < 16 ==> spec_hex_val(#[trigger] spec_word_hex(w)[k]) is Some,
        spec_word_hex(w).len() == 16,
{
    assert forall|k: int| 0 <= k < 16 implies spec_hex_val(
        #[trigger] spec_word_hex(w)[k],
    ) is Some by {
        let t = w >> (((15 - k) * 4) as u64);
        assert(t & 0xf < 16) by (bit_vector);
        assert(spec_nibble(w, k) == (t & 0xf) as u8);
        lemma_hex_digit_round_trip(spec_nibble(w, k));
    }
}

/// Reading a word's hex form back gives the word.
pub proof fn lemma_word_hex_round_trip(w: u64)
    ensures
        spec_word_of_hex(spec_word_hex(w)) == w,
{
    let s = spec_word_hex(w);
    assert forall|k: int| 0 <= k < 16 implies spec_hex_val0(#[trigger] s[k]) == spec_nibble(
        w,
        k,
    ) as u64 by {
        let t = w >> (((15 - k) * 4) as u64);
        assert(t & 0xf < 16) by (bit_vector);
        assert(spec_nibble(w, k) == (t & 0xf) as u8);
        lemma_hex_digit_round_trip(spec_nibble(w, k));
    }
    let n0 = spec_nibble(w, 0) as u64;
    let n1 = spec_nibble(w, 1) as u64;
    let n2 = spec_nibble(w, 2) as u64;
    let n3 = spec_nibble(w, 3) as u64;
    let n4 = spec_nibble(w, 4) as u64;
    let n5 = spec_nibble(w, 5) as u64;
    let n6 = spec_nibble(w, 6) as u64;
    let n7 = spec_nibble(w, 7) as u64;
    let n8 = spec_nibble(w, 8) as u64;
    let n9 = spec_nibble(w, 9) as u64;
    let n10 = spec_nibble(w, 10) as u64;
    let n11 = spec_nibble(w, 11) as u64;
    let n12 = spec_nibble(w, 12) as u64;
    let n13 = spec_nibble(w, 13) as u64;
    let n14 = spec_nibble(w, 14) as u64;
    let n15 = spec_nibble(w, 15) as u64;
    assert((n0 << 60) | (n1 << 56) | (n2 << 52) | (n3 << 48) | (n4 << 44) | (n5 << 40) | (n6
        << 36) | (n7 << 32) | (n8 << 28) | (n9 << 24) | (n10 << 20) | (n11 << 16) | (n12 << 12) | (
    n13 << 8) | (n14 << 4) | n15 == w) by (bit_vector)
        requires
            n0 == (((w >> 60) & 0xf) as u8) as u64,
            n1 == (((w >> 56) & 0xf) as u8) as u64,
            n2 == (((w >> 52) & 0xf) as u8) as u64,
            n3 == (((w >> 48) & 0xf) as u8) as u64,
            n4 == (((w >> 44) & 0xf) as u8) as u64,
            n5 == (((w >> 40) & 0xf) as u8) as u64,
            n6 == (((w >> 36) & 0xf) as u8) as u64,
            n7 == (((w >> 32) & 0xf) as u8) as u64,
            n8 == (((w >> 28) & 0xf) as u8) as u64,
            n9 == (((w >> 24) & 0xf) as u8) as u64,
            n10 == (((w >> 20) & 0xf) as u8) as u64,
            n11 == (((w >> 16) & 0xf) as u8) as u64,
            n12 == (((w >> 12) & 0xf) as u8) as u64,
            n13 == (((w >> 8) & 0xf) as u8) as u64,
            n14 == (((w >> 4) & 0xf) as u8) as u64,
            n15 == (((w >> 0) & 0xf) as u8) as u64,
    ;
}

/// The 64 hex digit bytes of a digest, word by word.
pub open spec fn spec_digest_hex(d: Digest) -> Seq<u8> {
    spec_word_hex(d.w0) + spec_word_hex(d.w1) + spec_word_hex(d.w2) + spec_word_hex(d.w3)
}

/// The digest 64 hex digit bytes denote.
pub open spec fn spec_digest_of_hex(s: Seq<u8>) -> Digest {
    Digest {
        w0: spec_word_of_hex(s.subrange(0, 16)),
        w1: spec_word_of_hex(s.subrange(16, 32)),
        w2: spec_word_of_hex(s.subrange(32, 48)),
        w3: spec_word_of_hex(s.subrange(48, 64)),
    }
}

/// Are all of `s[p..q)` hex digit bytes?
pub open spec fn hex_run(s: Seq<u8>, p: int, q: int) -> bool {
    forall|k: int| p <= k < q ==> spec_hex_val(#[trigger] s[k]) is Some
}

/// Reading a digest's hex form back gives the digest.
pub proof fn lemma_digest_hex_round_trip(d: Digest)
    ensures
        spec_digest_hex(d).len() == 64,
        spec_digest_of_hex(spec_digest_hex(d)) == d,
        hex_run(spec_digest_hex(d), 0, 64),
{
    let s = spec_digest_hex(d);
    assert(s.subrange(0, 16) =~= spec_word_hex(d.w0));
    assert(s.subrange(16, 32) =~= spec_word_hex(d.w1));
    assert(s.subrange(32, 48) =~= spec_word_hex(d.w2));
    assert(s.subrange(48, 64) =~= spec_word_hex(d.w3));
    lemma_word_hex_round_trip(d.w0);
    lemma_word_hex_round_trip(d.w1);
    lemma_word_hex_round_trip(d.w2);
    lemma_word_hex_round_trip(d.w3);
    lemma_word_hex_digits(d.w0);
    lemma_word_hex_digits(d.w1);
    lemma_word_hex_digits(d.w2);
    lemma_word_hex_digits(d.w3);
    assert forall|k: int| 0 <= k < 64 implies spec_hex_val(#[trigger] s[k]) is Some by {
        if k < 16 {
            assert(s[k] == spec_word_hex(d.w0)[k]);
        } else if k < 32 {
            assert(s[k] == spec_word_hex(d.w1)[k - 16]);
        } else if k < 48 {
            assert(s[k] == spec_word_hex(d.w2)[k - 32]);
        } else {
            assert(s[k] == spec_word_hex(d.w3)[k - 48]);
        }
    }
}

/// Computes the nibble a hex digit byte denotes.
fn hex_val(b: u8) -> (r: Option<u8>)
    ensures
        r == spec_hex_val(b),
{
    if 48 <= b && b <= 57 {
        Some(b - 48)
    } else if 97 <= b && b <= 102 {
        Some(b - 97 + 10)
    } else {
        None
    }
}

/// Appends the 16 hex digit bytes of a word.
fn push_word_hex(out: &mut Vec<u8>, w: u64)
    ensures
        final(out)@ == old(out)@ + spec_word_hex(w),
{
    let ghost base = out@;
    let mut k: usize = 0;
    while k < 16
        invariant
            k <= 16,
            out@ =~= base + spec_word_hex(w).take(k as int),
        decreases 16 - k,
    {
        let shift: u64 = (15 - k as u64) * 4;
        let t = w >> shift;
        assert(t & 0xf < 16) by (bit_vector);
        let n = (t & 0xf) as u8;
        let digit = if n < 10 {
            48 + n
        } else {
            97 + (n - 10)
        };
        assert(digit == spec_hex_digit(spec_nibble(w, k as int)));
        out.push(digit);
        assert(out@ =~= base + spec_word_hex(w).take(k as int + 1));
        k += 1;
    }
    assert(out@ =~= base + spec_word_hex(w));
}

/// Appends the 64 hex digit bytes of a digest.
pub fn push_digest_hex(out: &mut Vec<u8>, d: &Digest)
    ensures
        final(out)@ == old(out)@ + spec_digest_hex(*d),
{
    push_word_hex(out, d.w0);
    push_word_hex(out, d.w1);
    push_word_hex(out, d.w2);
    push_word_hex(out, d.w3);
    assert(final(out)@ =~= old(out)@ + spec_digest_hex(*d));
}

/// Reads one word from 16 hex digit bytes at `p`; `None` when any byte is
/// off the alphabet.
fn read_word_hex(s: &Vec<u8>, p: usize) -> (r: Option<u64>)
    requires
        p + 16 <= s@.len(),
    ensures
        match r {
            Some(w) => hex_run(s@, p as int, p as int + 16) && w == spec_word_of_hex(
                s@.subrange(p as int, p as int + 16),
            ),
            None => !hex_run(s@, p as int, p as int + 16),
        },
{
    let n_total = s.len();
    let mut w: u64 = 0;
    let mut k: usize = 0;
    while k < 16
        invariant
            p + 16 <= s@.len(),
            s@.len() <= usize::MAX,
            k <= 16,
            hex_run(s@, p as int, p as int + k as int),
            w == spec_word_partial(s@.subrange(p as int, p as int + 16), k as int),
        decreases 16 - k,
    {
        let b = s[p + k];
        let n = match hex_val(b) {
            Some(n) => n,
            None => {
                return None;
            },
        };
        w = (w << 4) | (n as u64);
        assert(s@.subrange(p as int, p as int + 16)[k as int] == s@[p + k as int]);
        assert(w == spec_word_partial(s@.subrange(p as int, p as int + 16), k as int + 1));
        k += 1;
    }
    proof {
        lemma_word_partial_full(s@.subrange(p as int, p as int + 16));
    }
    Some(w)
}

/// The word denoted by the first `k` of 16 hex digit bytes, as a running
/// left fold.
pub open spec fn spec_word_partial(s: Seq<u8>, k: int) -> u64
    decreases k,
{
    if k <= 0 {
        0u64
    } else {
        (spec_word_partial(s, k - 1) << 4) | spec_hex_val0(s[k - 1])
    }
}

/// After all 16 digits the running fold equals the word the bytes denote.
proof fn lemma_word_partial_full(s: Seq<u8>)
    requires
        s.len() == 16,
        hex_run(s, 0, 16),
    ensures
        spec_word_partial(s, 16) == spec_word_of_hex(s),
{
    let v0 = spec_hex_val0(s[0]);
    let v1 = spec_hex_val0(s[1]);
    let v2 = spec_hex_val0(s[2]);
    let v3 = spec_hex_val0(s[3]);
    let v4 = spec_hex_val0(s[4]);
    let v5 = spec_hex_val0(s[5]);
    let v6 = spec_hex_val0(s[6]);
    let v7 = spec_hex_val0(s[7]);
    let v8 = spec_hex_val0(s[8]);
    let v9 = spec_hex_val0(s[9]);
    let v10 = spec_hex_val0(s[10]);
    let v11 = spec_hex_val0(s[11]);
    let v12 = spec_hex_val0(s[12]);
    let v13 = spec_hex_val0(s[13]);
    let v14 = spec_hex_val0(s[14]);
    let v15 = spec_hex_val0(s[15]);
    assert forall|k: int| 0 <= k < 16 implies spec_hex_val0(#[trigger] s[k]) < 16 by {
        assert(spec_hex_val(s[k]) is Some);
    }
    let p0 = 0u64;
    let p1 = (p0 << 4) | v0;
    let p2 = (p1 << 4) | v1;
    let p3 = (p2 << 4) | v2;
    let p4 = (p3 << 4) | v3;
    let p5 = (p4 << 4) | v4;
    let p6 = (p5 << 4) | v5;
    let p7 = (p6 << 4) | v6;
    let p8 = (p7 << 4) | v7;
    let p9 = (p8 << 4) | v8;
    let p10 = (p9 << 4) | v9;
    let p11 = (p10 << 4) | v10;
    let p12 = (p11 << 4) | v11;
    let p13 = (p12 << 4) | v12;
    let p14 = (p13 << 4) | v13;
    let p15 = (p14 << 4) | v14;
    let p16 = (p15 << 4) | v15;
    assert(spec_word_partial(s, 0) == p0);
    assert(spec_word_partial(s, 1) == p1);
    assert(spec_word_partial(s, 2) == p2);
    assert(spec_word_partial(s, 3) == p3);
    assert(spec_word_partial(s, 4) == p4);
    assert(spec_word_partial(s, 5) == p5);
    assert(spec_word_partial(s, 6) == p6);
    assert(spec_word_partial(s, 7) == p7);
    assert(spec_word_partial(s, 8) == p8);
    assert(spec_word_partial(s, 9) == p9);
    assert(spec_word_partial(s, 10) == p10);
    assert(spec_word_partial(s, 11) == p11);
    assert(spec_word_partial(s, 12) == p12);
    assert(spec_word_partial(s, 13) == p13);
    assert(spec_word_partial(s, 14) == p14);
    assert(spec_word_partial(s, 15) == p15);
    assert(spec_word_partial(s, 16) == p16);
    assert(p16 == (v0 << 60) | (v1 << 56) | (v2 << 52) | (v3 << 48) | (v4 << 44) | (v5 << 40) | (v6 << 36) | (v7 << 32) | (v8 << 28) | (v9 << 24) | (v10 << 20) | (v11 << 16) | (v12 << 12) | (v13 << 8) | (v14 << 4) | v15) by (bit_vector)
        requires
            p0 == 0u64,
            p1 == (p0 << 4) | v0,
            p2 == (p1 << 4) | v1,
            p3 == (p2 << 4) | v2,
            p4 == (p3 << 4) | v3,
            p5 == (p4 << 4) | v4,
            p6 == (p5 << 4) | v5,
            p7 == (p6 << 4) | v6,
            p8 == (p7 << 4) | v7,
            p9 == (p8 << 4) | v8,
            p10 == (p9 << 4) | v9,
            p11 == (p10 << 4) | v10,
            p12 == (p11 << 4) | v11,
            p13 == (p12 << 4) | v12,
            p14 == (p13 << 4) | v13,
            p15 == (p14 << 4) | v14,
            p16 == (p15 << 4) | v15,
            v0 < 16 && v1 < 16 && v2 < 16 && v3 < 16 && v4 < 16 && v5 < 16 && v6 < 16 && v7 < 16 && v8 < 16 && v9 < 16 && v10 < 16 && v11 < 16 && v12 < 16 && v13 < 16 && v14 < 16 && v15 < 16,
    ;
}

/// Reads a digest from 64 hex digit bytes at `p`.
#[verifier::rlimit(50)]
pub fn read_digest_hex(s: &Vec<u8>, p: usize) -> (r: Option<Digest>)
    requires
        p + 64 <= s@.len(),
    ensures
        match r {
            Some(d) => hex_run(s@, p as int, p as int + 64) && d == spec_digest_of_hex(
                s@.subrange(p as int, p as int + 64),
            ),
            None => !hex_run(s@, p as int, p as int + 64),
        },
{
    let n_total = s.len();
    let w0 = read_word_hex(s, p);
    let w1 = read_word_hex(s, p + 16);
    let w2 = read_word_hex(s, p + 32);
    let w3 = read_word_hex(s, p + 48);
    match (w0, w1, w2, w3) {
        (Some(w0), Some(w1), Some(w2), Some(w3)) => {
            proof {
                let whole = s@.subrange(p as int, p as int + 64);
                assert(whole.subrange(0, 16) =~= s@.subrange(p as int, p as int + 16));
                assert(whole.subrange(16, 32) =~= s@.subrange(p as int + 16, p as int + 32));
                assert(whole.subrange(32, 48) =~= s@.subrange(p as int + 32, p as int + 48));
                assert(whole.subrange(48, 64) =~= s@.subrange(p as int + 48, p as int + 64));
            }
            Some(Digest { w0, w1, w2, w3 })
        },
        _ => None,
    }
}

/// The decimal digit bytes of `n`, most significant first.
pub open spec fn spec_dec(n: int) -> Seq<u8>
    decreases n,
{
    if n < 10 {
        seq![(48 + n) as u8]
    } else {
        spec_dec(n / 10).push((48 + n % 10) as u8)
    }
}

/// A decimal form is nothing but digits.
pub proof fn lemma_spec_dec_digits(n: int)
    requires
        n >= 0,
    ensures
        spec_dec(n).len() >= 1,
        forall|k: int| 0 <= k < spec_dec(n).len() ==> is_digit(#[trigger] spec_dec(n)[k]),
    decreases n,
{
    if n >= 10 {
        lemma_spec_dec_digits(n / 10);
        assert forall|k: int| 0 <= k < spec_dec(n).len() implies is_digit(
            #[trigger] spec_dec(n)[k],
        ) by {
            if k < spec_dec(n / 10).len() {
                assert(spec_dec(n)[k] == spec_dec(n / 10)[k]);
            }
        }
    }
}

/// The first position at or after `p` that does not hold a digit.
pub open spec fn digits_end(s: Seq<u8>, p: int) -> int
    decreases s.len() - p,
{
    if p < 0 || p >= s.len() {
        p
    } else if !is_digit(s[p]) {
        p
    } else {
        digits_end(s, p + 1)
    }
}

/// The value of the digit bytes `s[p..q)`.
pub open spec fn dec_value(s: Seq<u8>, p: int, q: int) -> int
    decreases q - p,
{
    if q <= p {
        0
    } else {
        dec_value(s, p, q - 1) * 10 + (s[q - 1] - 48)
    }
}

/// A run of digits ends exactly where the digits stop.
pub proof fn lemma_digits_end_run(s: Seq<u8>, p: int, q: int)
    requires
        0 <= p <= q <= s.len(),
        forall|k: int| p <= k < q ==> is_digit(#[trigger] s[k]),
        q == s.len() || !is_digit(s[q]),
    ensures
        digits_end(s, p) == q,
    decreases q - p,
{
    if p < q {
        lemma_digits_end_run(s, p + 1, q);
    }
}

/// The digit run is never shorter than any all-digit prefix.
pub proof fn lemma_digits_end_at_least(s: Seq<u8>, p: int, q: int)
    requires
        0 <= p <= q <= s.len(),
        forall|k: int| p <= k < q ==> is_digit(#[trigger] s[k]),
    ensures
        digits_end(s, p) >= q,
    decreases q - p,
{
    if p < q {
        lemma_digits_end_at_least(s, p + 1, q);
    } else {
        lemma_digits_end_all(s, p);
    }
}

/// The value of a digit run is non-negative and grows with its length.
pub proof fn lemma_dec_value_mono(s: Seq<u8>, p: int, q1: int, q2: int)
    requires
        0 <= p <= q1 <= q2 <= s.len(),
        forall|k: int| p <= k < q2 ==> is_digit(#[trigger] s[k]),
    ensures
        0 <= dec_value(s, p, q1) <= dec_value(s, p, q2),
    decreases q2 - q1,
{
    if q1 == q2 {
        lemma_dec_value_nonneg(s, p, q1);
    } else {
        lemma_dec_value_mono(s, p, q1, q2 - 1);
    }
}

/// The value of a digit run is non-negative.
pub proof fn lemma_dec_value_nonneg(s: Seq<u8>, p: int, q: int)
    requires
        forall|k: int| p <= k < q ==> is_digit(#[trigger] s[k]),
    ensures
        dec_value(s, p, q) >= 0,
    decreases q - p,
{
    if q > p {
        lemma_dec_value_nonneg(s, p, q - 1);
    }
}

/// A rendered decimal embedded in a larger text reads back as itself: the
/// digit run ends at its end and its value is the rendered number.
pub proof fn lemma_dec_embed(s: Seq<u8>, p: int, n: int)
    requires
        0 <= p,
        0 <= n,
        p + spec_dec(n).len() <= s.len(),
        s.subrange(p, p + spec_dec(n).len()) == spec_dec(n),
        p + spec_dec(n).len() == s.len() || !is_digit(s[p + spec_dec(n).len()]),
    ensures
        digits_end(s, p) == p + spec_dec(n).len(),
        dec_value(s, p, p + spec_dec(n).len()) == n,
{
    lemma_spec_dec_digits(n);
    assert forall|k: int| p <= k < p + spec_dec(n).len() implies is_digit(#[trigger] s[k]) by {
        assert(s[k] == spec_dec(n)[k - p]);
    }
    lemma_digits_end_run(s, p, p + spec_dec(n).len());
    lemma_dec_value_embed(s, p, n);
}

/// The value part of the embedding argument.
proof fn lemma_dec_value_embed(s: Seq<u8>, p: int, n: int)
    requires
        0 <= p,
        0 <= n,
        p + spec_dec(n).len() <= s.len(),
        s.subrange(p, p + spec_dec(n).len()) == spec_dec(n),
    ensures
        dec_value(s, p, p + spec_dec(n).len()) == n,
    decreases n,
{
    let w = spec_dec(n).len();
    if n < 10 {
        assert(spec_dec(n) =~= seq![(48 + n) as u8]);
        assert(w == 1);
        assert(s.subrange(p, p + 1)[0] == s[p]);
        assert(s[p] == spec_dec(n)[0]);
        assert(s[p] == (48 + n) as u8);
        assert(dec_value(s, p, p + 1) == dec_value(s, p, p) * 10 + (s[p] - 48));
        assert(dec_value(s, p, p) == 0);
        assert(dec_value(s, p, p + 1) == n);
    } else {
        let w0 = spec_dec(n / 10).len();
        assert(s.subrange(p, p + w0) =~= spec_dec(n / 10)) by {
            assert forall|k: int| 0 <= k < w0 implies #[trigger] s.subrange(p, p + w0)[k]
                == spec_dec(n / 10)[k] by {
                assert(s[p + k] == spec_dec(n)[k]);
                assert(spec_dec(n)[k] == spec_dec(n / 10)[k]);
            }
        }
        lemma_dec_value_embed(s, p, n / 10);
        assert(dec_value(s, p, p + w0) == n / 10);
        assert(s[p + w - 1] == spec_dec(n)[w - 1]);
        assert(spec_dec(n)[w - 1] == (48 + n % 10) as u8);
        assert(w == w0 + 1);
        assert(dec_value(s, p, p + w) == dec_value(s, p, p + w - 1) * 10 + (s[p + w - 1] - 48));
        assert(dec_value(s, p, p + w) == (n / 10) * 10 + n % 10);
        assert(n == (n / 10) * 10 + n % 10) by (nonlinear_arith);
    }
}

/// Appends the decimal form of `n`.
pub fn push_dec_u64(out: &mut Vec<u8>, n: u64)
    ensures
        final(out)@ == old(out)@ + spec_dec(n as int),
    decreases n,
{
    if n < 10 {
        out.push(48 + (n as u8));
        assert(final(out)@ =~= old(out)@ + spec_dec(n as int));
    } else {
        push_dec_u64(out, n / 10);
        out.push(48 + ((n % 10) as u8));
        assert(final(out)@ =~= old(out)@ + spec_dec(n as int));
    }
}

/// Reads an unsigned decimal at `p`: its value and the position after its
/// last digit. `None` when no digit stands at `p` or the value does not fit.
pub fn read_dec_u64(s: &Vec<u8>, p: usize) -> (r: Option<(u64, usize)>)
    ensures
        match r {
            Some(v) => p < s@.len() && is_digit(s@[p as int]) && v.1 == digits_end(s@, p as int)
                && p < v.1 <= s@.len() && v.0 == dec_value(s@, p as int, v.1 as int),
            None => p >= s@.len() || !is_digit(s@[p as int]) || dec_value(
                s@,
                p as int,
                digits_end(s@, p as int),
            ) > u64::MAX,
        },
{
    let n_total = s.len();
    if p >= n_total || !(48 <= s[p] && s[p] <= 57) {
        return None;
    }
    let mut v: u64 = 0;
    let mut q: usize = p;
    while q < n_total && 48 <= s[q] && s[q] <= 57
        invariant
            n_total == s@.len(),
            p <= q <= n_total,
            forall|k: int| p <= k < q ==> is_digit(#[trigger] s@[k]),
            v == dec_value(s@, p as int, q as int),
        decreases n_total - q,
    {
        let d = (s[q] - 48) as u64;
        let v10 = match v.checked_mul(10) {
            Some(x) => x,
            None => {
                proof {
                    lemma_overflow_tail(s@, p as int, q as int, 10 * v as int + d as int);
                }
                return None;
            },
        };
        let vn = match v10.checked_add(d) {
            Some(x) => x,
            None => {
                proof {
                    lemma_overflow_tail(s@, p as int, q as int, 10 * v as int + d as int);
                }
                return None;
            },
        };
        v = vn;
        q += 1;
    }
    proof {
        lemma_digits_end_run(s@, p as int, q as int);
    }
    Some((v, q))
}

/// Once the running value exceeds the type, the full digit run's value does.
proof fn lemma_overflow_tail(s: Seq<u8>, p: int, q: int, next: int)
    requires
        0 <= p <= q < s.len(),
        forall|k: int| p <= k < q ==> is_digit(#[trigger] s[k]),
        is_digit(s[q]),
        next == dec_value(s, p, q + 1),
        next > u64::MAX,
    ensures
        dec_value(s, p, digits_end(s, p)) > u64::MAX,
{
    lemma_digits_end_at_least(s, p, q + 1);
    let e = digits_end(s, p);
    lemma_digits_end_all(s, p);
    lemma_dec_value_mono(s, p, q + 1, e);
}

/// The digit run starts at its start, ends within the text, and holds
/// nothing but digits.
proof fn lemma_digits_end_all(s: Seq<u8>, p: int)
    requires
        0 <= p <= s.len(),
    ensures
        p <= digits_end(s, p) <= s.len(),
        forall|k: int| p <= k < digits_end(s, p) ==> is_digit(#[trigger] s[k]),
    decreases s.len() - p,
{
    if p < s.len() && is_digit(s[p]) {
        lemma_digits_end_all(s, p + 1);
    }
}

/// Is `b` a byte a JSON name field may hold: printable ASCII, no quote, no
/// backslash?
pub open spec fn name_byte_ok(b: u8) -> bool {
    32 <= b <= 126 && b != 34 && b != 92
}

/// The first position at or after `p` where a name field cannot go on: a
/// closing quote, an unacceptable byte, or the end of the text.
pub open spec fn name_end(s: Seq<u8>, p: int) -> int
    decreases s.len() - p,
{
    if p < 0 || p >= s.len() {
        p
    } else if !name_byte_ok(s[p]) {
        p
    } else {
        name_end(s, p + 1)
    }
}

/// A run of acceptable name bytes ends exactly where they stop.
pub proof fn lemma_name_end_run(s: Seq<u8>, p: int, q: int)
    requires
        0 <= p <= q <= s.len(),
        forall|k: int| p <= k < q ==> name_byte_ok(#[trigger] s[k]),
        q == s.len() || !name_byte_ok(s[q]),
    ensures
        name_end(s, p) == q,
    decreases q - p,
{
    if p < q {
        lemma_name_end_run(s, p + 1, q);
    }
}

/// Everything before the end of a name run is acceptable.
pub proof fn lemma_name_end_all(s: Seq<u8>, p: int)
    requires
        0 <= p,
    ensures
        p <= name_end(s, p) <= s.len() || name_end(s, p) == p,
        forall|k: int| p <= k < name_end(s, p) ==> name_byte_ok(#[trigger] s[k]),
    decreases s.len() - p,
{
    if 0 <= p < s.len() && name_byte_ok(s[p]) {
        lemma_name_end_all(s, p + 1);
    }
}

/// Does `lit` stand at position `p` of `s`?
pub open spec fn has_lit(s: Seq<u8>, p: int, lit: Seq<u8>) -> bool {
    0 <= p && p + lit.len() <= s.len() && s.subrange(p, p + lit.len()) == lit
}

/// Checks whether the literal stands at `p` and steps over it.
pub fn expect(s: &Vec<u8>, p: usize, lit: &Vec<u8>) -> (r: Option<usize>)
    ensures
        match r {
            Some(q) => has_lit(s@, p as int, lit@) && q == p + lit@.len(),
            None => !has_lit(s@, p as int, lit@),
        },
{
    let n_total = s.len();
    let m = lit.len();
    if m > n_total || p > n_total - m {
        return None;
    }
    let mut k: usize = 0;
    while k < m
        invariant
            n_total == s@.len(),
            m == lit@.len(),
            p + m <= n_total,
            k <= m,
            forall|j: int| 0 <= j < k ==> s@[p + j] == lit@[j],
        decreases m - k,
    {
        if s[p + k] != lit[k] {
            assert(s@.subrange(p as int, p as int + m) != lit@) by {
                assert(s@.subrange(p as int, p as int + m)[k as int] == s@[p + k as int]);
            }
            return None;
        }
        k += 1;
    }
    assert(s@.subrange(p as int, p as int + m) =~= lit@);
    Some(p + m)
}

} // verus!
