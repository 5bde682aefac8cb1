//! The Fiat-Shamir seed of the batched wrap opening check.
//!
//! The batch verifier combines the IPA verification equations of several
//! proofs with random coefficients; the random generator is seeded by
//! `blake2s` of a transcript that binds the proofs and their public inputs:
//! a domain tag, then for each proof its serialized wrap proof and its
//! serialized public input, each prefixed by its length as a little-endian
//! `u64`. Seeding from the proofs (not a fixed seed) is what keeps the
//! combination from being predictable to a prover; the length prefixes make
//! the transcript determine the proofs and inputs it was built from.
use vstd::prelude::*;
use vstd::string::*;
use vstd::utf8::*;
use blake2::Digest;
use crate::serialize::{lemma_u64_le_roundtrip, le_u64, u64_le, write_u64_le};

verus! {

/// The transcript's domain tag.
pub const BATCH_DOMAIN: &'static str = "pickles-verifier/batch-dlog-rng/v1";

/// What `blake2::Blake2s256` gives for a message.
pub uninterp spec fn blake2s256(message: Seq<u8>) -> Seq<u8>;

/// Calls `blake2::Digest::digest` of `blake2::Blake2s256` (a fresh hasher
/// fed the message, then finalized). Claimed: the 32 bytes are the hash of
/// the message.
#[verifier::external_body]
fn blake2s256_digest(message: &[u8]) -> (r: [u8; 32])
    ensures
        r@ == blake2s256(message@),
{
    blake2::Blake2s256::digest(message).into()
}

/// `b` prefixed by its length as a little-endian `u64`.
pub open spec fn framed(b: Seq<u8>) -> Seq<u8> {
    u64_le(b.len() as u64) + b
}

/// The framed proof and public input of each pair, in order; pairs are
/// taken while both lists have items.
pub open spec fn batch_entries(proofs: Seq<Seq<u8>>, inputs: Seq<Seq<u8>>) -> Seq<u8>
    decreases proofs.len(),
{
    if proofs.len() == 0 || inputs.len() == 0 {
        Seq::empty()
    } else {
        framed(proofs[0]) + framed(inputs[0]) + batch_entries(proofs.drop_first(), inputs.drop_first())
    }
}

/// The whole transcript: the domain tag's bytes, then the entries.
pub open spec fn batch_transcript(proofs: Seq<Seq<u8>>, inputs: Seq<Seq<u8>>) -> Seq<u8> {
    encode_utf8(BATCH_DOMAIN@) + batch_entries(proofs, inputs)
}

pub open spec fn bytes_views(v: Seq<Vec<u8>>) -> Seq<Seq<u8>> {
    v.map_values(|b: Vec<u8>| b@)
}

/// Entries grow by one framed pair at the end.
proof fn lemma_entries_push(proofs: Seq<Seq<u8>>, inputs: Seq<Seq<u8>>, i: int)
    requires
        0 <= i < proofs.len(),
        i < inputs.len(),
    ensures
        batch_entries(proofs.take(i + 1), inputs.take(i + 1)) == batch_entries(proofs.take(i), inputs.take(i))
            + framed(proofs[i]) + framed(inputs[i]),
    decreases i,
{
    if i == 0 {
        assert(proofs.take(1).drop_first() =~= Seq::<Seq<u8>>::empty());
        assert(inputs.take(1).drop_first() =~= Seq::<Seq<u8>>::empty());
        assert(batch_entries(proofs.take(0), inputs.take(0)) =~= Seq::<u8>::empty());
        assert(batch_entries(proofs.take(1).drop_first(), inputs.take(1).drop_first()) =~= Seq::<u8>::empty());
        assert(proofs.take(1)[0] == proofs[0]);
        assert(inputs.take(1)[0] == inputs[0]);
        assert(batch_entries(proofs.take(1), inputs.take(1)) =~= framed(proofs[0]) + framed(inputs[0]));
    } else {
        let p = proofs.drop_first();
        let q = inputs.drop_first();
        lemma_entries_push(p, q, i - 1);
        assert(proofs.take(i + 1).drop_first() =~= p.take(i));
        assert(inputs.take(i + 1).drop_first() =~= q.take(i));
        assert(proofs.take(i).drop_first() =~= p.take(i - 1));
        assert(inputs.take(i).drop_first() =~= q.take(i - 1));
        assert(p[i - 1] == proofs[i]);
        assert(q[i - 1] == inputs[i]);
        let head = framed(proofs[0]) + framed(inputs[0]);
        assert(batch_entries(proofs.take(i + 1), inputs.take(i + 1)) == head + batch_entries(p.take(i), q.take(i)));
        assert(batch_entries(proofs.take(i), inputs.take(i)) == head + batch_entries(p.take(i - 1), q.take(i - 1)));
        assert(head + (batch_entries(p.take(i - 1), q.take(i - 1)) + framed(p[i - 1]) + framed(q[i - 1]))
            =~= head + batch_entries(p.take(i - 1), q.take(i - 1)) + framed(p[i - 1]) + framed(q[i - 1]));
    }
}

/// Append `b`, prefixed by its length.
fn write_framed(out: &mut Vec<u8>, b: &[u8])
    ensures
        final(out)@ == old(out)@ + framed(b@),
{
    write_u64_le(out, b.len() as u64);
    let ghost mid = out@;
    let mut i: usize = 0;
    while i < b.len()
        invariant
            i <= b@.len(),
            out@ == mid + b@.take(i as int),
        decreases b@.len() - i,
    {
        out.push(b[i]);
        assert(b@.take(i + 1) =~= b@.take(i as int).push(b@[i as int]));
        i += 1;
    }
    assert(b@.take(b@.len() as int) =~= b@);
    assert(out@ =~= old(out)@ + framed(b@));
}

/// The transcript of serialized wrap proofs and their serialized public
/// inputs, paired in order.
pub fn batch_transcript_bytes(proofs: &[Vec<u8>], inputs: &[Vec<u8>]) -> (r: Vec<u8>)
    ensures
        r@ == batch_transcript(bytes_views(proofs@), bytes_views(inputs@)),
{
    let ghost ps = bytes_views(proofs@);
    let ghost qs = bytes_views(inputs@);
    let mut out: Vec<u8> = Vec::new();
    let tag = BATCH_DOMAIN.as_bytes();
    let mut k: usize = 0;
    let ghost tag_bytes = encode_utf8(BATCH_DOMAIN@);
    while k < tag.len()
        invariant
            k <= tag@.len(),
            tag@ == tag_bytes,
            out@ == tag_bytes.take(k as int),
        decreases tag@.len() - k,
    {
        out.push(tag[k]);
        assert(tag_bytes.take(k + 1) =~= tag_bytes.take(k as int).push(tag_bytes[k as int]));
        k += 1;
    }
    assert(tag_bytes.take(tag@.len() as int) =~= tag_bytes);
    let n = if proofs.len() < inputs.len() {
        proofs.len()
    } else {
        inputs.len()
    };
    let mut i: usize = 0;
    while i < n
        invariant
            n <= proofs@.len(),
            n <= inputs@.len(),
            ps == bytes_views(proofs@),
            qs == bytes_views(inputs@),
            i <= n,
            out@ == tag_bytes + batch_entries(ps.take(i as int), qs.take(i as int)),
        decreases n - i,
    {
        proof {
            lemma_entries_push(ps, qs, i as int);
        }
        write_framed(&mut out, proofs[i].as_slice());
        write_framed(&mut out, inputs[i].as_slice());
        assert(out@ =~= tag_bytes + batch_entries(ps.take(i + 1), qs.take(i + 1)));
        i += 1;
    }
    proof {
        lemma_entries_min(ps, qs, n as int);
    }
    out
}

/// Pairs past the shorter list do not enter the entries.
proof fn lemma_entries_min(proofs: Seq<Seq<u8>>, inputs: Seq<Seq<u8>>, n: int)
    requires
        n == (if proofs.len() < inputs.len() { proofs.len() } else { inputs.len() }),
    ensures
        batch_entries(proofs.take(n), inputs.take(n)) == batch_entries(proofs, inputs),
    decreases n,
{
    if n > 0 {
        lemma_entries_min(proofs.drop_first(), inputs.drop_first(), n - 1);
        assert(proofs.take(n).drop_first() =~= proofs.drop_first().take(n - 1));
        assert(inputs.take(n).drop_first() =~= inputs.drop_first().take(n - 1));
    } else {
        assert(batch_entries(proofs.take(0), inputs.take(0)) =~= Seq::<u8>::empty());
    }
}

/// The seed of the batch's random generator: `blake2s` of the transcript.
pub fn batch_rng_seed(proofs: &[Vec<u8>], inputs: &[Vec<u8>]) -> (r: [u8; 32])
    ensures
        r@ == blake2s256(batch_transcript(bytes_views(proofs@), bytes_views(inputs@))),
{
    let t = batch_transcript_bytes(proofs, inputs);
    blake2s256_digest(t.as_slice())
}

// ---------------------------------------------------------------------------
// Laws
// ---------------------------------------------------------------------------

proof fn lemma_concat_split(a: Seq<u8>, b: Seq<u8>, c: Seq<u8>, d: Seq<u8>)
    requires
        a + b == c + d,
        a.len() == c.len(),
    ensures
        a == c,
        b == d,
{
    assert(a =~= (a + b).take(a.len() as int));
    assert(c =~= (c + d).take(c.len() as int));
    assert(b =~= (a + b).skip(a.len() as int));
    assert(d =~= (c + d).skip(c.len() as int));
}

/// Every item of the lists is shorter than `2^64` bytes.
pub open spec fn lengths_fit(v: Seq<Seq<u8>>) -> bool {
    forall|i: int| 0 <= i < v.len() ==> (#[trigger] v[i]).len() <= u64::MAX
}

/// A framed item is read back from the front of whatever follows it.
proof fn lemma_framed_split(a: Seq<u8>, rest_a: Seq<u8>, b: Seq<u8>, rest_b: Seq<u8>)
    requires
        a.len() <= u64::MAX,
        b.len() <= u64::MAX,
        framed(a) + rest_a == framed(b) + rest_b,
    ensures
        a == b,
        rest_a == rest_b,
{
    lemma_u64_le_roundtrip(a.len() as u64);
    lemma_u64_le_roundtrip(b.len() as u64);
    let s = framed(a) + rest_a;
    assert(s.take(8) =~= u64_le(a.len() as u64));
    assert((framed(b) + rest_b).take(8) =~= u64_le(b.len() as u64));
    assert(le_u64(u64_le(a.len() as u64)) == le_u64(u64_le(b.len() as u64)));
    assert(a.len() == b.len());
    assert(framed(a) + rest_a =~= u64_le(a.len() as u64) + (a + rest_a));
    assert(framed(b) + rest_b =~= u64_le(b.len() as u64) + (b + rest_b));
    lemma_concat_split(u64_le(a.len() as u64), a + rest_a, u64_le(b.len() as u64), b + rest_b);
    lemma_concat_split(a, rest_a, b, rest_b);
}

/// The transcript determines what it was built from: two lists of pairs
/// (as many proofs as inputs in each) with equal transcripts are equal.
pub proof fn lemma_batch_transcript_binds(p1: Seq<Seq<u8>>, q1: Seq<Seq<u8>>, p2: Seq<Seq<u8>>, q2: Seq<Seq<u8>>)
    requires
        p1.len() == q1.len(),
        p2.len() == q2.len(),
        lengths_fit(p1),
        lengths_fit(q1),
        lengths_fit(p2),
        lengths_fit(q2),
        batch_transcript(p1, q1) == batch_transcript(p2, q2),
    ensures
        p1 == p2,
        q1 == q2,
{
    let tag = encode_utf8(BATCH_DOMAIN@);
    lemma_concat_split(tag, batch_entries(p1, q1), tag, batch_entries(p2, q2));
    lemma_entries_binds(p1, q1, p2, q2);
}

proof fn lemma_entries_binds(p1: Seq<Seq<u8>>, q1: Seq<Seq<u8>>, p2: Seq<Seq<u8>>, q2: Seq<Seq<u8>>)
    requires
        p1.len() == q1.len(),
        p2.len() == q2.len(),
        lengths_fit(p1),
        lengths_fit(q1),
        lengths_fit(p2),
        lengths_fit(q2),
        batch_entries(p1, q1) == batch_entries(p2, q2),
    ensures
        p1 == p2,
        q1 == q2,
    decreases p1.len(),
{
    if p1.len() == 0 && p2.len() == 0 {
        assert(p1 =~= p2);
        assert(q1 =~= q2);
    } else if p1.len() == 0 {
        lemma_u64_le_roundtrip(p2[0].len() as u64);
        assert(batch_entries(p2, q2).len() >= 8);
    } else if p2.len() == 0 {
        lemma_u64_le_roundtrip(p1[0].len() as u64);
        assert(batch_entries(p1, q1).len() >= 8);
    } else {
        let r1 = batch_entries(p1.drop_first(), q1.drop_first());
        let r2 = batch_entries(p2.drop_first(), q2.drop_first());
        assert(batch_entries(p1, q1) =~= framed(p1[0]) + (framed(q1[0]) + r1));
        assert(batch_entries(p2, q2) =~= framed(p2[0]) + (framed(q2[0]) + r2));
        lemma_framed_split(p1[0], framed(q1[0]) + r1, p2[0], framed(q2[0]) + r2);
        lemma_framed_split(q1[0], r1, q2[0], r2);
        lemma_entries_binds(p1.drop_first(), q1.drop_first(), p2.drop_first(), q2.drop_first());
        assert(p1 =~= seq![p1[0]] + p1.drop_first());
        assert(p2 =~= seq![p2[0]] + p2.drop_first());
        assert(q1 =~= seq![q1[0]] + q1.drop_first());
        assert(q2 =~= seq![q2[0]] + q2.drop_first());
    }
}


/// The transcript of no pairs is the domain tag alone, and adding a pair
/// appends, after what was there, the proof's length and bytes and then
/// the input's length and bytes.
pub proof fn lemma_batch_transcript_appends(p: Seq<Seq<u8>>, q: Seq<Seq<u8>>, x: Seq<u8>, y: Seq<u8>)
    requires
        p.len() == q.len(),
    ensures
        batch_transcript(Seq::empty(), Seq::empty()) == encode_utf8(BATCH_DOMAIN@),
        batch_transcript(p.push(x), q.push(y)) == batch_transcript(p, q) + u64_le(x.len() as u64) + x + u64_le(
            y.len() as u64,
        ) + y,
{
    let n = p.len() as int;
    let pp = p.push(x);
    let qq = q.push(y);
    lemma_entries_push(pp, qq, n);
    assert(pp.take(n + 1) =~= pp);
    assert(qq.take(n + 1) =~= qq);
    assert(pp.take(n) =~= p);
    assert(qq.take(n) =~= q);
    assert(batch_entries(Seq::empty(), Seq::empty()) =~= Seq::<u8>::empty());
    assert(encode_utf8(BATCH_DOMAIN@) + Seq::<u8>::empty() =~= encode_utf8(BATCH_DOMAIN@));
    assert(batch_transcript(pp, qq) =~= batch_transcript(p, q) + u64_le(x.len() as u64) + x + u64_le(
        y.len() as u64,
    ) + y);
}

} // verus!
