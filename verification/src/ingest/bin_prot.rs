//! Read the proof fields of the bin_prot wire form of a Mina blockchain SNARK
//! (OCaml `Pickles.Proof.Proofs_verified_2.Repr.Stable.V2`, what the Mina
//! daemon serves at `bestChain[0].protocolStateProof.base64` and what o1js's
//! `Proof.toJSON()` embeds in its `proof` string).
//!
//! The decoded record is held as plain values in [`ProofsVerified2Repr`]: a
//! big integer as its 32 little-endian bytes, a limb as its `u64`, a padded
//! sequence as an array of its fixed length. [`ocaml_proof_from_bin_prot`]
//! and [`to_wrap_proof`] map it onto the verifier's [`OcamlProof`] and
//! [`WrapProof`]; each is stated as a spec function over the record.
use vstd::prelude::*;
use vstd::string::*;
use crate::ingest::o1js_sexpr::{
    copy_fields, front_padded, opt_points_view, opt_rows_view, prev_challenges_spec, resize32, small_field,
    small_field_bytes, zip_challenges, lemma_prev_challenges_padded, challenge_spec, limb_spec, limbs_le,
    mask_spec,
};
use crate::ingest::sexpr::SexpView;
use crate::hex::{all_hex, hex_digit};
use crate::field::{canonical, field_value, is_canonical, limb_base, FieldKind};
use crate::serialize::{le_u64, lemma_u64_le_roundtrip, u64_le, write_u64_le};
use crate::text::{join, text};
use crate::types::{
    challenges_view, evals_view, fields_view, pairs_view, points_view, rows_view, AffinePoint,
    AffinePointView, BranchData, BranchDataView, ChunkedAllEvals, ChunkedAllEvalsView, FieldBytes,
    OcamlProof, OcamlProofView, OpeningProof, OpeningProofView, PlonkMinimal, PlonkMinimalView,
    PointEvaluations, PointEvaluationsView, ProofEvaluations, ProofEvaluationsView,
    ProverCommitments, ProverCommitmentsView, RecursionChallenge, RecursionChallengeView,
    WrapProof, WrapProofView,
};

verus! {

// ---------------------------------------------------------------------------
// The wire record
// ---------------------------------------------------------------------------

/// A big integer: 32 little-endian bytes.
pub type BigInt = [u8; 32];

/// An affine point `(x, y)`.
pub type WirePoint = (BigInt, BigInt);

/// A 128-bit scalar challenge: two little-endian `u64` limbs.
pub struct ScalarChallenge {
    pub inner: [u64; 2],
}

/// One bulletproof challenge: its raw prechallenge.
pub struct BulletproofChallenge {
    pub prechallenge: ScalarChallenge,
}

/// `deferred_values.plonk`: the four raw Plonk challenges.
pub struct PlonkChallenges {
    pub alpha: ScalarChallenge,
    pub beta: [u64; 2],
    pub gamma: [u64; 2],
    pub zeta: ScalarChallenge,
}

/// How many previous proofs a proof verifies.
#[derive(Clone, Copy, Debug, PartialEq, Eq)]
pub enum ProofsVerified {
    N0,
    N1,
    N2,
}

pub struct WireBranchData {
    pub proofs_verified: ProofsVerified,
    pub domain_log2: u8,
}

pub struct DeferredValues {
    pub plonk: PlonkChallenges,
    pub bulletproof_challenges: [BulletproofChallenge; 16],
    pub branch_data: WireBranchData,
}

pub struct MessagesForNextWrapProof {
    pub challenge_polynomial_commitment: WirePoint,
    /// Two rows of 15 wrap challenges, front-padded with dummy rows.
    pub old_bulletproof_challenges: [[BulletproofChallenge; 15]; 2],
}

pub struct ProofState {
    pub deferred_values: DeferredValues,
    /// Four little-endian `u64` limbs.
    pub sponge_digest_before_evaluations: [u64; 4],
    pub messages_for_next_wrap_proof: MessagesForNextWrapProof,
}

pub struct MessagesForNextStepProof {
    /// One commitment per previous proof.
    pub challenge_polynomial_commitments: Vec<WirePoint>,
    /// One row of 16 step challenges per previous proof.
    pub old_bulletproof_challenges: Vec<[BulletproofChallenge; 16]>,
}

pub struct Statement {
    pub proof_state: ProofState,
    pub messages_for_next_step_proof: MessagesForNextStepProof,
}

/// The evaluations of one polynomial at `zeta` and `zeta * omega`, one per
/// chunk (at most 16 chunks each).
pub type ChunkedPair = (Vec<BigInt>, Vec<BigInt>);

/// The evaluations of one polynomial at `zeta` and `zeta * omega`.
pub type EvalPair = (BigInt, BigInt);

/// `prev_evals.evals.evals`: the previous step proof's chunked evaluations.
pub struct PrevEvalsColumns {
    pub w: [ChunkedPair; 15],
    pub coefficients: [ChunkedPair; 15],
    pub z: ChunkedPair,
    pub s: [ChunkedPair; 6],
    pub generic_selector: ChunkedPair,
    pub poseidon_selector: ChunkedPair,
    pub complete_add_selector: ChunkedPair,
    pub mul_selector: ChunkedPair,
    pub emul_selector: ChunkedPair,
    pub endomul_scalar_selector: ChunkedPair,
}

pub struct PrevEvalsWithPublic {
    pub public_input: EvalPair,
    pub evals: PrevEvalsColumns,
}

pub struct PrevEvals {
    pub evals: PrevEvalsWithPublic,
    pub ft_eval1: BigInt,
}

pub struct WireCommitments {
    pub w_comm: [WirePoint; 15],
    pub z_comm: WirePoint,
    pub t_comm: [WirePoint; 7],
}

pub struct WireEvaluations {
    pub w: [EvalPair; 15],
    pub coefficients: [EvalPair; 15],
    pub z: EvalPair,
    pub s: [EvalPair; 6],
    pub generic_selector: EvalPair,
    pub poseidon_selector: EvalPair,
    pub complete_add_selector: EvalPair,
    pub mul_selector: EvalPair,
    pub emul_selector: EvalPair,
    pub endomul_scalar_selector: EvalPair,
}

pub struct WireBulletproof {
    pub lr: Vec<(WirePoint, WirePoint)>,
    pub z_1: BigInt,
    pub z_2: BigInt,
    pub delta: WirePoint,
    pub challenge_polynomial_commitment: WirePoint,
}

/// `Pickles.Wrap_wire_proof.Stable.V1`.
pub struct WireProof {
    pub commitments: WireCommitments,
    pub evaluations: WireEvaluations,
    pub ft_eval1: BigInt,
    pub bulletproof: WireBulletproof,
}

/// `Pickles.Proof.Proofs_verified_2.Repr.Stable.V2`.
pub struct ProofsVerified2Repr {
    pub statement: Statement,
    pub prev_evals: PrevEvals,
    pub proof: WireProof,
}

/// Why a record could not be turned into the verifier's values.
#[derive(Clone, Debug, PartialEq, Eq)]
pub enum ConvertError {
    BinProt(String),
    Field(String),
    Convert(String),
}

impl ConvertError {
    /// The error's text.
    pub fn message(&self) -> (r: String)
        ensures
            r@ == match self {
                ConvertError::BinProt(e) => "bin_prot decode: "@ + e@,
                ConvertError::Field(e) => "field reconstruction: "@ + e@,
                ConvertError::Convert(e) => "OcamlProof::into_verifiable: "@ + e@,
            },
    {
        match self {
            ConvertError::BinProt(e) => join("bin_prot decode: ", e.as_str()),
            ConvertError::Field(e) => join("field reconstruction: ", e.as_str()),
            ConvertError::Convert(e) => join("OcamlProof::into_verifiable: ", e.as_str()),
        }
    }
}

// ---------------------------------------------------------------------------
// Leaf readings
// ---------------------------------------------------------------------------

/// The little-endian bytes of the limbs, one after the other.
pub open spec fn limbs_bytes(limbs: Seq<u64>) -> Seq<u8>
    decreases limbs.len(),
{
    if limbs.len() == 0 {
        Seq::empty()
    } else {
        limbs_bytes(limbs.drop_last()) + u64_le(limbs.last())
    }
}

/// A field element given as little-endian `u64` limbs, zero-padded to 32
/// bytes.
pub open spec fn limbs_field(limbs: Seq<u64>) -> Seq<u8> {
    resize32(limbs_bytes(limbs))
}

/// A point's coordinates.
pub open spec fn point_view(p: WirePoint) -> AffinePointView {
    AffinePointView { x: p.0@, y: p.1@ }
}

/// The prechallenge of a bulletproof challenge.
pub open spec fn prechallenge_field(c: BulletproofChallenge) -> Seq<u8> {
    limbs_field(c.prechallenge.inner@)
}

/// The prechallenges of a row of bulletproof challenges.
pub open spec fn prechallenges(row: Seq<BulletproofChallenge>) -> Seq<Seq<u8>> {
    row.map_values(|c: BulletproofChallenge| prechallenge_field(c))
}

/// The text of the error for a big integer that is not a field element.
pub open spec fn bigint_field_text() -> Seq<char> {
    "BigInt \u{2192} field: DeserializeBytes"@
}

/// The text of the error for limbs that do not spell a field element.
pub open spec fn limbs_field_text() -> Seq<char> {
    "limbs \u{2192} field: DeserializeBytes"@
}

/// The error for a big integer that is not a field element.
pub open spec fn is_bigint_error(e: ConvertError) -> bool {
    e matches ConvertError::Field(m) && m@ == bigint_field_text()
}

/// `limbs_to_field`: the limbs' little-endian bytes, resized to 32, when
/// they spell an element of the field.
fn limbs_to_field(limbs: &[u64], k: FieldKind) -> (r: Result<FieldBytes, ConvertError>)
    ensures
        match r {
            Ok(f) => is_canonical(limbs_field(limbs@), k) && f@ == limbs_field(limbs@),
            Err(e) => !is_canonical(limbs_field(limbs@), k) && (e matches ConvertError::Field(m)
                && m@ == limbs_field_text()),
        },
{
    let mut le: Vec<u8> = Vec::new();
    let mut i: usize = 0;
    while i < limbs.len()
        invariant
            i <= limbs@.len(),
            le@ == limbs_bytes(limbs@.take(i as int)),
        decreases limbs@.len() - i,
    {
        assert(limbs@.take(i + 1).drop_last() =~= limbs@.take(i as int));
        write_u64_le(&mut le, limbs[i]);
        i += 1;
    }
    assert(limbs@.take(limbs@.len() as int) =~= limbs@);
    le.resize(32, 0);
    assert(le@ =~= resize32(limbs_bytes(limbs@)));
    if canonical(le.as_slice(), k) {
        Ok(le)
    } else {
        Err(ConvertError::Field(text("limbs \u{2192} field: DeserializeBytes")))
    }
}

/// `bigint_to_field`: the integer's 32 little-endian bytes, when they spell
/// an element of the field.
fn bigint_to_field(b: &BigInt, k: FieldKind) -> (r: Result<FieldBytes, ConvertError>)
    ensures
        match r {
            Ok(f) => is_canonical(b@, k) && f@ == b@,
            Err(e) => !is_canonical(b@, k) && is_bigint_error(e),
        },
{
    if !canonical(b, k) {
        return Err(ConvertError::Field(text("BigInt \u{2192} field: DeserializeBytes")));
    }
    let mut out: Vec<u8> = Vec::new();
    let mut i: usize = 0;
    while i < 32
        invariant
            i <= 32,
            b@.len() == 32,
            out@ == b@.take(i as int),
        decreases 32 - i,
    {
        assert(b@.take(i + 1) =~= b@.take(i as int).push(b@[i as int]));
        out.push(b[i]);
        i += 1;
    }
    assert(b@.take(32) =~= b@);
    Ok(out)
}

/// Both coordinates of a point are elements of the field.
pub open spec fn point_ok(p: WirePoint, k: FieldKind) -> bool {
    is_canonical(p.0@, k) && is_canonical(p.1@, k)
}

/// `point_to_pallas` (`Step`) / `point_to_vesta` (`Wrap`): the point's
/// coordinates, when both are elements of the field.
pub(crate) fn point(p: &WirePoint, k: FieldKind) -> (r: Result<AffinePoint, ConvertError>)
    ensures
        match r {
            Ok(q) => point_ok(*p, k) && q@ == point_view(*p),
            Err(e) => !point_ok(*p, k) && is_bigint_error(e),
        },
{
    let x = match bigint_to_field(&p.0, k) {
        Ok(x) => x,
        Err(e) => {
            return Err(e);
        },
    };
    let y = match bigint_to_field(&p.1, k) {
        Ok(y) => y,
        Err(e) => {
            return Err(e);
        },
    };
    Ok(AffinePoint { x, y })
}

/// Two limbs always spell an element of either field: their integer is
/// below 2^128.
pub proof fn lemma_two_limbs_canonical(limbs: Seq<u64>, k: FieldKind)
    requires
        limbs.len() == 2,
    ensures
        is_canonical(limbs_field(limbs), k),
{
    let b = limbs_field(limbs);
    assert(limbs.drop_last().drop_last() =~= Seq::<u64>::empty());
    reveal_with_fuel(limbs_bytes, 3);
    lemma_u64_le_roundtrip(limbs[0]);
    lemma_u64_le_roundtrip(limbs[1]);
    assert(b.len() == 32);
    let hi = b.skip(16);
    assert forall|i: int| 0 <= i < 16 implies hi[i] == 0u8 by {
        assert(hi[i] == b[16 + i]);
    }
    assert(b.skip(24)[0] == hi[8] && b.skip(24)[1] == hi[9] && b.skip(24)[2] == hi[10]
        && b.skip(24)[3] == hi[11] && b.skip(24)[4] == hi[12] && b.skip(24)[5] == hi[13]
        && b.skip(24)[6] == hi[14] && b.skip(24)[7] == hi[15]);
    assert(hi[0] == 0u8 && hi[1] == 0u8 && hi[2] == 0u8 && hi[3] == 0u8 && hi[4] == 0u8 && hi[5] == 0u8
        && hi[6] == 0u8 && hi[7] == 0u8);
    lemma_le_u64_zero(hi);
    lemma_le_u64_zero(b.skip(24));
    let x0 = le_u64(b) as int;
    let x1 = le_u64(b.skip(8)) as int;
    let bb = limb_base();
    assert(x0 < bb && x1 < bb);
    assert(x0 + bb * x1 < bb * bb) by (nonlinear_arith)
        requires
            0 <= x0 < bb,
            0 <= x1 < bb,
    ;
    assert(field_value(b) == x0 + bb * x1);
}

/// Eight zero bytes read as the integer zero.
proof fn lemma_le_u64_zero(b: Seq<u8>)
    requires
        b.len() >= 8,
        b[0] == 0u8 && b[1] == 0u8 && b[2] == 0u8 && b[3] == 0u8 && b[4] == 0u8 && b[5] == 0u8
            && b[6] == 0u8 && b[7] == 0u8,
    ensures
        le_u64(b) == 0,
{
    let z: u8 = 0;
    assert((z as u64) | ((z as u64) << 8u64) | ((z as u64) << 16u64) | ((z as u64) << 24u64) | ((
    z as u64) << 32u64) | ((z as u64) << 40u64) | ((z as u64) << 48u64) | ((z as u64) << 56u64) == 0)
        by (bit_vector)
        requires
            z == 0,
    ;
}

/// `ach_to_field`: the limbs of a scalar challenge, which always spell an
/// element of the field.
fn ach_to_field(a: &ScalarChallenge, k: FieldKind) -> (r: Result<FieldBytes, ConvertError>)
    ensures
        r matches Ok(f) && f@ == limbs_field(a.inner@),
{
    proof {
        lemma_two_limbs_canonical(a.inner@, k);
    }
    limbs_to_field(&a.inner, k)
}

// ---------------------------------------------------------------------------
// The previous proof's evaluations
// ---------------------------------------------------------------------------

/// Big integers read as field elements.
pub open spec fn bigints_view(v: Seq<BigInt>) -> Seq<Seq<u8>> {
    v.map_values(|b: BigInt| b@)
}

/// A chunked pair of evaluations.
pub open spec fn chunked_view(p: ChunkedPair) -> PointEvaluationsView {
    PointEvaluationsView { zeta: bigints_view(p.0@), zeta_omega: bigints_view(p.1@) }
}

pub open spec fn chunked_views(v: Seq<ChunkedPair>) -> Seq<PointEvaluationsView> {
    v.map_values(|p: ChunkedPair| chunked_view(p))
}

/// `prev_evals`, with the public-input evaluations as a single chunk each
/// and the six index selectors in the order generic, poseidon,
/// complete_add, mul, emul, endomul_scalar.
pub open spec fn chunked_all_evals_of(p: PrevEvals) -> ChunkedAllEvalsView {
    let e = p.evals.evals;
    ChunkedAllEvalsView {
        ft_eval1: p.ft_eval1@,
        public_evals: PointEvaluationsView {
            zeta: seq![p.evals.public_input.0@],
            zeta_omega: seq![p.evals.public_input.1@],
        },
        z: chunked_view(e.z),
        w: chunked_views(e.w@),
        coefficients: chunked_views(e.coefficients@),
        s: chunked_views(e.s@),
        index: seq![
            chunked_view(e.generic_selector),
            chunked_view(e.poseidon_selector),
            chunked_view(e.complete_add_selector),
            chunked_view(e.mul_selector),
            chunked_view(e.emul_selector),
            chunked_view(e.endomul_scalar_selector),
        ],
    }
}

/// Every big integer is an element of the step field.
pub open spec fn bigints_ok(v: Seq<BigInt>) -> bool {
    forall|i: int| 0 <= i < v.len() ==> is_canonical((#[trigger] v[i])@, FieldKind::Step)
}

/// Every evaluation of a chunked pair is an element of the step field.
pub open spec fn chunked_ok(p: ChunkedPair) -> bool {
    bigints_ok(p.0@) && bigints_ok(p.1@)
}

pub open spec fn chunked_row_ok(v: Seq<ChunkedPair>) -> bool {
    forall|i: int| 0 <= i < v.len() ==> chunked_ok(#[trigger] v[i])
}

/// Every evaluation of `prev_evals` is an element of the step field.
pub open spec fn prev_evals_ok(p: PrevEvals) -> bool {
    let e = p.evals.evals;
    is_canonical(p.ft_eval1@, FieldKind::Step) && is_canonical(p.evals.public_input.0@, FieldKind::Step)
        && is_canonical(p.evals.public_input.1@, FieldKind::Step) && chunked_row_ok(e.w@)
        && chunked_row_ok(e.coefficients@) && chunked_ok(e.z) && chunked_row_ok(e.s@)
        && chunked_ok(e.generic_selector) && chunked_ok(e.poseidon_selector)
        && chunked_ok(e.complete_add_selector) && chunked_ok(e.mul_selector) && chunked_ok(e.emul_selector)
        && chunked_ok(e.endomul_scalar_selector)
}

/// `bigints_to_field_vec`: step field elements.
fn bigints_to_field_vec(bs: &Vec<BigInt>) -> (r: Result<Vec<FieldBytes>, ConvertError>)
    ensures
        match r {
            Ok(v) => bigints_ok(bs@) && fields_view(v@) == bigints_view(bs@),
            Err(e) => !bigints_ok(bs@) && is_bigint_error(e),
        },
{
    let mut out: Vec<FieldBytes> = Vec::new();
    let mut i: usize = 0;
    while i < bs.len()
        invariant
            i <= bs@.len(),
            bigints_ok(bs@.take(i as int)),
            fields_view(out@) =~= bigints_view(bs@.take(i as int)),
        decreases bs@.len() - i,
    {
        let f = match bigint_to_field(&bs[i], FieldKind::Step) {
            Ok(f) => f,
            Err(e) => {
                return Err(e);
            },
        };
        assert(bigints_view(bs@.take(i + 1)) =~= bigints_view(bs@.take(i as int)).push(bs@[i as int]@));
        assert(bs@.take(i + 1) =~= bs@.take(i as int).push(bs@[i as int]));
        out.push(f);
        i += 1;
    }
    assert(bs@.take(bs@.len() as int) =~= bs@);
    Ok(out)
}

/// `array_pair_to_chunked`.
fn array_pair_to_chunked(pair: &ChunkedPair) -> (r: Result<PointEvaluations, ConvertError>)
    ensures
        match r {
            Ok(e) => chunked_ok(*pair) && e@ == chunked_view(*pair),
            Err(e) => !chunked_ok(*pair) && is_bigint_error(e),
        },
{
    let zeta = match bigints_to_field_vec(&pair.0) {
        Ok(v) => v,
        Err(e) => {
            return Err(e);
        },
    };
    let zeta_omega = match bigints_to_field_vec(&pair.1) {
        Ok(v) => v,
        Err(e) => {
            return Err(e);
        },
    };
    Ok(PointEvaluations { zeta, zeta_omega })
}

/// A row of chunked pairs.
fn chunked_row(v: &[ChunkedPair]) -> (r: Result<Vec<PointEvaluations>, ConvertError>)
    ensures
        match r {
            Ok(out) => chunked_row_ok(v@) && evals_view(out@) == chunked_views(v@),
            Err(e) => !chunked_row_ok(v@) && is_bigint_error(e),
        },
{
    let mut out: Vec<PointEvaluations> = Vec::new();
    let mut i: usize = 0;
    while i < v.len()
        invariant
            i <= v@.len(),
            chunked_row_ok(v@.take(i as int)),
            evals_view(out@) =~= chunked_views(v@.take(i as int)),
        decreases v@.len() - i,
    {
        let e = match array_pair_to_chunked(&v[i]) {
            Ok(e) => e,
            Err(e) => {
                return Err(e);
            },
        };
        assert(chunked_views(v@.take(i + 1)) =~= chunked_views(v@.take(i as int)).push(chunked_view(v@[i as int])));
        assert(v@.take(i + 1) =~= v@.take(i as int).push(v@[i as int]));
        out.push(e);
        i += 1;
    }
    assert(v@.take(v@.len() as int) =~= v@);
    Ok(out)
}

/// `to_chunked_all_evals`: the previous proof's evaluations, when every one
/// is an element of the step field.
pub fn to_chunked_all_evals(p: &PrevEvals) -> (r: Result<ChunkedAllEvals, ConvertError>)
    ensures
        match r {
            Ok(e) => prev_evals_ok(*p) && e@ == chunked_all_evals_of(*p),
            Err(e) => !prev_evals_ok(*p) && is_bigint_error(e),
        },
{
    let ft_eval1 = match bigint_to_field(&p.ft_eval1, FieldKind::Step) {
        Ok(f) => f,
        Err(e) => {
            return Err(e);
        },
    };
    let evals_outer = &p.evals;
    // public_input is one evaluation on each side: a single chunk.
    let p0 = match bigint_to_field(&evals_outer.public_input.0, FieldKind::Step) {
        Ok(f) => f,
        Err(e) => {
            return Err(e);
        },
    };
    let p1 = match bigint_to_field(&evals_outer.public_input.1, FieldKind::Step) {
        Ok(f) => f,
        Err(e) => {
            return Err(e);
        },
    };
    let public_evals = PointEvaluations { zeta: vec![p0], zeta_omega: vec![p1] };
    let e = &evals_outer.evals;
    let w = match chunked_row(&e.w) {
        Ok(v) => v,
        Err(e) => {
            return Err(e);
        },
    };
    let coefficients = match chunked_row(&e.coefficients) {
        Ok(v) => v,
        Err(e) => {
            return Err(e);
        },
    };
    let z = match array_pair_to_chunked(&e.z) {
        Ok(v) => v,
        Err(e) => {
            return Err(e);
        },
    };
    let s = match chunked_row(&e.s) {
        Ok(v) => v,
        Err(e) => {
            return Err(e);
        },
    };
    let i0 = match array_pair_to_chunked(&e.generic_selector) {
        Ok(v) => v,
        Err(e) => {
            return Err(e);
        },
    };
    let i1 = match array_pair_to_chunked(&e.poseidon_selector) {
        Ok(v) => v,
        Err(e) => {
            return Err(e);
        },
    };
    let i2 = match array_pair_to_chunked(&e.complete_add_selector) {
        Ok(v) => v,
        Err(e) => {
            return Err(e);
        },
    };
    let i3 = match array_pair_to_chunked(&e.mul_selector) {
        Ok(v) => v,
        Err(e) => {
            return Err(e);
        },
    };
    let i4 = match array_pair_to_chunked(&e.emul_selector) {
        Ok(v) => v,
        Err(e) => {
            return Err(e);
        },
    };
    let i5 = match array_pair_to_chunked(&e.endomul_scalar_selector) {
        Ok(v) => v,
        Err(e) => {
            return Err(e);
        },
    };
    let index = vec![i0, i1, i2, i3, i4, i5];
    let r = ChunkedAllEvals { ft_eval1, public_evals, z, w, coefficients, s, index };
    assert(r.public_evals@.zeta =~= seq![p.evals.public_input.0@]);
    assert(r.public_evals@.zeta_omega =~= seq![p.evals.public_input.1@]);
    assert(evals_view(r.index@) =~= chunked_all_evals_of(*p).index);
    Ok(r)
}

// ---------------------------------------------------------------------------
// The statement
// ---------------------------------------------------------------------------

/// `proofs_verified`: N0 = [F,F], N1 = [F,T], N2 = [T,T].
pub open spec fn mask_of(pv: ProofsVerified) -> [bool; 2] {
    match pv {
        ProofsVerified::N0 => [false, false],
        ProofsVerified::N1 => [false, true],
        ProofsVerified::N2 => [true, true],
    }
}

pub open spec fn wire_points_view(v: Seq<WirePoint>) -> Seq<AffinePointView> {
    v.map_values(|p: WirePoint| point_view(p))
}

pub open spec fn step_rows_view(v: Seq<[BulletproofChallenge; 16]>) -> Seq<Seq<Seq<u8>>> {
    v.map_values(|row: [BulletproofChallenge; 16]| prechallenges(row@))
}

pub open spec fn wrap_rows_view(v: Seq<[BulletproofChallenge; 15]>) -> Seq<Seq<Seq<u8>>> {
    v.map_values(|row: [BulletproofChallenge; 15]| prechallenges(row@))
}

/// The number of previous proofs a record carries: its previous step
/// commitments.
pub open spec fn prev_count(p: ProofsVerified2Repr) -> nat {
    p.statement.messages_for_next_step_proof.challenge_polynomial_commitments@.len()
}

/// The proof fields of a record. Of the two (front-padded) previous wrap
/// challenge rows, the last `prev_count` are kept.
pub open spec fn ocaml_proof_of(p: ProofsVerified2Repr) -> OcamlProofView {
    let st = p.statement;
    let dv = st.proof_state.deferred_values;
    let msg_step = st.messages_for_next_step_proof;
    let msg_wrap = st.proof_state.messages_for_next_wrap_proof;
    let prev_evals = chunked_all_evals_of(p.prev_evals);
    OcamlProofView {
        raw_plonk: PlonkMinimalView {
            alpha: limbs_field(dv.plonk.alpha.inner@),
            beta: limbs_field(dv.plonk.beta@),
            gamma: limbs_field(dv.plonk.gamma@),
            zeta: limbs_field(dv.plonk.zeta.inner@),
        },
        raw_bulletproof_challenges: prechallenges(dv.bulletproof_challenges@),
        branch_data: BranchDataView {
            domain_log2: small_field(dv.branch_data.domain_log2),
            proofs_verified_mask: mask_of(dv.branch_data.proofs_verified),
        },
        sponge_digest_before_evaluations: limbs_field(st.proof_state.sponge_digest_before_evaluations@),
        challenge_polynomial_commitment: point_view(msg_wrap.challenge_polynomial_commitment),
        step_domain_log2: dv.branch_data.domain_log2,
        prev_evals,
        p_eval0_chunks: prev_evals.public_evals.zeta,
        prev_step_sgs: wire_points_view(msg_step.challenge_polynomial_commitments@),
        prev_step_chals_raw: step_rows_view(msg_step.old_bulletproof_challenges@),
        prev_wrap_chals_raw: wrap_rows_view(msg_wrap.old_bulletproof_challenges@.skip(2 - prev_count(p))),
    }
}

/// The prechallenges of a row of bulletproof challenges, as elements of
/// the field, which they always are.
fn prechallenge_row(row: &[BulletproofChallenge], k: FieldKind) -> (r: Result<Vec<FieldBytes>, ConvertError>)
    ensures
        r matches Ok(v) && fields_view(v@) == prechallenges(row@),
{
    let mut out: Vec<FieldBytes> = Vec::new();
    let mut i: usize = 0;
    while i < row.len()
        invariant
            i <= row@.len(),
            fields_view(out@) =~= prechallenges(row@.take(i as int)),
        decreases row@.len() - i,
    {
        let f = match ach_to_field(&row[i].prechallenge, k) {
            Ok(f) => f,
            Err(e) => {
                return Err(e);
            },
        };
        assert(prechallenges(row@.take(i + 1)) =~= prechallenges(row@.take(i as int)).push(
            prechallenge_field(row@[i as int]),
        ));
        out.push(f);
        i += 1;
    }
    assert(row@.take(row@.len() as int) =~= row@);
    Ok(out)
}

/// Both coordinates of every point are elements of the field.
pub open spec fn points_ok(v: Seq<WirePoint>, k: FieldKind) -> bool {
    forall|i: int| 0 <= i < v.len() ==> point_ok(#[trigger] v[i], k)
}

/// A list of points, when every coordinate is an element of the field.
pub(crate) fn point_list(v: &[WirePoint], k: FieldKind) -> (r: Result<Vec<AffinePoint>, ConvertError>)
    ensures
        match r {
            Ok(out) => points_ok(v@, k) && points_view(out@) == wire_points_view(v@),
            Err(e) => !points_ok(v@, k) && is_bigint_error(e),
        },
{
    let mut out: Vec<AffinePoint> = Vec::new();
    let mut i: usize = 0;
    while i < v.len()
        invariant
            i <= v@.len(),
            points_ok(v@.take(i as int), k),
            points_view(out@) =~= wire_points_view(v@.take(i as int)),
        decreases v@.len() - i,
    {
        let q = match point(&v[i], k) {
            Ok(q) => q,
            Err(e) => {
                return Err(e);
            },
        };
        assert(wire_points_view(v@.take(i + 1)) =~= wire_points_view(v@.take(i as int)).push(
            point_view(v@[i as int]),
        ));
        assert(v@.take(i + 1) =~= v@.take(i as int).push(v@[i as int]));
        out.push(q);
        i += 1;
    }
    assert(v@.take(v@.len() as int) =~= v@);
    Ok(out)
}

/// The previous step proofs' challenge rows.
fn step_rows(v: &Vec<[BulletproofChallenge; 16]>) -> (r: Result<Vec<Vec<FieldBytes>>, ConvertError>)
    ensures
        r matches Ok(out) && rows_view(out@) == step_rows_view(v@),
{
    let mut out: Vec<Vec<FieldBytes>> = Vec::new();
    let mut i: usize = 0;
    while i < v.len()
        invariant
            i <= v@.len(),
            rows_view(out@) =~= step_rows_view(v@.take(i as int)),
        decreases v@.len() - i,
    {
        let row = match prechallenge_row(&v[i], FieldKind::Step) {
            Ok(row) => row,
            Err(e) => {
                return Err(e);
            },
        };
        assert(step_rows_view(v@.take(i + 1)) =~= step_rows_view(v@.take(i as int)).push(
            prechallenges(v@[i as int]@),
        ));
        out.push(row);
        i += 1;
    }
    assert(v@.take(v@.len() as int) =~= v@);
    Ok(out)
}

/// The previous wrap proofs' challenge rows from row `from` on.
fn wrap_rows(v: &[[BulletproofChallenge; 15]; 2], from: usize) -> (r: Result<Vec<Vec<FieldBytes>>, ConvertError>)
    requires
        from <= 2,
    ensures
        r matches Ok(out) && rows_view(out@) == wrap_rows_view(v@.skip(from as int)),
{
    let ghost rows = v@.skip(from as int);
    let mut out: Vec<Vec<FieldBytes>> = Vec::new();
    let mut i: usize = from;
    while i < 2
        invariant
            from <= i <= 2,
            v@.len() == 2,
            rows == v@.skip(from as int),
            rows_view(out@) =~= wrap_rows_view(rows.take(i - from)),
        decreases 2 - i,
    {
        let row = match prechallenge_row(&v[i], FieldKind::Wrap) {
            Ok(row) => row,
            Err(e) => {
                return Err(e);
            },
        };
        assert(rows.take(i + 1 - from) =~= rows.take(i - from).push(v@[i as int]));
        assert(wrap_rows_view(rows.take(i + 1 - from)) =~= wrap_rows_view(rows.take(i - from)).push(
            prechallenges(v@[i as int]@),
        ));
        out.push(row);
        i += 1;
    }
    assert(rows.take(2 - from) =~= rows);
    Ok(out)
}

/// Every field element that the proof fields of a record read is one: the
/// sponge digest and the previous evaluations in the step field, the
/// challenge polynomial commitment's coordinates in the wrap field, the
/// previous step commitments' in the step field. (The 128-bit challenges
/// always are.)
pub open spec fn ocaml_fields_ok(p: ProofsVerified2Repr) -> bool {
    is_canonical(limbs_field(p.statement.proof_state.sponge_digest_before_evaluations@), FieldKind::Step)
        && point_ok(p.statement.proof_state.messages_for_next_wrap_proof.challenge_polynomial_commitment, FieldKind::Wrap)
        && prev_evals_ok(p.prev_evals)
        && points_ok(p.statement.messages_for_next_step_proof.challenge_polynomial_commitments@, FieldKind::Step)
}

/// The error for the first field element of a record's proof fields that
/// is not one: the sponge digest is read first.
pub open spec fn ocaml_fields_error(p: ProofsVerified2Repr, e: ConvertError) -> bool {
    if is_canonical(limbs_field(p.statement.proof_state.sponge_digest_before_evaluations@), FieldKind::Step) {
        is_bigint_error(e)
    } else {
        e matches ConvertError::Field(m) && m@ == limbs_field_text()
    }
}

/// `ocaml_proof_from_bin_prot`: the proof fields of a record, when every
/// field element it reads is one; else the error for the first that is
/// not. A record with more than two previous proofs has no reading.
pub fn ocaml_proof_from_bin_prot(p: &ProofsVerified2Repr) -> (r: Result<OcamlProof, ConvertError>)
    requires
        prev_count(*p) <= 2,
    ensures
        match r {
            Ok(o) => ocaml_fields_ok(*p) && o@ == ocaml_proof_of(*p),
            Err(e) => !ocaml_fields_ok(*p) && ocaml_fields_error(*p, e),
        },
{
    let st = &p.statement;
    let dv = &st.proof_state.deferred_values;
    let msg_step = &st.messages_for_next_step_proof;
    let msg_wrap = &st.proof_state.messages_for_next_wrap_proof;

    // raw_plonk: 128-bit challenges as field elements (LE).
    proof {
        lemma_two_limbs_canonical(dv.plonk.beta@, FieldKind::Step);
        lemma_two_limbs_canonical(dv.plonk.gamma@, FieldKind::Step);
    }
    let alpha = match ach_to_field(&dv.plonk.alpha, FieldKind::Step) {
        Ok(f) => f,
        Err(e) => {
            return Err(e);
        },
    };
    let beta = match limbs_to_field(&dv.plonk.beta, FieldKind::Step) {
        Ok(f) => f,
        Err(e) => {
            return Err(e);
        },
    };
    let gamma = match limbs_to_field(&dv.plonk.gamma, FieldKind::Step) {
        Ok(f) => f,
        Err(e) => {
            return Err(e);
        },
    };
    let zeta = match ach_to_field(&dv.plonk.zeta, FieldKind::Step) {
        Ok(f) => f,
        Err(e) => {
            return Err(e);
        },
    };
    let raw_plonk = PlonkMinimal { alpha, beta, gamma, zeta };

    // raw_bulletproof_challenges: 16 prechallenges.
    let raw_bulletproof_challenges = match prechallenge_row(&dv.bulletproof_challenges, FieldKind::Step) {
        Ok(v) => v,
        Err(e) => {
            return Err(e);
        },
    };

    let step_domain_log2 = dv.branch_data.domain_log2;
    let proofs_verified_mask = match dv.branch_data.proofs_verified {
        ProofsVerified::N0 => [false, false],
        ProofsVerified::N1 => [false, true],
        ProofsVerified::N2 => [true, true],
    };
    let branch_data = BranchData { domain_log2: small_field_bytes(step_domain_log2), proofs_verified_mask };

    // sponge_digest_before_evaluations: 4 LE limbs (256 bits).
    let sponge_digest_before_evaluations = match limbs_to_field(
        &st.proof_state.sponge_digest_before_evaluations,
        FieldKind::Step,
    ) {
        Ok(f) => f,
        Err(e) => {
            return Err(e);
        },
    };

    // The commitment is a Vesta point: wrap field coordinates.
    let challenge_polynomial_commitment = match point(&msg_wrap.challenge_polynomial_commitment, FieldKind::Wrap) {
        Ok(q) => q,
        Err(e) => {
            return Err(e);
        },
    };

    let prev_evals = match to_chunked_all_evals(&p.prev_evals) {
        Ok(e) => e,
        Err(e) => {
            return Err(e);
        },
    };
    let p_eval0_chunks = copy_fields(&prev_evals.public_evals.zeta);

    let prev_step_sgs = match point_list(msg_step.challenge_polynomial_commitments.as_slice(), FieldKind::Step) {
        Ok(v) => v,
        Err(e) => {
            return Err(e);
        },
    };
    let prev_step_chals_raw = match step_rows(&msg_step.old_bulletproof_challenges) {
        Ok(v) => v,
        Err(e) => {
            return Err(e);
        },
    };

    // The wrap rows are front-padded to two; only the last `mpv` belong to
    // previous proofs.
    let mpv = msg_step.challenge_polynomial_commitments.len();
    let prev_wrap_chals_raw = match wrap_rows(&msg_wrap.old_bulletproof_challenges, 2 - mpv) {
        Ok(v) => v,
        Err(e) => {
            return Err(e);
        },
    };

    let r = OcamlProof {
        raw_plonk,
        raw_bulletproof_challenges,
        branch_data,
        sponge_digest_before_evaluations,
        challenge_polynomial_commitment,
        step_domain_log2,
        prev_evals,
        p_eval0_chunks,
        prev_step_sgs,
        prev_step_chals_raw,
        prev_wrap_chals_raw,
    };
    assert(r.branch_data@.proofs_verified_mask == mask_of(dv.branch_data.proofs_verified));
    Ok(r)
}

// ---------------------------------------------------------------------------
// The wrap proof
// ---------------------------------------------------------------------------

/// One evaluation on each side: a single chunk each.
pub open spec fn eval_pair_view(p: EvalPair) -> PointEvaluationsView {
    PointEvaluationsView { zeta: seq![p.0@], zeta_omega: seq![p.1@] }
}

pub open spec fn eval_pairs_view(v: Seq<EvalPair>) -> Seq<PointEvaluationsView> {
    v.map_values(|p: EvalPair| eval_pair_view(p))
}

pub open spec fn lr_view(v: Seq<(WirePoint, WirePoint)>) -> Seq<(AffinePointView, AffinePointView)> {
    v.map_values(|p: (WirePoint, WirePoint)| (point_view(p.0), point_view(p.1)))
}

/// The wrap proof of a record. Its previous-proof accumulators pair the
/// previous step commitments, front-padded with dummy commitments to two,
/// with the two wrap challenge rows.
pub open spec fn wrap_proof_of(p: ProofsVerified2Repr) -> WrapProofView {
    let wp = p.proof;
    let ev = wp.evaluations;
    let st = p.statement;
    WrapProofView {
        commitments: ProverCommitmentsView {
            w_comm: wire_points_view(wp.commitments.w_comm@),
            z_comm: point_view(wp.commitments.z_comm),
            t_comm: wire_points_view(wp.commitments.t_comm@),
        },
        proof: OpeningProofView {
            lr: lr_view(wp.bulletproof.lr@),
            delta: point_view(wp.bulletproof.delta),
            z1: wp.bulletproof.z_1@,
            z2: wp.bulletproof.z_2@,
            sg: point_view(wp.bulletproof.challenge_polynomial_commitment),
        },
        evals: ProofEvaluationsView {
            w: eval_pairs_view(ev.w@),
            z: eval_pair_view(ev.z),
            s: eval_pairs_view(ev.s@),
            coefficients: eval_pairs_view(ev.coefficients@),
            selectors: seq![
                eval_pair_view(ev.generic_selector),
                eval_pair_view(ev.poseidon_selector),
                eval_pair_view(ev.complete_add_selector),
                eval_pair_view(ev.mul_selector),
                eval_pair_view(ev.emul_selector),
                eval_pair_view(ev.endomul_scalar_selector),
            ],
        },
        ft_eval1: wp.ft_eval1@,
        prev_challenges: prev_challenges_spec(
            wire_points_view(st.messages_for_next_step_proof.challenge_polynomial_commitments@),
            wrap_rows_view(st.proof_state.messages_for_next_wrap_proof.old_bulletproof_challenges@),
        ),
    }
}

/// Both evaluations of a pair are elements of the wrap field.
pub open spec fn pair_ok(p: EvalPair) -> bool {
    is_canonical(p.0@, FieldKind::Wrap) && is_canonical(p.1@, FieldKind::Wrap)
}

pub open spec fn pairs_ok(v: Seq<EvalPair>) -> bool {
    forall|i: int| 0 <= i < v.len() ==> pair_ok(#[trigger] v[i])
}

/// Every coordinate of the `(L, R)` pairs is an element of the step field.
pub open spec fn lr_ok(v: Seq<(WirePoint, WirePoint)>) -> bool {
    forall|i: int| 0 <= i < v.len() ==> point_ok((#[trigger] v[i]).0, FieldKind::Step) && point_ok(v[i].1, FieldKind::Step)
}

/// `pair_to_point_eval`: wrap field elements.
fn pair_to_point_eval(p: &EvalPair) -> (r: Result<PointEvaluations, ConvertError>)
    ensures
        match r {
            Ok(e) => pair_ok(*p) && e@ == eval_pair_view(*p),
            Err(e) => !pair_ok(*p) && is_bigint_error(e),
        },
{
    let a = match bigint_to_field(&p.0, FieldKind::Wrap) {
        Ok(f) => f,
        Err(e) => {
            return Err(e);
        },
    };
    let b = match bigint_to_field(&p.1, FieldKind::Wrap) {
        Ok(f) => f,
        Err(e) => {
            return Err(e);
        },
    };
    let r = PointEvaluations { zeta: vec![a], zeta_omega: vec![b] };
    assert(r@.zeta =~= seq![p.0@]);
    assert(r@.zeta_omega =~= seq![p.1@]);
    Ok(r)
}

/// A row of evaluation pairs.
fn eval_row(v: &[EvalPair]) -> (r: Result<Vec<PointEvaluations>, ConvertError>)
    ensures
        match r {
            Ok(out) => pairs_ok(v@) && evals_view(out@) == eval_pairs_view(v@),
            Err(e) => !pairs_ok(v@) && is_bigint_error(e),
        },
{
    let mut out: Vec<PointEvaluations> = Vec::new();
    let mut i: usize = 0;
    while i < v.len()
        invariant
            i <= v@.len(),
            pairs_ok(v@.take(i as int)),
            evals_view(out@) =~= eval_pairs_view(v@.take(i as int)),
        decreases v@.len() - i,
    {
        let e = match pair_to_point_eval(&v[i]) {
            Ok(e) => e,
            Err(e) => {
                return Err(e);
            },
        };
        assert(eval_pairs_view(v@.take(i + 1)) =~= eval_pairs_view(v@.take(i as int)).push(
            eval_pair_view(v@[i as int]),
        ));
        assert(v@.take(i + 1) =~= v@.take(i as int).push(v@[i as int]));
        out.push(e);
        i += 1;
    }
    assert(v@.take(v@.len() as int) =~= v@);
    Ok(out)
}

/// The `(L, R)` pairs of the opening proof.
fn lr_list(v: &Vec<(WirePoint, WirePoint)>) -> (r: Result<Vec<(AffinePoint, AffinePoint)>, ConvertError>)
    ensures
        match r {
            Ok(out) => lr_ok(v@) && pairs_view(out@) == lr_view(v@),
            Err(e) => !lr_ok(v@) && is_bigint_error(e),
        },
{
    let mut out: Vec<(AffinePoint, AffinePoint)> = Vec::new();
    let mut i: usize = 0;
    while i < v.len()
        invariant
            i <= v@.len(),
            lr_ok(v@.take(i as int)),
            pairs_view(out@) =~= lr_view(v@.take(i as int)),
        decreases v@.len() - i,
    {
        let l = match point(&v[i].0, FieldKind::Step) {
            Ok(q) => q,
            Err(e) => {
                return Err(e);
            },
        };
        let r = match point(&v[i].1, FieldKind::Step) {
            Ok(q) => q,
            Err(e) => {
                return Err(e);
            },
        };
        assert(lr_view(v@.take(i + 1)) =~= lr_view(v@.take(i as int)).push(
            (point_view(v@[i as int].0), point_view(v@[i as int].1)),
        ));
        assert(v@.take(i + 1) =~= v@.take(i as int).push(v@[i as int]));
        out.push((l, r));
        i += 1;
    }
    assert(v@.take(v@.len() as int) =~= v@);
    Ok(out)
}

/// The previous step commitments, front-padded with dummies to two, when
/// every coordinate is an element of the step field.
fn padded_points(v: &Vec<WirePoint>) -> (r: Result<Vec<Option<AffinePoint>>, ConvertError>)
    ensures
        match r {
            Ok(out) => points_ok(v@, FieldKind::Step) && opt_points_view(out@) == front_padded(wire_points_view(v@)),
            Err(e) => !points_ok(v@, FieldKind::Step) && is_bigint_error(e),
        },
{
    let ghost w = wire_points_view(v@);
    let n = v.len();
    let pad: usize = if n < 2 {
        2 - n
    } else {
        0
    };
    let mut out: Vec<Option<AffinePoint>> = Vec::new();
    let mut k: usize = 0;
    while k < pad
        invariant
            k <= pad,
            opt_points_view(out@) =~= Seq::new(k as nat, |i: int| None::<AffinePointView>),
        decreases pad - k,
    {
        let ghost prev = out@;
        out.push(None);
        assert(opt_points_view(out@) =~= opt_points_view(prev).push(None));
        k += 1;
    }
    let ghost dummies = opt_points_view(out@);
    let mut i: usize = 0;
    while i < n
        invariant
            n == v@.len(),
            w == wire_points_view(v@),
            dummies == Seq::new(pad as nat, |i: int| None::<AffinePointView>),
            i <= n,
            points_ok(v@.take(i as int), FieldKind::Step),
            opt_points_view(out@) =~= dummies + w.take(i as int).map_values(|x: AffinePointView| Some(x)),
        decreases n - i,
    {
        let q = match point(&v[i], FieldKind::Step) {
            Ok(q) => q,
            Err(e) => {
                return Err(e);
            },
        };
        let ghost prev = out@;
        out.push(Some(q));
        assert(opt_points_view(out@) =~= opt_points_view(prev).push(Some(w[i as int])));
        assert(w.take(i + 1).map_values(|x: AffinePointView| Some(x)) =~= w.take(i as int).map_values(
            |x: AffinePointView| Some(x),
        ).push(Some(w[i as int])));
        assert(v@.take(i + 1) =~= v@.take(i as int).push(v@[i as int]));
        i += 1;
    }
    assert(w.take(n as int) =~= w);
    assert(v@.take(n as int) =~= v@);
    assert(opt_points_view(out@) =~= front_padded(w));
    Ok(out)
}

/// The two previous wrap challenge rows, each present.
fn present_rows(v: &[[BulletproofChallenge; 15]; 2]) -> (r: Result<Vec<Option<Vec<FieldBytes>>>, ConvertError>)
    ensures
        r matches Ok(out) && opt_rows_view(out@) == front_padded(wrap_rows_view(v@)),
{
    let ghost w = wrap_rows_view(v@);
    let r0 = match prechallenge_row(&v[0], FieldKind::Wrap) {
        Ok(row) => row,
        Err(e) => {
            return Err(e);
        },
    };
    let r1 = match prechallenge_row(&v[1], FieldKind::Wrap) {
        Ok(row) => row,
        Err(e) => {
            return Err(e);
        },
    };
    let out = vec![Some(r0), Some(r1)];
    assert(w.len() == 2);
    assert(opt_rows_view(out@) =~= front_padded(w));
    Ok(out)
}

/// `hex::FromHexError`, the reason a text is not hex.
#[verifier::external_type_specification]
#[verifier::external_body]
pub struct ExFromHexError(hex::FromHexError);

/// Bytes written as pairs of hex digits (either case), high digit first.
pub open spec fn hex_pairs(d: Seq<u8>) -> Option<Seq<u8>> {
    if d.len() % 2 == 0 && all_hex(d) {
        Some(
            Seq::new(
                d.len() / 2,
                |i: int| (16 * hex_digit(d[2 * i]).unwrap() + hex_digit(d[2 * i + 1]).unwrap()) as u8,
            ),
        )
    } else {
        None
    }
}

/// Calls `hex::decode`. Claimed, as its source shows: an even number of hex
/// digits (either case) decodes to one byte per pair, high digit first;
/// anything else is an error (which `FromHexError` is left unsaid).
#[verifier::external_body]
fn hex_decode(data: &str) -> (r: Result<Vec<u8>, hex::FromHexError>)
    ensures
        match (r, hex_pairs(data.spec_bytes())) {
            (Ok(v), Some(w)) => v@ == w,
            (Err(_), None) => true,
            _ => false,
        },
{
    hex::decode(data)
}

/// `Pickles.Dummy.Ipa.Wrap.sg`, the protocol-fixed dummy Pallas point that
/// front-pads the previous step commitments to two, in kimchi's 33-byte
/// compressed encoding, written as hex. Derived by OCaml as
/// `Pickles.Ipa.Wrap.compute_sg` of the dummy wrap challenges; universal
/// across mainnet, devnet and o1js, since Mina's wrap SRS is.
pub const DUMMY_WRAP_SG_COMPRESSED_HEX: &'static str =
    "48b536e84654a55f4ffdfffdf591bd9d3ca1704bcef05ca59dc26448dedfd31100";

/// The compressed encoding of the dummy commitment that stands for a
/// missing previous proof (a `None` commitment of the wrap proof's
/// accumulators).
pub fn dummy_wrap_sg_compressed() -> (r: Result<Vec<u8>, hex::FromHexError>)
    ensures
        match (r, hex_pairs(DUMMY_WRAP_SG_COMPRESSED_HEX.spec_bytes())) {
            (Ok(v), Some(w)) => v@ == w,
            (Err(_), None) => true,
            _ => false,
        },
{
    hex_decode(DUMMY_WRAP_SG_COMPRESSED_HEX)
}

/// Every field element that the wrap proof of a record reads is one: the
/// commitments' and the opening proof's coordinates in the step field (they
/// are Pallas points), the evaluations and the opening proof's scalars in
/// the wrap field. (The 128-bit challenges always are.)
pub open spec fn wrap_fields_ok(p: ProofsVerified2Repr) -> bool {
    let wp = p.proof;
    let ev = wp.evaluations;
    let step = FieldKind::Step;
    points_ok(wp.commitments.w_comm@, step) && point_ok(wp.commitments.z_comm, step)
        && points_ok(wp.commitments.t_comm@, step) && lr_ok(wp.bulletproof.lr@)
        && point_ok(wp.bulletproof.delta, step) && is_canonical(wp.bulletproof.z_1@, FieldKind::Wrap)
        && is_canonical(wp.bulletproof.z_2@, FieldKind::Wrap)
        && point_ok(wp.bulletproof.challenge_polynomial_commitment, step) && pairs_ok(ev.w@)
        && pairs_ok(ev.coefficients@) && pair_ok(ev.z) && pairs_ok(ev.s@) && pair_ok(ev.generic_selector)
        && pair_ok(ev.poseidon_selector) && pair_ok(ev.complete_add_selector) && pair_ok(ev.mul_selector)
        && pair_ok(ev.emul_selector) && pair_ok(ev.endomul_scalar_selector)
        && is_canonical(wp.ft_eval1@, FieldKind::Wrap)
        && points_ok(p.statement.messages_for_next_step_proof.challenge_polynomial_commitments@, step)
}

/// `to_wrap_proof`: the wrap kimchi proof of a record, field by field, when
/// every field element it reads is one; else the error for a big integer
/// that is not. The previous-proof accumulators pair the previous step
/// commitments, front-padded with the dummy commitment to two, with the two
/// wrap challenge rows; the challenges are the raw prechallenges.
pub fn to_wrap_proof(p: &ProofsVerified2Repr) -> (r: Result<WrapProof, ConvertError>)
    ensures
        match r {
            Ok(w) => wrap_fields_ok(*p) && w@ == wrap_proof_of(*p),
            Err(e) => !wrap_fields_ok(*p) && is_bigint_error(e),
        },
{
    let wp = &p.proof;

    // ----- ProverCommitments: one chunk per commitment, but for t_comm,
    // whose 7 points are the chunks of one commitment.
    let w_comm = match point_list(&wp.commitments.w_comm, FieldKind::Step) {
        Ok(v) => v,
        Err(e) => {
            return Err(e);
        },
    };
    let z_comm = match point(&wp.commitments.z_comm, FieldKind::Step) {
        Ok(q) => q,
        Err(e) => {
            return Err(e);
        },
    };
    let t_comm = match point_list(&wp.commitments.t_comm, FieldKind::Step) {
        Ok(v) => v,
        Err(e) => {
            return Err(e);
        },
    };
    let commitments = ProverCommitments { w_comm, z_comm, t_comm };

    // ----- OpeningProof (IPA)
    let lr = match lr_list(&wp.bulletproof.lr) {
        Ok(v) => v,
        Err(e) => {
            return Err(e);
        },
    };
    let delta = match point(&wp.bulletproof.delta, FieldKind::Step) {
        Ok(q) => q,
        Err(e) => {
            return Err(e);
        },
    };
    let z1 = match bigint_to_field(&wp.bulletproof.z_1, FieldKind::Wrap) {
        Ok(f) => f,
        Err(e) => {
            return Err(e);
        },
    };
    let z2 = match bigint_to_field(&wp.bulletproof.z_2, FieldKind::Wrap) {
        Ok(f) => f,
        Err(e) => {
            return Err(e);
        },
    };
    let sg = match point(&wp.bulletproof.challenge_polynomial_commitment, FieldKind::Step) {
        Ok(q) => q,
        Err(e) => {
            return Err(e);
        },
    };
    let opening = OpeningProof { lr, delta, z1, z2, sg };

    // ----- ProofEvaluations
    let ev = &wp.evaluations;
    let w = match eval_row(&ev.w) {
        Ok(v) => v,
        Err(e) => {
            return Err(e);
        },
    };
    let coefficients = match eval_row(&ev.coefficients) {
        Ok(v) => v,
        Err(e) => {
            return Err(e);
        },
    };
    let z = match pair_to_point_eval(&ev.z) {
        Ok(v) => v,
        Err(e) => {
            return Err(e);
        },
    };
    let s = match eval_row(&ev.s) {
        Ok(v) => v,
        Err(e) => {
            return Err(e);
        },
    };
    let generic_selector = match pair_to_point_eval(&ev.generic_selector) {
        Ok(v) => v,
        Err(e) => {
            return Err(e);
        },
    };
    let poseidon_selector = match pair_to_point_eval(&ev.poseidon_selector) {
        Ok(v) => v,
        Err(e) => {
            return Err(e);
        },
    };
    let complete_add_selector = match pair_to_point_eval(&ev.complete_add_selector) {
        Ok(v) => v,
        Err(e) => {
            return Err(e);
        },
    };
    let mul_selector = match pair_to_point_eval(&ev.mul_selector) {
        Ok(v) => v,
        Err(e) => {
            return Err(e);
        },
    };
    let emul_selector = match pair_to_point_eval(&ev.emul_selector) {
        Ok(v) => v,
        Err(e) => {
            return Err(e);
        },
    };
    let endomul_scalar_selector = match pair_to_point_eval(&ev.endomul_scalar_selector) {
        Ok(v) => v,
        Err(e) => {
            return Err(e);
        },
    };
    let evals = ProofEvaluations {
        w,
        z,
        s,
        coefficients,
        generic_selector,
        poseidon_selector,
        complete_add_selector,
        mul_selector,
        emul_selector,
        endomul_scalar_selector,
    };

    let ft_eval1 = match bigint_to_field(&wp.ft_eval1, FieldKind::Wrap) {
        Ok(f) => f,
        Err(e) => {
            return Err(e);
        },
    };

    // ----- prev_challenges: the step commitments front-padded with the
    // dummy to two, zipped with the (already two) wrap challenge rows.
    let st = &p.statement;
    let padded_sgs = match padded_points(&st.messages_for_next_step_proof.challenge_polynomial_commitments) {
        Ok(v) => v,
        Err(e) => {
            return Err(e);
        },
    };
    let chal_rows = match present_rows(&st.proof_state.messages_for_next_wrap_proof.old_bulletproof_challenges) {
        Ok(v) => v,
        Err(e) => {
            return Err(e);
        },
    };
    let prev_challenges = zip_challenges(padded_sgs, chal_rows);

    let r = WrapProof { commitments, proof: opening, evals, ft_eval1, prev_challenges };
    assert(r@.evals.selectors =~= wrap_proof_of(*p).evals.selectors);
    assert(r@.prev_challenges =~= wrap_proof_of(*p).prev_challenges);
    Ok(r)
}

// ---------------------------------------------------------------------------
// Laws
// ---------------------------------------------------------------------------

/// Every field element read from limbs is 32 bytes long.
pub proof fn lemma_limbs_field_len(limbs: Seq<u64>)
    ensures
        limbs_field(limbs).len() == 32,
{
}

/// The proofs-verified mask is a prefix mask: `[true, false]` never occurs.
pub proof fn lemma_mask_of_is_prefix(pv: ProofsVerified)
    ensures
        mask_of(pv)[0] ==> mask_of(pv)[1],
{
}

/// The two readings of a record agree on its previous proofs: the wrap
/// proof carries two accumulators, a dummy one for each missing previous
/// proof first, then for each previous proof, in order, its step commitment
/// and its wrap challenge row exactly as the proof fields carry them.
pub proof fn lemma_accumulators_match_statement(p: ProofsVerified2Repr)
    requires
        prev_count(p) <= 2,
    ensures
        wrap_proof_of(p).prev_challenges.len() == 2,
        ocaml_proof_of(p).prev_step_sgs.len() == prev_count(p),
        ocaml_proof_of(p).prev_wrap_chals_raw.len() == prev_count(p),
        forall|i: int| 0 <= i < 2 - prev_count(p) ==> (#[trigger] wrap_proof_of(p).prev_challenges[i]).comm is None,
        forall|i: int|
            0 <= i < prev_count(p) ==> (#[trigger] wrap_proof_of(p).prev_challenges[2 - prev_count(p) + i]).comm
                == Some(ocaml_proof_of(p).prev_step_sgs[i]),
        forall|i: int|
            0 <= i < prev_count(p) ==> (#[trigger] wrap_proof_of(p).prev_challenges[2 - prev_count(p) + i]).chals
                == Some(ocaml_proof_of(p).prev_wrap_chals_raw[i]),
{
    let m = prev_count(p) as int;
    let sgs = wire_points_view(p.statement.messages_for_next_step_proof.challenge_polynomial_commitments@);
    let rows = wrap_rows_view(p.statement.proof_state.messages_for_next_wrap_proof.old_bulletproof_challenges@);
    assert(rows.len() == 2);
    lemma_prev_challenges_padded(sgs, rows);
    let kept = wrap_rows_view(p.statement.proof_state.messages_for_next_wrap_proof.old_bulletproof_challenges@.skip(2 - m));
    assert(kept =~= rows.skip(2 - m));
    assert forall|i: int| 0 <= i < m implies (#[trigger] wrap_proof_of(p).prev_challenges[2 - m + i]).chals
        == Some(ocaml_proof_of(p).prev_wrap_chals_raw[i]) by {
        assert(ocaml_proof_of(p).prev_wrap_chals_raw[i] == rows[2 - m + i]);
    }
}


/// The S-expression and bin_prot readings agree on limbs: atoms that each
/// read as the matching `u64` limb read, as an element of either field,
/// exactly as the bin_prot limbs do, and both readings refuse the same
/// limbs.
pub proof fn lemma_limb_readings_agree(atoms: Seq<SexpView>, limbs: Seq<u64>, k: FieldKind)
    requires
        atoms.len() == limbs.len(),
        forall|i: int| 0 <= i < atoms.len() ==> limb_spec(#[trigger] atoms[i]) == Some(limbs[i]),
    ensures
        crate::ingest::o1js_sexpr::limbs_field(atoms, k) == (if is_canonical(limbs_field(limbs), k) {
            Some(limbs_field(limbs))
        } else {
            None
        }),
{
    lemma_limbs_le_agree(atoms, limbs);
}

proof fn lemma_limbs_le_agree(atoms: Seq<SexpView>, limbs: Seq<u64>)
    requires
        atoms.len() == limbs.len(),
        forall|i: int| 0 <= i < atoms.len() ==> limb_spec(#[trigger] atoms[i]) == Some(limbs[i]),
    ensures
        limbs_le(atoms) == Some(limbs_bytes(limbs)),
    decreases atoms.len(),
{
    if atoms.len() > 0 {
        let n = atoms.len() - 1;
        assert(limb_spec(atoms[n]) == Some(limbs[n]));
        lemma_limbs_le_agree(atoms.drop_last(), limbs.drop_last());
    }
}

/// The two readings agree on a scalar challenge: its two limbs written as
/// atoms read, raw `(l1 l2)` or scalar `((inner (l1 l2)))`, as the bin_prot
/// challenge does.
pub proof fn lemma_challenge_readings_agree(atoms: Seq<SexpView>, c: ScalarChallenge, k: FieldKind)
    requires
        atoms.len() == 2,
        forall|i: int| 0 <= i < 2 ==> limb_spec(#[trigger] atoms[i]) == Some(c.inner[i]),
    ensures
        challenge_spec(SexpView::List(atoms), k) == Some(limbs_field(c.inner@)),
        challenge_spec(
            SexpView::List(seq![SexpView::List(seq![SexpView::Atom("inner"@), SexpView::List(atoms)])]),
            k,
        ) == Some(limbs_field(c.inner@)),
{
    assert forall|i: int| 0 <= i < atoms.len() implies limb_spec(#[trigger] atoms[i]) == Some(c.inner@[i]) by {
        assert(limb_spec(atoms[i]) == Some(c.inner[i]));
    }
    lemma_two_limbs_canonical(c.inner@, k);
    lemma_limb_readings_agree(atoms, c.inner@, k);
    assert(limb_spec(atoms[0]) == Some(c.inner[0]));
    assert(atoms[0] is Atom);
}

/// The two readings agree on how many proofs a proof verifies: the tag
/// `N0`, `N1` or `N2` gives the bin_prot value's mask.
pub proof fn lemma_mask_readings_agree()
    ensures
        mask_spec(SexpView::Atom("N0"@)) == Some(mask_of(ProofsVerified::N0)),
        mask_spec(SexpView::Atom("N1"@)) == Some(mask_of(ProofsVerified::N1)),
        mask_spec(SexpView::Atom("N2"@)) == Some(mask_of(ProofsVerified::N2)),
{
    reveal_strlit("N0");
    reveal_strlit("N1");
    reveal_strlit("N2");
    assert("N1"@[1] != "N0"@[1]);
    assert("N2"@[1] != "N0"@[1]);
    assert("N2"@[1] != "N1"@[1]);
}


/// The previous evaluations are read in place: `ft_eval1` and the public
/// input as they are, and chunk `j` of each side of each column and
/// selector from chunk `j` of the same side of the same column, the first
/// of each pair at `zeta` and the second at `zeta * omega`; the six
/// selectors in the order generic, poseidon, complete_add, mul, emul,
/// endomul_scalar.
pub proof fn lemma_prev_evals_in_place(pe: PrevEvals)
    ensures
        chunked_all_evals_of(pe).ft_eval1 == pe.ft_eval1@,
        chunked_all_evals_of(pe).public_evals.zeta == seq![pe.evals.public_input.0@],
        chunked_all_evals_of(pe).public_evals.zeta_omega == seq![pe.evals.public_input.1@],
        chunked_all_evals_of(pe).w.len() == 15,
        chunked_all_evals_of(pe).coefficients.len() == 15,
        chunked_all_evals_of(pe).s.len() == 6,
        chunked_all_evals_of(pe).index.len() == 6,
        forall|i: int, j: int|
            0 <= i < 15 && 0 <= j < pe.evals.evals.w[i].0@.len() ==> (#[trigger] chunked_all_evals_of(pe).w[i].zeta[j])
                == pe.evals.evals.w[i].0@[j]@,
        forall|i: int, j: int|
            0 <= i < 15 && 0 <= j < pe.evals.evals.w[i].1@.len() ==> (#[trigger] chunked_all_evals_of(
                pe,
            ).w[i].zeta_omega[j]) == pe.evals.evals.w[i].1@[j]@,
        forall|i: int| 0 <= i < 15 ==> (#[trigger] chunked_all_evals_of(pe).w[i]).zeta.len() == pe.evals.evals.w[i].0@.len()
            && chunked_all_evals_of(pe).w[i].zeta_omega.len() == pe.evals.evals.w[i].1@.len(),
        forall|i: int, j: int|
            0 <= i < 15 && 0 <= j < pe.evals.evals.coefficients[i].0@.len() ==> (#[trigger] chunked_all_evals_of(
                pe,
            ).coefficients[i].zeta[j]) == pe.evals.evals.coefficients[i].0@[j]@,
        forall|i: int, j: int|
            0 <= i < 15 && 0 <= j < pe.evals.evals.coefficients[i].1@.len() ==> (#[trigger] chunked_all_evals_of(
                pe,
            ).coefficients[i].zeta_omega[j]) == pe.evals.evals.coefficients[i].1@[j]@,
        forall|i: int, j: int|
            0 <= i < 6 && 0 <= j < pe.evals.evals.s[i].0@.len() ==> (#[trigger] chunked_all_evals_of(pe).s[i].zeta[j])
                == pe.evals.evals.s[i].0@[j]@,
        forall|i: int, j: int|
            0 <= i < 6 && 0 <= j < pe.evals.evals.s[i].1@.len() ==> (#[trigger] chunked_all_evals_of(
                pe,
            ).s[i].zeta_omega[j]) == pe.evals.evals.s[i].1@[j]@,
        forall|j: int|
            0 <= j < pe.evals.evals.z.0@.len() ==> (#[trigger] chunked_all_evals_of(pe).z.zeta[j])
                == pe.evals.evals.z.0@[j]@,
        forall|j: int|
            0 <= j < pe.evals.evals.z.1@.len() ==> (#[trigger] chunked_all_evals_of(pe).z.zeta_omega[j])
                == pe.evals.evals.z.1@[j]@,
        forall|j: int|
            0 <= j < pe.evals.evals.mul_selector.0@.len() ==> (#[trigger] chunked_all_evals_of(pe).index[3].zeta[j])
                == pe.evals.evals.mul_selector.0@[j]@,
        forall|j: int|
            0 <= j < pe.evals.evals.mul_selector.1@.len() ==> (#[trigger] chunked_all_evals_of(pe).index[3].zeta_omega[j])
                == pe.evals.evals.mul_selector.1@[j]@,
        chunked_all_evals_of(pe).index[0].zeta.len() == pe.evals.evals.generic_selector.0@.len(),
        forall|j: int|
            0 <= j < pe.evals.evals.generic_selector.0@.len() ==> (#[trigger] chunked_all_evals_of(pe).index[0].zeta[j])
                == pe.evals.evals.generic_selector.0@[j]@,
        forall|j: int|
            0 <= j < pe.evals.evals.generic_selector.1@.len() ==> (#[trigger] chunked_all_evals_of(
                pe,
            ).index[0].zeta_omega[j]) == pe.evals.evals.generic_selector.1@[j]@,
        forall|j: int|
            0 <= j < pe.evals.evals.poseidon_selector.0@.len() ==> (#[trigger] chunked_all_evals_of(pe).index[1].zeta[j])
                == pe.evals.evals.poseidon_selector.0@[j]@,
        forall|j: int|
            0 <= j < pe.evals.evals.poseidon_selector.1@.len() ==> (#[trigger] chunked_all_evals_of(
                pe,
            ).index[1].zeta_omega[j]) == pe.evals.evals.poseidon_selector.1@[j]@,
        forall|j: int|
            0 <= j < pe.evals.evals.complete_add_selector.0@.len() ==> (#[trigger] chunked_all_evals_of(
                pe,
            ).index[2].zeta[j]) == pe.evals.evals.complete_add_selector.0@[j]@,
        forall|j: int|
            0 <= j < pe.evals.evals.complete_add_selector.1@.len() ==> (#[trigger] chunked_all_evals_of(
                pe,
            ).index[2].zeta_omega[j]) == pe.evals.evals.complete_add_selector.1@[j]@,
        forall|j: int|
            0 <= j < pe.evals.evals.emul_selector.0@.len() ==> (#[trigger] chunked_all_evals_of(pe).index[4].zeta[j])
                == pe.evals.evals.emul_selector.0@[j]@,
        forall|j: int|
            0 <= j < pe.evals.evals.emul_selector.1@.len() ==> (#[trigger] chunked_all_evals_of(pe).index[4].zeta_omega[j])
                == pe.evals.evals.emul_selector.1@[j]@,
        forall|j: int|
            0 <= j < pe.evals.evals.endomul_scalar_selector.0@.len() ==> (#[trigger] chunked_all_evals_of(
                pe,
            ).index[5].zeta[j]) == pe.evals.evals.endomul_scalar_selector.0@[j]@,
        forall|j: int|
            0 <= j < pe.evals.evals.endomul_scalar_selector.1@.len() ==> (#[trigger] chunked_all_evals_of(
                pe,
            ).index[5].zeta_omega[j]) == pe.evals.evals.endomul_scalar_selector.1@[j]@,
{
}

/// The proof fields of a record are read in place: each Plonk challenge
/// from its own limbs, bulletproof challenge `j` from prechallenge `j`, the
/// sponge digest from its limbs, the commitment from its coordinates (`x`
/// first), previous step commitment `i` and step challenge row `i` from
/// entry `i` of the messages for the next step proof (so that row `i`
/// belongs with commitment `i`), and previous wrap row `i` from the `i`-th
/// of the last `prev_count` padded wrap rows.
pub proof fn lemma_proof_fields_in_place(p: ProofsVerified2Repr)
    requires
        prev_count(p) <= 2,
    ensures
        ocaml_proof_of(p).raw_plonk.alpha == limbs_field(p.statement.proof_state.deferred_values.plonk.alpha.inner@),
        ocaml_proof_of(p).raw_plonk.beta == limbs_field(p.statement.proof_state.deferred_values.plonk.beta@),
        ocaml_proof_of(p).raw_plonk.gamma == limbs_field(p.statement.proof_state.deferred_values.plonk.gamma@),
        ocaml_proof_of(p).raw_plonk.zeta == limbs_field(p.statement.proof_state.deferred_values.plonk.zeta.inner@),
        ocaml_proof_of(p).raw_bulletproof_challenges.len() == 16,
        forall|j: int|
            0 <= j < 16 ==> (#[trigger] ocaml_proof_of(p).raw_bulletproof_challenges[j]) == limbs_field(
                p.statement.proof_state.deferred_values.bulletproof_challenges[j].prechallenge.inner@,
            ),
        ocaml_proof_of(p).sponge_digest_before_evaluations == limbs_field(
            p.statement.proof_state.sponge_digest_before_evaluations@,
        ),
        ocaml_proof_of(p).challenge_polynomial_commitment == (AffinePointView {
            x: p.statement.proof_state.messages_for_next_wrap_proof.challenge_polynomial_commitment.0@,
            y: p.statement.proof_state.messages_for_next_wrap_proof.challenge_polynomial_commitment.1@,
        }),
        ocaml_proof_of(p).step_domain_log2 == p.statement.proof_state.deferred_values.branch_data.domain_log2,
        ocaml_proof_of(p).branch_data.domain_log2 == small_field(
            p.statement.proof_state.deferred_values.branch_data.domain_log2,
        ),
        ocaml_proof_of(p).branch_data.proofs_verified_mask == match p.statement.proof_state.deferred_values.branch_data.proofs_verified {
            ProofsVerified::N0 => [false, false],
            ProofsVerified::N1 => [false, true],
            ProofsVerified::N2 => [true, true],
        },
        ocaml_proof_of(p).prev_step_sgs.len() == prev_count(p),
        forall|i: int|
            0 <= i < prev_count(p) ==> (#[trigger] ocaml_proof_of(p).prev_step_sgs[i]) == (AffinePointView {
                x: p.statement.messages_for_next_step_proof.challenge_polynomial_commitments@[i].0@,
                y: p.statement.messages_for_next_step_proof.challenge_polynomial_commitments@[i].1@,
            }),
        ocaml_proof_of(p).prev_step_chals_raw.len() == p.statement.messages_for_next_step_proof.old_bulletproof_challenges@.len(),
        forall|i: int|
            0 <= i < p.statement.messages_for_next_step_proof.old_bulletproof_challenges@.len() ==> (
            #[trigger] ocaml_proof_of(p).prev_step_chals_raw[i]).len() == 16,
        forall|i: int, j: int|
            0 <= i < p.statement.messages_for_next_step_proof.old_bulletproof_challenges@.len() && 0 <= j < 16
                ==> (#[trigger] ocaml_proof_of(p).prev_step_chals_raw[i][j]) == limbs_field(
                p.statement.messages_for_next_step_proof.old_bulletproof_challenges@[i][j].prechallenge.inner@,
            ),
        ocaml_proof_of(p).prev_wrap_chals_raw.len() == prev_count(p),
        forall|i: int, j: int|
            0 <= i < prev_count(p) && 0 <= j < 15 ==> (#[trigger] ocaml_proof_of(p).prev_wrap_chals_raw[i][j])
                == limbs_field(
                p.statement.proof_state.messages_for_next_wrap_proof.old_bulletproof_challenges[2 - prev_count(p)
                    + i][j].prechallenge.inner@,
            ),
        ocaml_proof_of(p).prev_evals == chunked_all_evals_of(p.prev_evals),
        ocaml_proof_of(p).p_eval0_chunks == seq![p.prev_evals.evals.public_input.0@],
{
    let m = prev_count(p) as int;
    let rows = p.statement.proof_state.messages_for_next_wrap_proof.old_bulletproof_challenges@;
    assert forall|i: int, j: int| 0 <= i < m && 0 <= j < 15 implies (#[trigger] ocaml_proof_of(
        p,
    ).prev_wrap_chals_raw[i][j]) == limbs_field(rows[2 - m + i][j].prechallenge.inner@) by {
        assert(rows.skip(2 - m)[i] == rows[2 - m + i]);
    }
}

/// The wrap proof of a record is read in place: every commitment and
/// opening point from its coordinates (`x` first), each `(L, R)` round in
/// its order, `z_1` and `z_2` as they are, and every evaluation pair
/// `(a, b)` of a column or selector as `a` at `zeta` and `b` at
/// `zeta * omega`, one chunk each; the six selectors in the order generic,
/// poseidon, complete_add, mul, emul, endomul_scalar.
pub proof fn lemma_wrap_proof_in_place(p: ProofsVerified2Repr)
    ensures
        wrap_proof_of(p).commitments.w_comm.len() == 15,
        forall|i: int|
            0 <= i < 15 ==> (#[trigger] wrap_proof_of(p).commitments.w_comm[i]) == (AffinePointView {
                x: p.proof.commitments.w_comm[i].0@,
                y: p.proof.commitments.w_comm[i].1@,
            }),
        wrap_proof_of(p).commitments.z_comm == (AffinePointView {
            x: p.proof.commitments.z_comm.0@,
            y: p.proof.commitments.z_comm.1@,
        }),
        wrap_proof_of(p).commitments.t_comm.len() == 7,
        forall|i: int|
            0 <= i < 7 ==> (#[trigger] wrap_proof_of(p).commitments.t_comm[i]) == (AffinePointView {
                x: p.proof.commitments.t_comm[i].0@,
                y: p.proof.commitments.t_comm[i].1@,
            }),
        wrap_proof_of(p).proof.lr.len() == p.proof.bulletproof.lr@.len(),
        forall|i: int|
            0 <= i < p.proof.bulletproof.lr@.len() ==> (#[trigger] wrap_proof_of(p).proof.lr[i]) == (
                AffinePointView { x: p.proof.bulletproof.lr@[i].0.0@, y: p.proof.bulletproof.lr@[i].0.1@ },
                AffinePointView { x: p.proof.bulletproof.lr@[i].1.0@, y: p.proof.bulletproof.lr@[i].1.1@ },
            ),
        wrap_proof_of(p).proof.delta == (AffinePointView {
            x: p.proof.bulletproof.delta.0@,
            y: p.proof.bulletproof.delta.1@,
        }),
        wrap_proof_of(p).proof.z1 == p.proof.bulletproof.z_1@,
        wrap_proof_of(p).proof.z2 == p.proof.bulletproof.z_2@,
        wrap_proof_of(p).proof.sg == (AffinePointView {
            x: p.proof.bulletproof.challenge_polynomial_commitment.0@,
            y: p.proof.bulletproof.challenge_polynomial_commitment.1@,
        }),
        wrap_proof_of(p).ft_eval1 == p.proof.ft_eval1@,
        wrap_proof_of(p).evals.w.len() == 15,
        forall|i: int|
            0 <= i < 15 ==> (#[trigger] wrap_proof_of(p).evals.w[i]).zeta == seq![p.proof.evaluations.w[i].0@]
                && wrap_proof_of(p).evals.w[i].zeta_omega == seq![p.proof.evaluations.w[i].1@],
        wrap_proof_of(p).evals.coefficients.len() == 15,
        forall|i: int|
            0 <= i < 15 ==> (#[trigger] wrap_proof_of(p).evals.coefficients[i]).zeta == seq![
                p.proof.evaluations.coefficients[i].0@,
            ] && wrap_proof_of(p).evals.coefficients[i].zeta_omega == seq![p.proof.evaluations.coefficients[i].1@],
        wrap_proof_of(p).evals.s.len() == 6,
        forall|i: int|
            0 <= i < 6 ==> (#[trigger] wrap_proof_of(p).evals.s[i]).zeta == seq![p.proof.evaluations.s[i].0@]
                && wrap_proof_of(p).evals.s[i].zeta_omega == seq![p.proof.evaluations.s[i].1@],
        wrap_proof_of(p).evals.z.zeta == seq![p.proof.evaluations.z.0@],
        wrap_proof_of(p).evals.z.zeta_omega == seq![p.proof.evaluations.z.1@],
        wrap_proof_of(p).evals.selectors.len() == 6,
        wrap_proof_of(p).evals.selectors[0].zeta == seq![p.proof.evaluations.generic_selector.0@],
        wrap_proof_of(p).evals.selectors[0].zeta_omega == seq![p.proof.evaluations.generic_selector.1@],
        wrap_proof_of(p).evals.selectors[1].zeta == seq![p.proof.evaluations.poseidon_selector.0@],
        wrap_proof_of(p).evals.selectors[1].zeta_omega == seq![p.proof.evaluations.poseidon_selector.1@],
        wrap_proof_of(p).evals.selectors[2].zeta == seq![p.proof.evaluations.complete_add_selector.0@],
        wrap_proof_of(p).evals.selectors[2].zeta_omega == seq![p.proof.evaluations.complete_add_selector.1@],
        wrap_proof_of(p).evals.selectors[3].zeta == seq![p.proof.evaluations.mul_selector.0@],
        wrap_proof_of(p).evals.selectors[3].zeta_omega == seq![p.proof.evaluations.mul_selector.1@],
        wrap_proof_of(p).evals.selectors[4].zeta == seq![p.proof.evaluations.emul_selector.0@],
        wrap_proof_of(p).evals.selectors[4].zeta_omega == seq![p.proof.evaluations.emul_selector.1@],
        wrap_proof_of(p).evals.selectors[5].zeta == seq![p.proof.evaluations.endomul_scalar_selector.0@],
        wrap_proof_of(p).evals.selectors[5].zeta_omega == seq![p.proof.evaluations.endomul_scalar_selector.1@],
{
}


proof fn lemma_limbs_bytes_index(l: Seq<u64>)
    ensures
        limbs_bytes(l).len() == 8 * l.len(),
        forall|i: int, k: int|
            0 <= i < l.len() && 0 <= k < 8 ==> limbs_bytes(l)[8 * i + k] == #[trigger] u64_le(l[i])[k],
    decreases l.len(),
{
    if l.len() > 0 {
        let prev = l.drop_last();
        lemma_limbs_bytes_index(prev);
        lemma_u64_le_roundtrip(l.last());
        assert forall|i: int, k: int| 0 <= i < l.len() && 0 <= k < 8 implies limbs_bytes(l)[8 * i + k]
            == #[trigger] u64_le(l[i])[k] by {
            if i < l.len() - 1 {
                assert(prev[i] == l[i]);
                assert(limbs_bytes(prev)[8 * i + k] == u64_le(prev[i])[k]);
            }
        }
    }
}

/// Limbs are little-endian: byte `k` of limb `i` is byte `8 i + k` of the
/// field element, and the bytes past the limbs are zero.
pub proof fn lemma_limbs_field_little_endian(l: Seq<u64>)
    requires
        l.len() <= 4,
    ensures
        limbs_field(l).len() == 32,
        forall|i: int, k: int|
            0 <= i < l.len() && 0 <= k < 8 ==> limbs_field(l)[8 * i + k] == #[trigger] u64_le(l[i])[k],
        forall|j: int| 8 * l.len() <= j < 32 ==> #[trigger] limbs_field(l)[j] == 0u8,
{
    lemma_limbs_bytes_index(l);
    let b = limbs_bytes(l);
    assert forall|i: int, k: int| 0 <= i < l.len() && 0 <= k < 8 implies limbs_field(l)[8 * i + k]
        == #[trigger] u64_le(l[i])[k] by {
        assert(b[8 * i + k] == u64_le(l[i])[k]);
    }
}

} // verus!
