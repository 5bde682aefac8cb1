//! The values the verifier reads for one proof, as decoded from the wire.
//!
//! Field/curve mapping:
//!   * `StepField` = Tick = `Fp` (Vesta scalar / Pallas base)
//!   * `WrapField` = Tock = `Fq` (Pallas scalar / Vesta base)
//!
//! A field element is held as its 32 little-endian bytes exactly as the wire
//! gives them ([`FieldBytes`]); an affine point as its two coordinates.
//! Turning them into curve-library elements (which checks each against the
//! field modulus) happens where the proof system's types are at hand.
use vstd::prelude::*;

verus! {

/// A field element as its 32 little-endian bytes.
pub type FieldBytes = Vec<u8>;

/// Number of step IPA rounds (`StepIPARounds` = step SRS log2 = 16).
pub const STEP_IPA_ROUNDS: usize = 16;

/// Number of wrap IPA rounds (`WrapIPARounds` = 15).
pub const WRAP_IPA_ROUNDS: usize = 15;

/// The values of field elements, one by one.
pub open spec fn fields_view(v: Seq<FieldBytes>) -> Seq<Seq<u8>> {
    v.map_values(|f: FieldBytes| f@)
}

/// An affine point `(x, y)`, not checked to lie on the curve.
pub struct AffinePoint {
    pub x: FieldBytes,
    pub y: FieldBytes,
}

pub struct AffinePointView {
    pub x: Seq<u8>,
    pub y: Seq<u8>,
}

impl View for AffinePoint {
    type V = AffinePointView;

    open spec fn view(&self) -> AffinePointView {
        AffinePointView { x: self.x@, y: self.y@ }
    }
}

pub open spec fn points_view(v: Seq<AffinePoint>) -> Seq<AffinePointView> {
    v.map_values(|p: AffinePoint| p@)
}

/// Evaluations of one polynomial at `zeta` and `zeta * omega`, one per chunk.
pub struct PointEvaluations {
    pub zeta: Vec<FieldBytes>,
    pub zeta_omega: Vec<FieldBytes>,
}

pub struct PointEvaluationsView {
    pub zeta: Seq<Seq<u8>>,
    pub zeta_omega: Seq<Seq<u8>>,
}

impl View for PointEvaluations {
    type V = PointEvaluationsView;

    open spec fn view(&self) -> PointEvaluationsView {
        PointEvaluationsView { zeta: fields_view(self.zeta@), zeta_omega: fields_view(self.zeta_omega@) }
    }
}

pub open spec fn evals_view(v: Seq<PointEvaluations>) -> Seq<PointEvaluationsView> {
    v.map_values(|e: PointEvaluations| e@)
}

/// Minimal Plonk deferred values: the raw 128-bit (pre-endo) challenges.
pub struct PlonkMinimal {
    pub alpha: FieldBytes,
    pub beta: FieldBytes,
    pub gamma: FieldBytes,
    pub zeta: FieldBytes,
}

pub struct PlonkMinimalView {
    pub alpha: Seq<u8>,
    pub beta: Seq<u8>,
    pub gamma: Seq<u8>,
    pub zeta: Seq<u8>,
}

impl View for PlonkMinimal {
    type V = PlonkMinimalView;

    open spec fn view(&self) -> PlonkMinimalView {
        PlonkMinimalView { alpha: self.alpha@, beta: self.beta@, gamma: self.gamma@, zeta: self.zeta@ }
    }
}

/// `branch_data`: the proofs-verified prefix mask (N0 = [F,F], N1 = [F,T],
/// N2 = [T,T]) and the step domain log2.
pub struct BranchData {
    pub domain_log2: FieldBytes,
    pub proofs_verified_mask: [bool; 2],
}

pub struct BranchDataView {
    pub domain_log2: Seq<u8>,
    pub proofs_verified_mask: [bool; 2],
}

impl View for BranchData {
    type V = BranchDataView;

    open spec fn view(&self) -> BranchDataView {
        BranchDataView { domain_log2: self.domain_log2@, proofs_verified_mask: self.proofs_verified_mask }
    }
}

/// `prev_evals`: the previous (step) proof's evaluations, chunked.
pub struct ChunkedAllEvals {
    pub ft_eval1: FieldBytes,
    /// public-input poly eval: a single chunk.
    pub public_evals: PointEvaluations,
    pub z: PointEvaluations,
    /// 15 columns.
    pub w: Vec<PointEvaluations>,
    /// 15 columns.
    pub coefficients: Vec<PointEvaluations>,
    /// 6 columns.
    pub s: Vec<PointEvaluations>,
    /// index selectors: generic, poseidon, complete_add, mul, emul, endomul_scalar.
    pub index: Vec<PointEvaluations>,
}

pub struct ChunkedAllEvalsView {
    pub ft_eval1: Seq<u8>,
    pub public_evals: PointEvaluationsView,
    pub z: PointEvaluationsView,
    pub w: Seq<PointEvaluationsView>,
    pub coefficients: Seq<PointEvaluationsView>,
    pub s: Seq<PointEvaluationsView>,
    pub index: Seq<PointEvaluationsView>,
}

impl View for ChunkedAllEvals {
    type V = ChunkedAllEvalsView;

    open spec fn view(&self) -> ChunkedAllEvalsView {
        ChunkedAllEvalsView {
            ft_eval1: self.ft_eval1@,
            public_evals: self.public_evals@,
            z: self.z@,
            w: evals_view(self.w@),
            coefficients: evals_view(self.coefficients@),
            s: evals_view(self.s@),
            index: evals_view(self.index@),
        }
    }
}


/// Rows of field elements, one row per previous proof.
pub open spec fn rows_view(v: Seq<Vec<FieldBytes>>) -> Seq<Seq<Seq<u8>>> {
    v.map_values(|r: Vec<FieldBytes>| fields_view(r@))
}

/// The statement and previous evaluations of a wrap proof, as the verifier
/// reads them: the fields carried on the wire, before the previous-proof
/// challenges are expanded and the message digests recomputed.
pub struct OcamlProof {
    pub raw_plonk: PlonkMinimal,
    /// the proof's own 16-round raw (pre-endo) bp challenges.
    pub raw_bulletproof_challenges: Vec<FieldBytes>,
    pub branch_data: BranchData,
    pub sponge_digest_before_evaluations: FieldBytes,
    /// the proof's own wrap challenge-polynomial commitment (`Vesta`).
    pub challenge_polynomial_commitment: AffinePoint,
    pub step_domain_log2: u8,
    pub prev_evals: ChunkedAllEvals,
    pub p_eval0_chunks: Vec<FieldBytes>,
    /// previous step proofs' challenge-polynomial commitments (`Pallas`).
    pub prev_step_sgs: Vec<AffinePoint>,
    /// previous step proofs' raw bp challenges, 16 per proof.
    pub prev_step_chals_raw: Vec<Vec<FieldBytes>>,
    /// previous wrap proofs' raw bp challenges, 15 per proof.
    pub prev_wrap_chals_raw: Vec<Vec<FieldBytes>>,
}

pub struct OcamlProofView {
    pub raw_plonk: PlonkMinimalView,
    pub raw_bulletproof_challenges: Seq<Seq<u8>>,
    pub branch_data: BranchDataView,
    pub sponge_digest_before_evaluations: Seq<u8>,
    pub challenge_polynomial_commitment: AffinePointView,
    pub step_domain_log2: u8,
    pub prev_evals: ChunkedAllEvalsView,
    pub p_eval0_chunks: Seq<Seq<u8>>,
    pub prev_step_sgs: Seq<AffinePointView>,
    pub prev_step_chals_raw: Seq<Seq<Seq<u8>>>,
    pub prev_wrap_chals_raw: Seq<Seq<Seq<u8>>>,
}

impl View for OcamlProof {
    type V = OcamlProofView;

    open spec fn view(&self) -> OcamlProofView {
        OcamlProofView {
            raw_plonk: self.raw_plonk@,
            raw_bulletproof_challenges: fields_view(self.raw_bulletproof_challenges@),
            branch_data: self.branch_data@,
            sponge_digest_before_evaluations: self.sponge_digest_before_evaluations@,
            challenge_polynomial_commitment: self.challenge_polynomial_commitment@,
            step_domain_log2: self.step_domain_log2,
            prev_evals: self.prev_evals@,
            p_eval0_chunks: fields_view(self.p_eval0_chunks@),
            prev_step_sgs: points_view(self.prev_step_sgs@),
            prev_step_chals_raw: rows_view(self.prev_step_chals_raw@),
            prev_wrap_chals_raw: rows_view(self.prev_wrap_chals_raw@),
        }
    }
}

// ---------------------------------------------------------------------------
// The wrap proof
// ---------------------------------------------------------------------------

/// Commitments to the witness, permutation and quotient polynomials; each
/// commitment of the wrap proof is a single chunk, but for the quotient's.
pub struct ProverCommitments {
    /// 15 columns.
    pub w_comm: Vec<AffinePoint>,
    pub z_comm: AffinePoint,
    pub t_comm: Vec<AffinePoint>,
}

pub struct ProverCommitmentsView {
    pub w_comm: Seq<AffinePointView>,
    pub z_comm: AffinePointView,
    pub t_comm: Seq<AffinePointView>,
}

impl View for ProverCommitments {
    type V = ProverCommitmentsView;

    open spec fn view(&self) -> ProverCommitmentsView {
        ProverCommitmentsView {
            w_comm: points_view(self.w_comm@),
            z_comm: self.z_comm@,
            t_comm: points_view(self.t_comm@),
        }
    }
}

pub open spec fn pairs_view(v: Seq<(AffinePoint, AffinePoint)>) -> Seq<(AffinePointView, AffinePointView)> {
    v.map_values(|p: (AffinePoint, AffinePoint)| (p.0@, p.1@))
}

/// The IPA opening proof.
pub struct OpeningProof {
    pub lr: Vec<(AffinePoint, AffinePoint)>,
    pub delta: AffinePoint,
    pub z1: FieldBytes,
    pub z2: FieldBytes,
    pub sg: AffinePoint,
}

pub struct OpeningProofView {
    pub lr: Seq<(AffinePointView, AffinePointView)>,
    pub delta: AffinePointView,
    pub z1: Seq<u8>,
    pub z2: Seq<u8>,
    pub sg: AffinePointView,
}

impl View for OpeningProof {
    type V = OpeningProofView;

    open spec fn view(&self) -> OpeningProofView {
        OpeningProofView {
            lr: pairs_view(self.lr@),
            delta: self.delta@,
            z1: self.z1@,
            z2: self.z2@,
            sg: self.sg@,
        }
    }
}

/// The wrap proof's evaluations (one chunk each).
pub struct ProofEvaluations {
    /// 15 columns.
    pub w: Vec<PointEvaluations>,
    pub z: PointEvaluations,
    /// 6 columns.
    pub s: Vec<PointEvaluations>,
    /// 15 columns.
    pub coefficients: Vec<PointEvaluations>,
    pub generic_selector: PointEvaluations,
    pub poseidon_selector: PointEvaluations,
    pub complete_add_selector: PointEvaluations,
    pub mul_selector: PointEvaluations,
    pub emul_selector: PointEvaluations,
    pub endomul_scalar_selector: PointEvaluations,
}

pub struct ProofEvaluationsView {
    pub w: Seq<PointEvaluationsView>,
    pub z: PointEvaluationsView,
    pub s: Seq<PointEvaluationsView>,
    pub coefficients: Seq<PointEvaluationsView>,
    pub selectors: Seq<PointEvaluationsView>,
}

impl View for ProofEvaluations {
    type V = ProofEvaluationsView;

    /// The six selectors are viewed in the order generic, poseidon,
    /// complete_add, mul, emul, endomul_scalar.
    open spec fn view(&self) -> ProofEvaluationsView {
        ProofEvaluationsView {
            w: evals_view(self.w@),
            z: self.z@,
            s: evals_view(self.s@),
            coefficients: evals_view(self.coefficients@),
            selectors: seq![
                self.generic_selector@,
                self.poseidon_selector@,
                self.complete_add_selector@,
                self.mul_selector@,
                self.emul_selector@,
                self.endomul_scalar_selector@,
            ],
        }
    }
}

/// One previous proof's accumulator: its challenge-polynomial commitment and
/// its bulletproof challenges. `None` stands for the protocol's dummy entry
/// (`Dummy.Ipa.Wrap.sg` and the dummy wrap challenges) that pads the list to
/// two; given challenges are the raw prechallenges, before the scalar
/// endomorphism expansion.
pub struct RecursionChallenge {
    pub comm: Option<AffinePoint>,
    pub chals: Option<Vec<FieldBytes>>,
}

pub struct RecursionChallengeView {
    pub comm: Option<AffinePointView>,
    pub chals: Option<Seq<Seq<u8>>>,
}

impl View for RecursionChallenge {
    type V = RecursionChallengeView;

    open spec fn view(&self) -> RecursionChallengeView {
        RecursionChallengeView {
            comm: match self.comm {
                Some(p) => Some(p@),
                None => None,
            },
            chals: match self.chals {
                Some(c) => Some(fields_view(c@)),
                None => None,
            },
        }
    }
}

pub open spec fn challenges_view(v: Seq<RecursionChallenge>) -> Seq<RecursionChallengeView> {
    v.map_values(|c: RecursionChallenge| c@)
}

/// The wrap kimchi proof (over `Pallas`).
pub struct WrapProof {
    pub commitments: ProverCommitments,
    pub proof: OpeningProof,
    pub evals: ProofEvaluations,
    pub ft_eval1: FieldBytes,
    pub prev_challenges: Vec<RecursionChallenge>,
}

pub struct WrapProofView {
    pub commitments: ProverCommitmentsView,
    pub proof: OpeningProofView,
    pub evals: ProofEvaluationsView,
    pub ft_eval1: Seq<u8>,
    pub prev_challenges: Seq<RecursionChallengeView>,
}

impl View for WrapProof {
    type V = WrapProofView;

    open spec fn view(&self) -> WrapProofView {
        WrapProofView {
            commitments: self.commitments@,
            proof: self.proof@,
            evals: self.evals@,
            ft_eval1: self.ft_eval1@,
            prev_challenges: challenges_view(self.prev_challenges@),
        }
    }
}

} // verus!
