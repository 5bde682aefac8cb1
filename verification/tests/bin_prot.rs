use pickles_verifier::ingest::bin_prot::{
    dummy_wrap_sg_compressed, DUMMY_WRAP_SG_COMPRESSED_HEX,
    ocaml_proof_from_bin_prot, to_chunked_all_evals, to_wrap_proof, BulletproofChallenge, ConvertError,
    DeferredValues, MessagesForNextStepProof, MessagesForNextWrapProof, PlonkChallenges, PrevEvals,
    PrevEvalsColumns, PrevEvalsWithPublic, ProofState, ProofsVerified, ProofsVerified2Repr,
    ScalarChallenge, Statement, WireBranchData, WireBulletproof, WireCommitments, WireEvaluations,
    WireProof,
};

use pickles_verifier::field::{canonical, FieldKind};
use pickles_verifier::ingest::o1js_sexpr::challenge;
use pickles_verifier::ingest::sexpr::parse;

type Big = [u8; 32];

fn big(b: u8) -> Big {
    let mut a = [0u8; 32];
    a[0] = b;
    a[31] = b & 0x3f;
    a
}

fn pt(b: u8) -> (Big, Big) {
    (big(b), big(b.wrapping_add(1)))
}

fn chal(lo: u64) -> BulletproofChallenge {
    BulletproofChallenge { prechallenge: ScalarChallenge { inner: [lo, 0] } }
}

fn chunked(b: u8) -> (Vec<Big>, Vec<Big>) {
    (vec![big(b)], vec![big(b.wrapping_add(1)), big(b.wrapping_add(2))])
}

fn pair(b: u8) -> (Big, Big) {
    (big(b), big(b.wrapping_add(1)))
}

/// The little-endian field bytes of small limbs `[lo, 0]`.
fn limb_field(lo: u64) -> Vec<u8> {
    let mut v = lo.to_le_bytes().to_vec();
    v.resize(32, 0);
    v
}

fn record(mpv: usize, pv: ProofsVerified) -> ProofsVerified2Repr {
    let deferred_values = DeferredValues {
        plonk: PlonkChallenges {
            alpha: ScalarChallenge { inner: [0x0807060504030201, 0x100f0e0d0c0b0a09] },
            beta: [5, 0],
            gamma: [6, 0],
            zeta: ScalarChallenge { inner: [7, 8] },
        },
        bulletproof_challenges: std::array::from_fn(|i| chal(i as u64 + 1)),
        branch_data: WireBranchData { proofs_verified: pv, domain_log2: 16 },
    };
    let proof_state = ProofState {
        deferred_values,
        sponge_digest_before_evaluations: [1, 2, 3, 4],
        messages_for_next_wrap_proof: MessagesForNextWrapProof {
            challenge_polynomial_commitment: pt(200),
            old_bulletproof_challenges: std::array::from_fn(|r| std::array::from_fn(|i| chal((100 * (r + 1) + i) as u64))),
        },
    };
    let step = MessagesForNextStepProof {
        challenge_polynomial_commitments: (0..mpv).map(|k| pt(50 + k as u8)).collect(),
        old_bulletproof_challenges: (0..mpv)
            .map(|k| std::array::from_fn(|i| chal((1000 * (k + 1) + i) as u64)))
            .collect(),
    };
    let prev_evals = PrevEvals {
        evals: PrevEvalsWithPublic {
            public_input: pair(60),
            evals: PrevEvalsColumns {
                w: std::array::from_fn(|i| chunked(i as u8)),
                coefficients: std::array::from_fn(|i| chunked(20 + i as u8)),
                z: chunked(40),
                s: std::array::from_fn(|i| chunked(42 + i as u8)),
                generic_selector: chunked(70),
                poseidon_selector: chunked(71),
                complete_add_selector: chunked(72),
                mul_selector: chunked(73),
                emul_selector: chunked(74),
                endomul_scalar_selector: chunked(75),
            },
        },
        ft_eval1: big(99),
    };
    let proof = WireProof {
        commitments: WireCommitments {
            w_comm: std::array::from_fn(|i| pt(i as u8)),
            z_comm: pt(30),
            t_comm: std::array::from_fn(|i| pt(32 + i as u8)),
        },
        evaluations: WireEvaluations {
            w: std::array::from_fn(|i| pair(100 + i as u8)),
            coefficients: std::array::from_fn(|i| pair(120 + i as u8)),
            z: pair(140),
            s: std::array::from_fn(|i| pair(142 + i as u8)),
            generic_selector: pair(150),
            poseidon_selector: pair(151),
            complete_add_selector: pair(152),
            mul_selector: pair(153),
            emul_selector: pair(154),
            endomul_scalar_selector: pair(155),
        },
        ft_eval1: big(160),
        bulletproof: WireBulletproof {
            lr: (0..15).map(|i| (pt(170 + i), pt(190 + i))).collect(),
            z_1: big(210),
            z_2: big(211),
            delta: pt(212),
            challenge_polynomial_commitment: pt(214),
        },
    };
    ProofsVerified2Repr {
        statement: Statement { proof_state, messages_for_next_step_proof: step },
        prev_evals,
        proof,
    }
}

#[test]
fn plonk_challenges_read_as_little_endian_limbs() {
    let o = ocaml_proof_from_bin_prot(&record(1, ProofsVerified::N1)).unwrap();
    let mut alpha: Vec<u8> = (1..=16).collect();
    alpha.resize(32, 0);
    assert_eq!(o.raw_plonk.alpha, alpha);
    assert_eq!(o.raw_plonk.beta, limb_field(5));
    assert_eq!(o.raw_plonk.gamma, limb_field(6));
    let mut zeta = 7u64.to_le_bytes().to_vec();
    zeta.extend_from_slice(&8u64.to_le_bytes());
    zeta.resize(32, 0);
    assert_eq!(o.raw_plonk.zeta, zeta);
}

#[test]
fn statement_fields_are_copied() {
    let o = ocaml_proof_from_bin_prot(&record(1, ProofsVerified::N1)).unwrap();
    assert_eq!(o.raw_bulletproof_challenges.len(), 16);
    assert_eq!(o.raw_bulletproof_challenges[3], limb_field(4));
    let mut digest = Vec::new();
    for l in [1u64, 2, 3, 4] {
        digest.extend_from_slice(&l.to_le_bytes());
    }
    assert_eq!(o.sponge_digest_before_evaluations, digest);
    assert_eq!(o.step_domain_log2, 16);
    assert_eq!(o.branch_data.domain_log2, limb_field(16));
    assert_eq!(o.branch_data.proofs_verified_mask, [false, true]);
    assert_eq!(o.challenge_polynomial_commitment.x, big(200).to_vec());
    assert_eq!(o.challenge_polynomial_commitment.y, big(201).to_vec());
}

#[test]
fn proofs_verified_masks() {
    let m0 = ocaml_proof_from_bin_prot(&record(0, ProofsVerified::N0)).unwrap();
    let m2 = ocaml_proof_from_bin_prot(&record(2, ProofsVerified::N2)).unwrap();
    assert_eq!(m0.branch_data.proofs_verified_mask, [false, false]);
    assert_eq!(m2.branch_data.proofs_verified_mask, [true, true]);
}

#[test]
fn keeps_the_last_wrap_rows_one_per_previous_proof() {
    let o0 = ocaml_proof_from_bin_prot(&record(0, ProofsVerified::N0)).unwrap();
    assert!(o0.prev_step_sgs.is_empty());
    assert!(o0.prev_wrap_chals_raw.is_empty());

    let o1 = ocaml_proof_from_bin_prot(&record(1, ProofsVerified::N1)).unwrap();
    assert_eq!(o1.prev_step_sgs.len(), 1);
    assert_eq!(o1.prev_step_sgs[0].x, big(50).to_vec());
    assert_eq!(o1.prev_step_chals_raw.len(), 1);
    assert_eq!(o1.prev_step_chals_raw[0][2], limb_field(1002));
    assert_eq!(o1.prev_wrap_chals_raw.len(), 1);
    // the second (last) of the two padded rows
    assert_eq!(o1.prev_wrap_chals_raw[0][0], limb_field(200));
    assert_eq!(o1.prev_wrap_chals_raw[0].len(), 15);

    let o2 = ocaml_proof_from_bin_prot(&record(2, ProofsVerified::N2)).unwrap();
    assert_eq!(o2.prev_wrap_chals_raw.len(), 2);
    assert_eq!(o2.prev_wrap_chals_raw[0][14], limb_field(114));
    assert_eq!(o2.prev_wrap_chals_raw[1][14], limb_field(214));
}

#[test]
fn previous_evaluations_keep_their_chunks() {
    let r = record(1, ProofsVerified::N1);
    let e = to_chunked_all_evals(&r.prev_evals).unwrap();
    assert_eq!(e.ft_eval1, big(99).to_vec());
    assert_eq!(e.public_evals.zeta, vec![big(60).to_vec()]);
    assert_eq!(e.public_evals.zeta_omega, vec![big(61).to_vec()]);
    assert_eq!(e.w.len(), 15);
    assert_eq!(e.w[3].zeta, vec![big(3).to_vec()]);
    assert_eq!(e.w[3].zeta_omega, vec![big(4).to_vec(), big(5).to_vec()]);
    assert_eq!(e.coefficients[14].zeta, vec![big(34).to_vec()]);
    assert_eq!(e.z.zeta, vec![big(40).to_vec()]);
    assert_eq!(e.s.len(), 6);
    assert_eq!(e.s[5].zeta, vec![big(47).to_vec()]);
    // generic, poseidon, complete_add, mul, emul, endomul_scalar
    let firsts: Vec<Vec<u8>> = e.index.iter().map(|p| p.zeta[0].clone()).collect();
    let expected: Vec<Vec<u8>> = (70..76).map(|b| big(b).to_vec()).collect();
    assert_eq!(firsts, expected);

    let o = ocaml_proof_from_bin_prot(&r).unwrap();
    assert_eq!(o.p_eval0_chunks, vec![big(60).to_vec()]);
}

#[test]
fn wrap_proof_commitments_and_opening() {
    let w = to_wrap_proof(&record(1, ProofsVerified::N1)).unwrap();
    assert_eq!(w.commitments.w_comm.len(), 15);
    assert_eq!(w.commitments.w_comm[7].x, big(7).to_vec());
    assert_eq!(w.commitments.z_comm.y, big(31).to_vec());
    assert_eq!(w.commitments.t_comm.len(), 7);
    assert_eq!(w.commitments.t_comm[6].x, big(38).to_vec());
    assert_eq!(w.proof.lr.len(), 15);
    assert_eq!(w.proof.lr[2].0.x, big(172).to_vec());
    assert_eq!(w.proof.lr[2].1.x, big(192).to_vec());
    assert_eq!(w.proof.z1, big(210).to_vec());
    assert_eq!(w.proof.z2, big(211).to_vec());
    assert_eq!(w.proof.delta.x, big(212).to_vec());
    assert_eq!(w.proof.sg.x, big(214).to_vec());
    assert_eq!(w.ft_eval1, big(160).to_vec());
}

#[test]
fn wrap_proof_evaluations_are_single_chunks() {
    let w = to_wrap_proof(&record(1, ProofsVerified::N1)).unwrap();
    assert_eq!(w.evals.w.len(), 15);
    assert_eq!(w.evals.w[1].zeta, vec![big(101).to_vec()]);
    assert_eq!(w.evals.w[1].zeta_omega, vec![big(102).to_vec()]);
    assert_eq!(w.evals.coefficients[0].zeta, vec![big(120).to_vec()]);
    assert_eq!(w.evals.z.zeta, vec![big(140).to_vec()]);
    assert_eq!(w.evals.s.len(), 6);
    assert_eq!(w.evals.generic_selector.zeta, vec![big(150).to_vec()]);
    assert_eq!(w.evals.endomul_scalar_selector.zeta_omega, vec![big(156).to_vec()]);
}

#[test]
fn wrap_accumulators_are_front_padded_to_two() {
    let w0 = to_wrap_proof(&record(0, ProofsVerified::N0)).unwrap();
    assert_eq!(w0.prev_challenges.len(), 2);
    assert!(w0.prev_challenges[0].comm.is_none());
    assert!(w0.prev_challenges[1].comm.is_none());

    let w1 = to_wrap_proof(&record(1, ProofsVerified::N1)).unwrap();
    assert_eq!(w1.prev_challenges.len(), 2);
    assert!(w1.prev_challenges[0].comm.is_none());
    assert_eq!(w1.prev_challenges[1].comm.as_ref().unwrap().x, big(50).to_vec());
    assert_eq!(w1.prev_challenges[0].chals.as_ref().unwrap()[0], limb_field(100));
    assert_eq!(w1.prev_challenges[1].chals.as_ref().unwrap()[0], limb_field(200));

    let w2 = to_wrap_proof(&record(2, ProofsVerified::N2)).unwrap();
    assert_eq!(w2.prev_challenges[0].comm.as_ref().unwrap().x, big(50).to_vec());
    assert_eq!(w2.prev_challenges[1].comm.as_ref().unwrap().x, big(51).to_vec());
}

#[test]
fn accumulators_match_the_statement() {
    let r = record(1, ProofsVerified::N1);
    let o = ocaml_proof_from_bin_prot(&r).unwrap();
    let w = to_wrap_proof(&r).unwrap();
    assert_eq!(w.prev_challenges[1].comm.as_ref().unwrap().x, o.prev_step_sgs[0].x);
    assert_eq!(w.prev_challenges[1].chals.as_ref().unwrap(), &o.prev_wrap_chals_raw[0]);
}

#[test]
fn convert_error_messages() {
    assert_eq!(ConvertError::BinProt("eof".into()).message(), "bin_prot decode: eof");
    assert_eq!(ConvertError::Field("x".into()).message(), "field reconstruction: x");
    assert_eq!(ConvertError::Convert("y".into()).message(), "OcamlProof::into_verifiable: y");
}

#[test]
fn dummy_wrap_sg_decodes_to_a_compressed_point() {
    let b = dummy_wrap_sg_compressed().unwrap();
    assert_eq!(b.len(), 33);
    assert_eq!(b[0], 0x48);
    assert_eq!(b[1], 0xb5);
    assert_eq!(b[32], 0x00);
    assert_eq!(hex::encode(&b), DUMMY_WRAP_SG_COMPRESSED_HEX);
}

#[test]
fn sexp_and_bin_prot_readings_agree_on_challenges() {
    let o = ocaml_proof_from_bin_prot(&record(1, ProofsVerified::N1)).unwrap();
    let sexp = parse("((inner (807060504030201 100f0e0d0c0b0a09)))").unwrap();
    assert_eq!(challenge(&sexp, FieldKind::Step).unwrap(), o.raw_plonk.alpha);
    let raw = parse("(7 8)").unwrap();
    assert_eq!(challenge(&raw, FieldKind::Step).unwrap(), o.raw_plonk.zeta);
}

/// The little-endian bytes of four `u64` limbs.
fn limbs_bytes(l: [u64; 4]) -> [u8; 32] {
    let mut a = [0u8; 32];
    for (i, x) in l.iter().enumerate() {
        a[8 * i..8 * i + 8].copy_from_slice(&x.to_le_bytes());
    }
    a
}

const STEP_MODULUS: [u64; 4] = [0x992d30ed00000001, 0x224698fc094cf91b, 0, 0x4000000000000000];
const WRAP_MODULUS: [u64; 4] = [0x8c46eb2100000001, 0x224698fc0994a8dd, 0, 0x4000000000000000];

#[test]
fn field_elements_are_below_the_modulus() {
    for (m, k) in [(STEP_MODULUS, FieldKind::Step), (WRAP_MODULUS, FieldKind::Wrap)] {
        assert!(!canonical(&limbs_bytes(m), k));
        let mut below = m;
        below[0] -= 1;
        assert!(canonical(&limbs_bytes(below), k));
        assert!(canonical(&[0u8; 32], k));
        assert!(!canonical(&[0xffu8; 32], k));
    }
    // The step modulus lies below the wrap modulus.
    assert!(canonical(&limbs_bytes(STEP_MODULUS), FieldKind::Wrap));
    assert!(!canonical(&limbs_bytes(WRAP_MODULUS), FieldKind::Step));
}

fn bigint_error() -> ConvertError {
    ConvertError::Field("BigInt \u{2192} field: DeserializeBytes".to_string())
}

#[test]
fn wrap_proof_refuses_an_out_of_range_evaluation() {
    let mut r = record(1, ProofsVerified::N1);
    r.proof.ft_eval1 = [0xff; 32];
    assert_eq!(to_wrap_proof(&r).err().unwrap(), bigint_error());
    // The proof fields do not read the wrap proof's own evaluations.
    assert!(ocaml_proof_from_bin_prot(&r).is_ok());
    assert_eq!(
        bigint_error().message(),
        "field reconstruction: BigInt \u{2192} field: DeserializeBytes"
    );
}

#[test]
fn wrap_proof_reads_commitments_in_the_step_field() {
    let mut r = record(1, ProofsVerified::N1);
    // An element of the wrap field that is not one of the step field.
    r.proof.commitments.w_comm[3].1 = limbs_bytes(STEP_MODULUS);
    assert_eq!(to_wrap_proof(&r).err().unwrap(), bigint_error());
    let mut r = record(1, ProofsVerified::N1);
    r.proof.bulletproof.z_1 = limbs_bytes(STEP_MODULUS);
    assert_eq!(to_wrap_proof(&r).unwrap().proof.z1, limbs_bytes(STEP_MODULUS).to_vec());
    r.proof.bulletproof.z_2 = limbs_bytes(WRAP_MODULUS);
    assert_eq!(to_wrap_proof(&r).err().unwrap(), bigint_error());
}

#[test]
fn previous_step_commitments_are_checked_by_both_readings() {
    let mut r = record(2, ProofsVerified::N2);
    r.statement.messages_for_next_step_proof.challenge_polynomial_commitments[1].0 = [0xff; 32];
    assert_eq!(to_wrap_proof(&r).err().unwrap(), bigint_error());
    assert_eq!(ocaml_proof_from_bin_prot(&r).err().unwrap(), bigint_error());
}

#[test]
fn proof_fields_refuse_an_out_of_range_digest_first() {
    let mut r = record(1, ProofsVerified::N1);
    r.statement.proof_state.sponge_digest_before_evaluations = [u64::MAX; 4];
    r.prev_evals.ft_eval1 = [0xff; 32];
    assert_eq!(
        ocaml_proof_from_bin_prot(&r).err().unwrap(),
        ConvertError::Field("limbs \u{2192} field: DeserializeBytes".to_string())
    );
    // The wrap proof does not read the digest.
    r.prev_evals.ft_eval1 = big(99);
    assert!(to_wrap_proof(&r).is_ok());
}

#[test]
fn proof_fields_read_the_commitment_in_the_wrap_field() {
    let mut r = record(1, ProofsVerified::N1);
    r.statement.proof_state.messages_for_next_wrap_proof.challenge_polynomial_commitment.0 = limbs_bytes(STEP_MODULUS);
    let o = ocaml_proof_from_bin_prot(&r).unwrap();
    assert_eq!(o.challenge_polynomial_commitment.x, limbs_bytes(STEP_MODULUS).to_vec());
    r.statement.proof_state.messages_for_next_wrap_proof.challenge_polynomial_commitment.0 = limbs_bytes(WRAP_MODULUS);
    assert_eq!(ocaml_proof_from_bin_prot(&r).err().unwrap(), bigint_error());
}

#[test]
fn previous_evaluations_are_step_field_elements() {
    let mut r = record(1, ProofsVerified::N1);
    r.prev_evals.evals.evals.s[2].1[1] = limbs_bytes(STEP_MODULUS);
    assert_eq!(to_chunked_all_evals(&r.prev_evals).err().unwrap(), bigint_error());
    assert_eq!(ocaml_proof_from_bin_prot(&r).err().unwrap(), bigint_error());
    let mut below = STEP_MODULUS;
    below[0] -= 1;
    r.prev_evals.evals.evals.s[2].1[1] = limbs_bytes(below);
    let e = to_chunked_all_evals(&r.prev_evals).unwrap();
    assert_eq!(e.s[2].zeta_omega[1], limbs_bytes(below).to_vec());
}
