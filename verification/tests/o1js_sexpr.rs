use pickles_verifier::ingest::o1js_sexpr::{challenge, combine_limbs_le, ocaml_byte_atom, ocaml_proof_from_sexp, proofs_verified_mask, to_wrap_proof};
use pickles_verifier::field::FieldKind;
use pickles_verifier::ingest::sexpr::{parse, Sexp};

/// The 32 little-endian bytes of a small field element.
fn fe(b: u64) -> Vec<u8> {
    let mut v = b.to_le_bytes().to_vec();
    v.resize(32, 0);
    v
}

fn hex(b: u64) -> String {
    format!("0x{:x}", b)
}

fn aff(b: u64) -> String {
    format!("({} {})", hex(b), hex(b + 1))
}

fn chunked(b: u64) -> String {
    format!("(({} {}) ({} {}))", hex(b), hex(b + 1), hex(b + 2), hex(b + 3))
}

fn scalar(lo: u64) -> String {
    format!("((inner ({:x} 0)))", lo)
}

fn bp_row(n: u64, base: u64) -> String {
    let items: Vec<String> = (0..n).map(|i| format!("((prechallenge {}))", scalar(base + i))).collect();
    format!("({})", items.join(" "))
}

fn many(n: u64, base: u64, f: fn(u64) -> String) -> String {
    let items: Vec<String> = (0..n).map(|i| f(base + i)).collect();
    format!("({})", items.join(" "))
}

fn tree(mpv: u64) -> Sexp {
    tree_with_alpha(mpv, &scalar(0x0807060504030201))
}

fn tree_with_alpha(mpv: u64, alpha: &str) -> Sexp {
    parse(&tree_text(mpv, alpha)).unwrap()
}

fn tree_text(mpv: u64, alpha: &str) -> String {
    let tag = ["N0", "N1", "N2"][mpv as usize];
    let sgs: Vec<String> = (0..mpv).map(|k| aff(50 + 2 * k)).collect();
    let step_rows: Vec<String> = (0..mpv).map(|k| bp_row(16, 1000 * (k + 1))).collect();
    let wrap_rows: Vec<String> = (0..mpv).map(|k| bp_row(15, 100 * (k + 1))).collect();
    let statement = format!(
        "((proof_state ((deferred_values ((plonk ((alpha {alpha}) (beta (5 0)) (gamma (6 0)) (zeta {zeta}))) \
         (bulletproof_challenges {bp}) (branch_data ((proofs_verified {tag}) (domain_log2 \"\\016\"))))) \
         (sponge_digest_before_evaluations (1 2 3 4)) \
         (messages_for_next_wrap_proof ((challenge_polynomial_commitment {cpc}) (old_bulletproof_challenges ({wrap_rows})))))) \
         (messages_for_next_step_proof ((challenge_polynomial_commitments ({sgs})) (old_bulletproof_challenges ({step_rows})))))",
        alpha = alpha,
        zeta = "(7 8)",
        bp = bp_row(16, 1),
        tag = tag,
        cpc = aff(200),
        wrap_rows = wrap_rows.join(" "),
        sgs = sgs.join(" "),
        step_rows = step_rows.join(" "),
    );
    let prev_evals = format!(
        "((evals ((public_input {pi}) (evals ((w {w}) (coefficients {c}) (z {z}) (s {s}) \
         (generic_selector {g0}) (poseidon_selector {g1}) (complete_add_selector {g2}) (mul_selector {g3}) \
         (emul_selector {g4}) (endomul_scalar_selector {g5}))))) (ft_eval1 {ft}))",
        pi = aff(60),
        w = many(15, 0, chunked),
        c = many(15, 20, chunked),
        z = chunked(40),
        s = many(6, 42, chunked),
        g0 = chunked(70),
        g1 = chunked(71),
        g2 = chunked(72),
        g3 = chunked(73),
        g4 = chunked(74),
        g5 = chunked(75),
        ft = hex(99),
    );
    let lr: Vec<String> = (0..15).map(|i| format!("({} {})", aff(170 + i), aff(190 + i))).collect();
    let proof = format!(
        "((commitments ((w_comm {w}) (z_comm {z}) (t_comm {t}))) \
         (evaluations ((w {ew}) (coefficients {ec}) (z {ez}) (s {es}) (generic_selector {s0}) (poseidon_selector {s1}) \
         (complete_add_selector {s2}) (mul_selector {s3}) (emul_selector {s4}) (endomul_scalar_selector {s5}))) \
         (ft_eval1 {ft}) \
         (bulletproof ((lr ({lr})) (z_1 {z1}) (z_2 {z2}) (delta {d}) (challenge_polynomial_commitment {sg}))))",
        w = many(15, 0, aff),
        z = aff(30),
        t = many(7, 32, aff),
        ew = many(15, 100, aff),
        ec = many(15, 120, aff),
        ez = aff(140),
        es = many(6, 142, aff),
        s0 = aff(150),
        s1 = aff(151),
        s2 = aff(152),
        s3 = aff(153),
        s4 = aff(154),
        s5 = aff(155),
        ft = hex(160),
        lr = lr.join(" "),
        z1 = hex(210),
        z2 = hex(211),
        d = aff(212),
        sg = aff(214),
    );
    format!("((statement {statement}) (prev_evals {prev_evals}) (proof {proof}))")
}

#[test]
fn byte_atoms_and_masks() {
    assert_eq!(ocaml_byte_atom(&parse("\"\\t\"").unwrap()).unwrap(), 9);
    assert_eq!(ocaml_byte_atom(&parse("\"\\016\"").unwrap()).unwrap(), 16);
    assert!(ocaml_byte_atom(&parse("\"\"").unwrap()).is_err());
    assert!(ocaml_byte_atom(&parse("(a)").unwrap()).is_err());
    assert_eq!(proofs_verified_mask(&parse("N0").unwrap()).unwrap(), [false, false]);
    assert_eq!(proofs_verified_mask(&parse("N1").unwrap()).unwrap(), [false, true]);
    assert_eq!(proofs_verified_mask(&parse("(N2)").unwrap()).unwrap(), [true, true]);
    assert!(proofs_verified_mask(&parse("N3").unwrap()).is_err());
    assert!(proofs_verified_mask(&parse("()").unwrap()).is_err());
}

#[test]
fn sexp_proof_fields() {
    let o = ocaml_proof_from_sexp(&tree(1)).unwrap();
    let mut alpha: Vec<u8> = (1..=8).collect();
    alpha.resize(32, 0);
    assert_eq!(o.raw_plonk.alpha, alpha);
    assert_eq!(o.raw_plonk.beta, fe(5));
    let mut zeta = 7u64.to_le_bytes().to_vec();
    zeta.extend_from_slice(&8u64.to_le_bytes());
    zeta.resize(32, 0);
    // a raw `(l1 l2)` challenge reads as the scalar form does
    assert_eq!(o.raw_plonk.zeta, zeta);
    assert_eq!(o.raw_bulletproof_challenges.len(), 16);
    assert_eq!(o.raw_bulletproof_challenges[15], fe(16));
    assert_eq!(o.step_domain_log2, 16);
    assert_eq!(o.branch_data.domain_log2, fe(16));
    assert_eq!(o.branch_data.proofs_verified_mask, [false, true]);
    let mut digest = Vec::new();
    for l in [1u64, 2, 3, 4] {
        digest.extend_from_slice(&l.to_le_bytes());
    }
    assert_eq!(o.sponge_digest_before_evaluations, digest);
    assert_eq!(o.challenge_polynomial_commitment.x, fe(200));
    assert_eq!(o.prev_step_sgs.len(), 1);
    assert_eq!(o.prev_step_sgs[0].y, fe(51));
    assert_eq!(o.prev_step_chals_raw[0][1], fe(1001));
    assert_eq!(o.prev_wrap_chals_raw[0][14], fe(114));
    assert_eq!(o.prev_evals.ft_eval1, fe(99));
    assert_eq!(o.prev_evals.public_evals.zeta, vec![fe(60)]);
    assert_eq!(o.prev_evals.w[2].zeta, vec![fe(2), fe(3)]);
    assert_eq!(o.prev_evals.w[2].zeta_omega, vec![fe(4), fe(5)]);
    assert_eq!(o.prev_evals.index[5].zeta, vec![fe(75), fe(76)]);
    assert_eq!(o.p_eval0_chunks, vec![fe(60)]);
}

#[test]
fn sexp_proof_fields_refuse_a_missing_record_field() {
    let t = parse("((statement ()) (prev_evals ()))").unwrap();
    assert!(ocaml_proof_from_sexp(&t).is_err());
    assert!(to_wrap_proof(&t).is_err());
}

#[test]
fn sexp_wrap_proof() {
    let w = to_wrap_proof(&tree(1)).unwrap();
    assert_eq!(w.commitments.w_comm.len(), 15);
    assert_eq!(w.commitments.w_comm[4].x, fe(4));
    assert_eq!(w.commitments.t_comm.len(), 7);
    assert_eq!(w.proof.lr.len(), 15);
    assert_eq!(w.proof.lr[14].1.y, fe(205));
    assert_eq!(w.proof.z2, fe(211));
    assert_eq!(w.evals.w[0].zeta, vec![fe(100)]);
    assert_eq!(w.evals.endomul_scalar_selector.zeta_omega, vec![fe(156)]);
    assert_eq!(w.ft_eval1, fe(160));
    assert_eq!(w.prev_challenges.len(), 2);
    assert!(w.prev_challenges[0].comm.is_none());
    assert!(w.prev_challenges[0].chals.is_none());
    assert_eq!(w.prev_challenges[1].comm.as_ref().unwrap().x, fe(50));
    assert_eq!(w.prev_challenges[1].chals.as_ref().unwrap()[0], fe(100));
}

#[test]
fn sexp_wrap_proof_pads_no_previous_proofs() {
    let w = to_wrap_proof(&tree(0)).unwrap();
    assert_eq!(w.prev_challenges.len(), 2);
    assert!(w.prev_challenges.iter().all(|c| c.comm.is_none() && c.chals.is_none()));
    let w2 = to_wrap_proof(&tree(2)).unwrap();
    assert!(w2.prev_challenges.iter().all(|c| c.comm.is_some() && c.chals.is_some()));
    assert_eq!(w2.prev_challenges[0].chals.as_ref().unwrap()[0], fe(100));
    assert_eq!(w2.prev_challenges[1].chals.as_ref().unwrap()[0], fe(200));
}

#[test]
fn hex_limbs_are_little_endian_u64s() {
    // `d1bf4da023ceaf65 19f7e59422edfe46` is two little-endian u64 limbs of
    // a 128-bit challenge.
    let o = ocaml_proof_from_sexp(&tree_with_alpha(0, "((inner (d1bf4da023ceaf65 19f7e59422edfe46)))")).unwrap();
    let mut expected = 0xd1bf4da023ceaf65u64.to_le_bytes().to_vec();
    expected.extend_from_slice(&0x19f7e59422edfe46u64.to_le_bytes());
    expected.resize(32, 0);
    assert_eq!(o.raw_plonk.alpha, expected);
}

#[test]
fn bad_limbs_are_refused() {
    assert!(ocaml_proof_from_sexp(&tree_with_alpha(0, "((inner (xyz 0)))")).is_err());
    assert!(ocaml_proof_from_sexp(&tree_with_alpha(0, "((inner (10000000000000000 0)))")).is_err());
    assert!(ocaml_proof_from_sexp(&tree_with_alpha(0, "((inner ((1) 0)))")).is_err());
}

#[test]
fn chunk_counts_must_agree_on_both_sides() {
    let text = tree_text(0, &scalar(1));
    assert!(ocaml_proof_from_sexp(&parse(&text).unwrap()).is_ok());
    assert!(text.contains("(z ((0x28 0x29) (0x2a 0x2b)))"));
    let unequal = text.replace("(z ((0x28 0x29) (0x2a 0x2b)))", "(z ((0x28) (0x2a 0x2b)))");
    assert!(ocaml_proof_from_sexp(&parse(&unequal).unwrap()).is_err());
    let two = text.replace("(z ((0x28 0x29) (0x2a 0x2b)))", "(z ((0x28) (0x2a)))");
    let o = ocaml_proof_from_sexp(&parse(&two).unwrap()).unwrap();
    assert_eq!(o.prev_evals.z.zeta.len(), 1);
}

#[test]
fn raw_and_scalar_challenges_read_alike() {
    let raw = parse("(d1bf4da023ceaf65 19f7e59422edfe46)").unwrap();
    let scalar = parse("((inner (d1bf4da023ceaf65 19f7e59422edfe46)))").unwrap();
    let a = challenge(&raw, FieldKind::Step).unwrap();
    assert_eq!(a, challenge(&scalar, FieldKind::Step).unwrap());
    assert_eq!(a, combine_limbs_le(raw.as_list().unwrap(), FieldKind::Step).unwrap());
    assert_eq!(&a[..8], &0xd1bf4da023ceaf65u64.to_le_bytes());
    assert!(challenge(&parse("x").unwrap(), FieldKind::Step).is_err());
}

#[test]
fn reader_error_messages() {
    assert_eq!(ocaml_byte_atom(&parse("(a)").unwrap()).unwrap_err(), "expected atom, got list");
    assert_eq!(ocaml_byte_atom(&parse("\"\"").unwrap()).unwrap_err(), "ocaml byte: empty string");
    assert_eq!(
        ocaml_proof_from_sexp(&parse("((prev_evals ()))").unwrap()).err().unwrap(),
        "field `statement` not found"
    );
    assert_eq!(
        to_wrap_proof(&parse("((proof ((commitments ((w_comm ()))))))").unwrap()).err().unwrap(),
        "w_comm: expected 15 points, got 0"
    );
    let good = tree_text(0, &scalar(1));
    let text = good.replace("(w (((0x0 0x1) (0x2 0x3)) ", "(w (");
    assert_ne!(text, good);
    assert_eq!(
        ocaml_proof_from_sexp(&parse(&text).unwrap()).err().unwrap(),
        "evals: expected 15 columns, got 14"
    );
}

#[test]
fn limbs_must_spell_a_field_element() {
    let step_modulus = parse("(992d30ed00000001 224698fc094cf91b 0 4000000000000000)").unwrap();
    let limbs = step_modulus.as_list().unwrap();
    assert_eq!(
        combine_limbs_le(limbs, FieldKind::Step).unwrap_err(),
        "field from LE bytes: DeserializeBytes"
    );
    let b = combine_limbs_le(limbs, FieldKind::Wrap).unwrap();
    assert_eq!(b[31], 0x40);
    assert_eq!(b[0], 0x01);
    let below = parse("(992d30ed00000000 224698fc094cf91b 0 4000000000000000)").unwrap();
    assert!(combine_limbs_le(below.as_list().unwrap(), FieldKind::Step).is_ok());
    let all = parse("((inner (ffffffffffffffff ffffffffffffffff ffffffffffffffff ffffffffffffffff)))").unwrap();
    assert_eq!(challenge(&all, FieldKind::Wrap).unwrap_err(), "field from LE bytes: DeserializeBytes");
}

#[test]
fn both_challenge_forms_fail_alike() {
    for (limbs, msg) in [
        ("(12 zz)", "limb hex parse `zz`: invalid digit found in string"),
        ("(12 (3))", "expected atom, got list"),
        ("(1 11112222333344445)", "limb hex parse `11112222333344445`: number too large to fit in target type"),
        ("(1 +)", "limb hex parse `+`: invalid digit found in string"),
        ("(1 \"\")", "limb hex parse ``: cannot parse integer from empty string"),
    ] {
        let raw = parse(limbs).unwrap();
        let scalar = parse(&format!("((inner {limbs}))")).unwrap();
        assert_eq!(challenge(&raw, FieldKind::Step).unwrap_err(), msg);
        assert_eq!(challenge(&scalar, FieldKind::Step).unwrap_err(), msg);
        assert_eq!(combine_limbs_le(raw.as_list().unwrap(), FieldKind::Step).unwrap_err(), msg);
    }
    assert_eq!(
        challenge(&parse("((inner x))").unwrap(), FieldKind::Step).unwrap_err(),
        "expected list, got atom \"x\""
    );
    assert_eq!(challenge(&parse("x").unwrap(), FieldKind::Step).unwrap_err(), "expected list, got atom \"x\"");
}

#[test]
fn proofs_verified_errors_name_the_reason() {
    assert_eq!(
        proofs_verified_mask(&parse("N3").unwrap()).unwrap_err(),
        "proofs_verified: expected N0|N1|N2, got N3"
    );
    assert_eq!(
        proofs_verified_mask(&parse("(N4 x)").unwrap()).unwrap_err(),
        "proofs_verified: expected N0|N1|N2, got N4"
    );
    assert_eq!(proofs_verified_mask(&parse("()").unwrap()).unwrap_err(), "proofs_verified: empty list");
    assert_eq!(proofs_verified_mask(&parse("((N0))").unwrap()).unwrap_err(), "expected atom, got list");
}
