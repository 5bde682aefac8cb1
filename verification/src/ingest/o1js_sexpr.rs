//! Read the proof fields of an OCaml `sexp_of_t` tree of
//! `Pickles.Proof.Proofs_verified_2.Repr.Stable.V2` (what o1js's
//! `Pickles.proofToBase64` encodes).
//!
//! Each decoder is stated as a spec function over [`SexpView`] that gives
//! the decoded value, or `None` where the tree does not have the expected
//! shape; the executable decoder returns exactly that value, or an error
//! exactly when the spec gives `None`.
use vstd::prelude::*;
use vstd::string::*;
use vstd::utf8::*;
use crate::field::{canonical, is_canonical, FieldKind};
use crate::hex::{be_hex_field, hex_u64, hex_u64_error, parse_be_hex_field, parse_hex_u64, HexError};
use crate::ingest::sexpr::{
    field_miss, field_miss_message, lemma_seq_view_index, record_field, sexp_seq_view, str_eq, Sexp, SexpView,
};
use crate::serialize::u64_le;
use crate::text::{decimal, decimal_text, join, join3, str_debug, text};
use crate::types::{
    challenges_view, evals_view, fields_view, pairs_view, points_view, rows_view, AffinePoint, AffinePointView, BranchData,
    BranchDataView, ChunkedAllEvals, ChunkedAllEvalsView, FieldBytes, OcamlProof, OcamlProofView,
    OpeningProof, OpeningProofView, PlonkMinimal, PlonkMinimalView, PointEvaluations,
    PointEvaluationsView, ProofEvaluations, ProofEvaluationsView, ProverCommitments,
    ProverCommitmentsView, RecursionChallenge, RecursionChallengeView, WrapProof, WrapProofView,
    STEP_IPA_ROUNDS, WRAP_IPA_ROUNDS,
};

verus! {

broadcast use vstd::utf8::group_utf8_lib;

// ---------------------------------------------------------------------------
// Sequences of readings
// ---------------------------------------------------------------------------

/// `f` applied to every element, when it succeeds on all of them.
pub open spec fn map_all<A, B>(s: Seq<A>, f: spec_fn(A) -> Option<B>) -> Option<Seq<B>>
    decreases s.len(),
{
    if s.len() == 0 {
        Some(Seq::empty())
    } else {
        match (map_all(s.drop_last(), f), f(s.last())) {
            (Some(bs), Some(b)) => Some(bs.push(b)),
            _ => None,
        }
    }
}

pub proof fn lemma_map_all_len<A, B>(s: Seq<A>, f: spec_fn(A) -> Option<B>)
    ensures
        map_all(s, f) matches Some(bs) ==> bs.len() == s.len(),
    decreases s.len(),
{
    if s.len() > 0 {
        lemma_map_all_len(s.drop_last(), f);
    }
}

/// A reading that fails on a prefix fails on the whole sequence.
pub proof fn lemma_map_all_prefix<A, B>(s: Seq<A>, f: spec_fn(A) -> Option<B>, i: int)
    requires
        0 <= i <= s.len(),
        map_all(s.take(i), f) is None,
    ensures
        map_all(s, f) is None,
    decreases s.len() - i,
{
    if i < s.len() {
        assert(s.take(i + 1).drop_last() =~= s.take(i));
        lemma_map_all_prefix(s, f, i + 1);
    } else {
        assert(s.take(i) =~= s);
    }
}

/// One step of a reading over a prefix.
pub proof fn lemma_map_all_step<A, B>(s: Seq<A>, f: spec_fn(A) -> Option<B>, i: int)
    requires
        0 <= i < s.len(),
    ensures
        map_all(s.take(i + 1), f) == match (map_all(s.take(i), f), f(s[i])) {
            (Some(bs), Some(b)) => Some(bs.push(b)),
            _ => None::<Seq<B>>,
        },
{
    assert(s.take(i + 1).drop_last() =~= s.take(i));
}

// ---------------------------------------------------------------------------
// Leaf readings
// ---------------------------------------------------------------------------

/// The UTF-8 bytes of an atom.
pub open spec fn atom_bytes(s: SexpView) -> Option<Seq<u8>> {
    match s {
        SexpView::Atom(a) => Some(encode_utf8(a)),
        SexpView::List(_) => None,
    }
}

/// A limb: an atom read as `u64::from_str_radix(_, 16)`.
pub open spec fn limb_spec(s: SexpView) -> Option<u64> {
    match atom_bytes(s) {
        Some(b) => hex_u64(b),
        None => None,
    }
}

/// The little-endian bytes of the limbs, one after the other.
pub open spec fn limbs_le(atoms: Seq<SexpView>) -> Option<Seq<u8>>
    decreases atoms.len(),
{
    if atoms.len() == 0 {
        Some(Seq::empty())
    } else {
        match (limbs_le(atoms.drop_last()), limb_spec(atoms.last())) {
            (Some(b), Some(v)) => Some(b + u64_le(v)),
            _ => None,
        }
    }
}

/// `b` cut or zero-padded to the 32 bytes of a field element.
pub open spec fn resize32(b: Seq<u8>) -> Seq<u8> {
    if b.len() >= 32 {
        b.take(32)
    } else {
        b + Seq::new((32 - b.len()) as nat, |i: int| 0u8)
    }
}

/// A field element given as little-endian u64 limbs: their bytes resized to
/// 32, when those spell an element of the field.
pub open spec fn limbs_field(atoms: Seq<SexpView>, k: FieldKind) -> Option<Seq<u8>> {
    match limbs_le(atoms) {
        Some(b) => if is_canonical(resize32(b), k) {
            Some(resize32(b))
        } else {
            None
        },
        None => None,
    }
}

/// `(l1 l2)` raw challenge or `((inner (l1 l2)))` scalar challenge.
pub open spec fn challenge_spec(s: SexpView, k: FieldKind) -> Option<Seq<u8>> {
    match s {
        SexpView::Atom(_) => None,
        SexpView::List(items) => if items.len() > 0 && items[0] is List && items[0]->List_0.len() == 2
            && items[0]->List_0[0] == SexpView::Atom("inner"@) {
            match items[0]->List_0[1] {
                SexpView::List(limbs) => limbs_field(limbs, k),
                SexpView::Atom(_) => None,
            }
        } else {
            limbs_field(items, k)
        },
    }
}

/// A field element written as a big-endian hex atom.
pub open spec fn be_hex_atom_spec(s: SexpView) -> Option<Seq<u8>> {
    match atom_bytes(s) {
        Some(b) => be_hex_field(b),
        None => None,
    }
}

/// `(x_hex y_hex)`: an affine point.
pub open spec fn affine_spec(s: SexpView) -> Option<AffinePointView> {
    match s {
        SexpView::List(items) => if items.len() == 2 {
            match (be_hex_atom_spec(items[0]), be_hex_atom_spec(items[1])) {
                (Some(x), Some(y)) => Some(AffinePointView { x, y }),
                _ => None,
            }
        } else {
            None
        },
        SexpView::Atom(_) => None,
    }
}

/// An OCaml byte rendered as a one-character string: its first byte.
pub open spec fn byte_atom_spec(s: SexpView) -> Option<u8> {
    match atom_bytes(s) {
        Some(b) => if b.len() > 0 {
            Some(b[0])
        } else {
            None
        },
        None => None,
    }
}

/// The tag of a sum-type value: the bare atom, or the head of `(Tag ...)`.
pub open spec fn tag_spec(s: SexpView) -> Option<Seq<char>> {
    match s {
        SexpView::Atom(a) => Some(a),
        SexpView::List(items) => if items.len() > 0 && items[0] is Atom {
            Some(items[0]->Atom_0)
        } else {
            None
        },
    }
}

/// `proofs_verified`: N0 = [F,F], N1 = [F,T], N2 = [T,T].
pub open spec fn mask_spec(s: SexpView) -> Option<[bool; 2]> {
    match tag_spec(s) {
        Some(t) => if t == "N0"@ {
            Some([false, false])
        } else if t == "N1"@ {
            Some([false, true])
        } else if t == "N2"@ {
            Some([true, true])
        } else {
            None
        },
        None => None,
    }
}

/// The `prechallenge` field of a bulletproof challenge record, read as a
/// challenge.
pub open spec fn prechallenge_spec(s: SexpView, k: FieldKind) -> Option<Seq<u8>> {
    match record_field(s, "prechallenge"@) {
        Some(p) => challenge_spec(p, k),
        None => None,
    }
}

/// A list of exactly `n` bulletproof challenge records.
pub open spec fn bulletproof_spec(s: SexpView, n: nat, k: FieldKind) -> Option<Seq<Seq<u8>>> {
    match s {
        SexpView::List(items) => if items.len() == n {
            map_all(items, |it: SexpView| prechallenge_spec(it, k))
        } else {
            None
        },
        SexpView::Atom(_) => None,
    }
}

/// The text of a `u64` reading's error (that of `core::num::ParseIntError`).
pub open spec fn hex_error_text(e: HexError) -> Seq<char> {
    match e {
        HexError::Empty => "cannot parse integer from empty string"@,
        HexError::InvalidDigit => "invalid digit found in string"@,
        HexError::PosOverflow => "number too large to fit in target type"@,
    }
}

/// Why an element is not a limb.
pub open spec fn limb_error_text(s: SexpView) -> Seq<char> {
    match s {
        SexpView::List(_) => "expected atom, got list"@,
        SexpView::Atom(a) => "limb hex parse `"@ + a + "`: "@ + hex_error_text(hex_u64_error(encode_utf8(a))),
    }
}

/// Why limbs from `i` on do not read as a field element: the first element
/// that is not a limb says why, and where all are limbs, their bytes are
/// not an element of the field.
pub open spec fn limbs_error(atoms: Seq<SexpView>, i: int) -> Seq<char>
    decreases atoms.len() - i,
{
    if i < 0 || i >= atoms.len() {
        "field from LE bytes: DeserializeBytes"@
    } else if limb_spec(atoms[i]) is None {
        limb_error_text(atoms[i])
    } else {
        limbs_error(atoms, i + 1)
    }
}

/// Why a challenge does not read: the message of the reading that failed.
pub open spec fn challenge_error(s: SexpView) -> Seq<char> {
    match s {
        SexpView::Atom(a) => "expected list, got atom "@ + str_debug(a),
        SexpView::List(items) => if items.len() > 0 && items[0] is List && items[0]->List_0.len() == 2
            && items[0]->List_0[0] == SexpView::Atom("inner"@) {
            match items[0]->List_0[1] {
                SexpView::List(limbs) => limbs_error(limbs, 0),
                SexpView::Atom(a) => "expected list, got atom "@ + str_debug(a),
            }
        } else {
            limbs_error(items, 0)
        },
    }
}

// ---------------------------------------------------------------------------
// Leaf decoders
// ---------------------------------------------------------------------------

/// A field element from little-endian u64 limbs written in hex: the limbs'
/// bytes one after the other, zero-padded (or cut) to 32, when those spell
/// an element of the field `k`.
pub fn combine_limbs_le(atoms: &[Sexp], k: FieldKind) -> (r: Result<FieldBytes, String>)
    ensures
        match (r, limbs_field(sexp_seq_view(atoms@), k)) {
            (Ok(b), Some(v)) => b@ == v,
            (Err(m), None) => m@ == limbs_error(sexp_seq_view(atoms@), 0),
            _ => false,
        },
{
    let ghost items = sexp_seq_view(atoms@);
    proof {
        lemma_seq_view_index(atoms@);
    }
    let mut le: Vec<u8> = Vec::new();
    let mut i: usize = 0;
    while i < atoms.len()
        invariant
            items == sexp_seq_view(atoms@),
            items.len() == atoms@.len(),
            forall|j: int| 0 <= j < atoms@.len() ==> #[trigger] items[j] == atoms@[j]@,
            i <= atoms@.len(),
            limbs_le(items.take(i as int)) == Some(le@),
            limbs_error(items, 0) == limbs_error(items, i as int),
        decreases atoms@.len() - i,
    {
        assert(items.take(i + 1).drop_last() =~= items.take(i as int));
        assert(items.take(i + 1).last() == items[i as int]);
        let s = match atoms[i].as_atom() {
            Ok(s) => s,
            Err(e) => {
                proof {
                    lemma_limbs_prefix(items, i + 1);
                }
                return Err(e);
            },
        };
        let v = match parse_hex_u64(s.as_bytes()) {
            Ok(v) => v,
            Err(e) => {
                proof {
                    lemma_limbs_prefix(items, i + 1);
                }
                let mut m = join3("limb hex parse `", s, "`: ");
                m.append(&e.message());
                assert(m@ =~= limb_error_text(items[i as int]));
                return Err(m);
            },
        };
        crate::serialize::write_u64_le(&mut le, v);
        i += 1;
    }
    assert(items.take(atoms@.len() as int) =~= items);
    le.resize(32, 0);
    assert(le@ =~= resize32(limbs_le(items).unwrap()));
    if canonical(le.as_slice(), k) {
        Ok(le)
    } else {
        Err(text("field from LE bytes: DeserializeBytes"))
    }
}

proof fn lemma_limbs_prefix(items: Seq<SexpView>, i: int)
    requires
        0 <= i <= items.len(),
        limbs_le(items.take(i)) is None,
    ensures
        limbs_le(items) is None,
    decreases items.len() - i,
{
    if i < items.len() {
        assert(items.take(i + 1).drop_last() =~= items.take(i));
        lemma_limbs_prefix(items, i + 1);
    } else {
        assert(items.take(i) =~= items);
    }
}

/// `(l1 l2)` raw challenge OR `((inner (l1 l2)))` scalar challenge.
pub fn challenge(s: &Sexp, k: FieldKind) -> (r: Result<FieldBytes, String>)
    ensures
        match (r, challenge_spec(s@, k)) {
            (Ok(b), Some(v)) => b@ == v,
            (Err(m), None) => m@ == challenge_error(s@),
            _ => false,
        },
{
    let items = s.as_list()?;
    proof {
        lemma_seq_view_index(items@);
    }
    // Sniff: if the first element is a list with an `inner` field, drill into it.
    if items.len() > 0 {
        if let Ok(pair) = items[0].as_list() {
            proof {
                lemma_seq_view_index(pair@);
            }
            if pair.len() == 2 {
                if let Ok(head) = pair[0].as_atom() {
                    if str_eq(head, "inner") {
                        let limbs = pair[1].as_list()?;
                        return combine_limbs_le(limbs, k);
                    }
                }
            }
        }
    }
    // Fall through: treat the items themselves as the raw limbs.
    combine_limbs_le(items, k)
}

fn be_hex_atom(s: &Sexp) -> (r: Result<FieldBytes, String>)
    ensures
        match (r, be_hex_atom_spec(s@)) {
            (Ok(b), Some(v)) => b@ == v,
            (Err(_), None) => true,
            _ => false,
        },
{
    let atom = s.as_atom()?;
    match parse_be_hex_field(atom.as_bytes()) {
        Some(b) => Ok(b),
        None => Err(join3("field hex parse `", atom, "`: expected at most 64 hex digits")),
    }
}

/// `(x_hex y_hex)`: an affine point.
fn affine(s: &Sexp) -> (r: Result<AffinePoint, String>)
    ensures
        match (r, affine_spec(s@)) {
            (Ok(p), Some(v)) => p@ == v,
            (Err(_), None) => true,
            _ => false,
        },
{
    let items = s.as_list()?;
    proof {
        lemma_seq_view_index(items@);
    }
    if items.len() != 2 {
        return Err(join3("affine: expected (x y), got ", &decimal(items.len()), " items"));
    }
    let x = be_hex_atom(&items[0])?;
    let y = be_hex_atom(&items[1])?;
    Ok(AffinePoint { x, y })
}

/// OCaml `Hex64` byte rendered as a 1-char string (e.g. `"\t"` is 9).
pub fn ocaml_byte_atom(s: &Sexp) -> (r: Result<u8, String>)
    ensures
        match (r, byte_atom_spec(s@)) {
            (Ok(b), Some(v)) => b == v,
            (Err(_), None) => true,
            _ => false,
        },
        s@ is List ==> (r matches Err(m) && m@ == "expected atom, got list"@),
        atom_bytes(s@) == Some(Seq::<u8>::empty()) ==> (r matches Err(m) && m@ == "ocaml byte: empty string"@),
{
    let s = s.as_atom()?;
    let bytes = s.as_bytes();
    if bytes.len() == 0 {
        return Err(text("ocaml byte: empty string"));
    }
    Ok(bytes[0])
}

/// The proofs-verified prefix mask of a `proofs_verified` value.
/// Why a proofs-verified value does not read: an empty list, a list headed
/// by a list, or a tag other than the three.
pub open spec fn mask_error(s: SexpView) -> Seq<char> {
    match tag_spec(s) {
        Some(t) => "proofs_verified: expected N0|N1|N2, got "@ + t,
        None => if s is List && s->List_0.len() == 0 {
            "proofs_verified: empty list"@
        } else {
            "expected atom, got list"@
        },
    }
}

/// `proofs_verified`: the mask of the tag `N0`, `N1` or `N2`, bare or at
/// the head of a list.
pub fn proofs_verified_mask(s: &Sexp) -> (r: Result<[bool; 2], String>)
    ensures
        match (r, mask_spec(s@)) {
            (Ok(m), Some(v)) => m == v,
            (Err(m), None) => m@ == mask_error(s@),
            _ => false,
        },
{
    // The sexp form for nullary variants is the bare atom (e.g. `N0`).
    let tag: &str = match s {
        Sexp::Atom(a) => a.as_str(),
        Sexp::List(items) => {
            proof {
                lemma_seq_view_index(items@);
            }
            if items.len() == 0 {
                return Err(text("proofs_verified: empty list"));
            }
            items[0].as_atom()?
        },
    };
    if str_eq(tag, "N0") {
        Ok([false, false])
    } else if str_eq(tag, "N1") {
        Ok([false, true])
    } else if str_eq(tag, "N2") {
        Ok([true, true])
    } else {
        Err(join("proofs_verified: expected N0|N1|N2, got ", tag))
    }
}

fn bulletproof_vec(s: &Sexp, n: usize, k: FieldKind) -> (r: Result<Vec<FieldBytes>, String>)
    ensures
        match (r, bulletproof_spec(s@, n as nat, k)) {
            (Ok(v), Some(w)) => fields_view(v@) == w,
            (Err(_), None) => true,
            _ => false,
        },
{
    let items = s.as_list()?;
    let ghost views = sexp_seq_view(items@);
    let ghost f = |it: SexpView| prechallenge_spec(it, k);
    proof {
        lemma_seq_view_index(items@);
    }
    if items.len() != n {
        let mut m = join3("bulletproof: expected ", &decimal(n), " entries, got ");
        m.append(&decimal(items.len()));
        return Err(m);
    }
    let mut out: Vec<FieldBytes> = Vec::new();
    let mut i: usize = 0;
    while i < items.len()
        invariant
            s@ == SexpView::List(views),
            items@.len() == n,
            views == sexp_seq_view(items@),
            views.len() == items@.len(),
            forall|j: int| 0 <= j < items@.len() ==> #[trigger] views[j] == items@[j]@,
            f == (|it: SexpView| prechallenge_spec(it, k)),
            i <= items@.len(),
            map_all(views.take(i as int), f) == Some(fields_view(out@)),
        decreases items@.len() - i,
    {
        proof {
            lemma_map_all_step(views, f, i as int);
        }
        let prechal = match items[i].field("prechallenge") {
            Ok(p) => p,
            Err(e) => {
                proof {
                    lemma_map_all_prefix(views, f, i + 1);
                }
                return Err(e);
            },
        };
        let c = match challenge(prechal, k) {
            Ok(c) => c,
            Err(e) => {
                proof {
                    lemma_map_all_prefix(views, f, i + 1);
                }
                return Err(e);
            },
        };
        let ghost prev = out@;
        out.push(c);
        assert(out@.drop_last() =~= prev);
        assert(fields_view(out@) =~= fields_view(prev).push(c@));
        i += 1;
    }
    assert(views.take(items@.len() as int) =~= views);
    Ok(out)
}


// ---------------------------------------------------------------------------
// Evaluation shapes
// ---------------------------------------------------------------------------

/// `(zeta_hex omega_hex)`: a one-chunk evaluation pair.
pub open spec fn point_eval_flat_spec(s: SexpView) -> Option<PointEvaluationsView> {
    match s {
        SexpView::List(items) => if items.len() == 2 {
            match (be_hex_atom_spec(items[0]), be_hex_atom_spec(items[1])) {
                (Some(a), Some(b)) => Some(PointEvaluationsView { zeta: seq![a], zeta_omega: seq![b] }),
                _ => None,
            }
        } else {
            None
        },
        SexpView::Atom(_) => None,
    }
}

/// `(c1 c2 ...)`: the chunks of one evaluation, each a big-endian hex atom.
pub open spec fn chunks_spec(s: SexpView) -> Option<Seq<Seq<u8>>> {
    match s {
        SexpView::List(items) => map_all(items, |x: SexpView| be_hex_atom_spec(x)),
        SexpView::Atom(_) => None,
    }
}

/// `((zeta_chunks...) (omega_chunks...))`: a chunked evaluation pair with as
/// many chunks on both sides.
pub open spec fn point_eval_chunked_spec(s: SexpView) -> Option<PointEvaluationsView> {
    match s {
        SexpView::List(items) => if items.len() == 2 {
            match (chunks_spec(items[0]), chunks_spec(items[1])) {
                (Some(z), Some(w)) => if z.len() == w.len() {
                    Some(PointEvaluationsView { zeta: z, zeta_omega: w })
                } else {
                    None
                },
                _ => None,
            }
        } else {
            None
        },
        SexpView::Atom(_) => None,
    }
}

/// Exactly `n` chunked evaluation pairs.
pub open spec fn fixed_chunked_spec(s: SexpView, n: nat) -> Option<Seq<PointEvaluationsView>> {
    match s {
        SexpView::List(items) => if items.len() == n {
            map_all(items, |x: SexpView| point_eval_chunked_spec(x))
        } else {
            None
        },
        SexpView::Atom(_) => None,
    }
}

/// The value under `name`, read with `f`.
pub open spec fn field_then<T>(s: SexpView, name: Seq<char>, f: spec_fn(SexpView) -> Option<T>) -> Option<T> {
    match record_field(s, name) {
        Some(v) => f(v),
        None => None,
    }
}

/// The six index selectors of an evaluation record, in order.
pub open spec fn selectors_spec(inner: SexpView) -> Option<Seq<PointEvaluationsView>> {
    match (
        field_then(inner, "generic_selector"@, |x: SexpView| point_eval_chunked_spec(x)),
        field_then(inner, "poseidon_selector"@, |x: SexpView| point_eval_chunked_spec(x)),
        field_then(inner, "complete_add_selector"@, |x: SexpView| point_eval_chunked_spec(x)),
        field_then(inner, "mul_selector"@, |x: SexpView| point_eval_chunked_spec(x)),
        field_then(inner, "emul_selector"@, |x: SexpView| point_eval_chunked_spec(x)),
        field_then(inner, "endomul_scalar_selector"@, |x: SexpView| point_eval_chunked_spec(x)),
    ) {
        (Some(a), Some(b), Some(c), Some(d), Some(e), Some(f)) => Some(seq![a, b, c, d, e, f]),
        _ => None,
    }
}

/// `prev_evals`: `ft_eval1` and `evals.{public_input, evals.{z, w,
/// coefficients, s, <selectors>}}`.
pub open spec fn all_evals_spec(prev_evals: SexpView) -> Option<ChunkedAllEvalsView> {
    match (field_then(prev_evals, "ft_eval1"@, |x: SexpView| be_hex_atom_spec(x)), record_field(prev_evals, "evals"@)) {
        (Some(ft_eval1), Some(outer)) => match (
            field_then(outer, "public_input"@, |x: SexpView| point_eval_flat_spec(x)),
            record_field(outer, "evals"@),
        ) {
            (Some(public_evals), Some(inner)) => match (
                field_then(inner, "z"@, |x: SexpView| point_eval_chunked_spec(x)),
                field_then(inner, "w"@, |x: SexpView| fixed_chunked_spec(x, 15)),
                field_then(inner, "coefficients"@, |x: SexpView| fixed_chunked_spec(x, 15)),
                field_then(inner, "s"@, |x: SexpView| fixed_chunked_spec(x, 6)),
                selectors_spec(inner),
            ) {
                (Some(z), Some(w), Some(coefficients), Some(s), Some(index)) => Some(
                    ChunkedAllEvalsView { ft_eval1, public_evals, z, w, coefficients, s, index },
                ),
                _ => None,
            },
            _ => None,
        },
        _ => None,
    }
}

/// `(zeta_hex omega_hex)` → 1-chunk evaluations.
fn point_eval_flat(s: &Sexp) -> (r: Result<PointEvaluations, String>)
    ensures
        match (r, point_eval_flat_spec(s@)) {
            (Ok(e), Some(v)) => e@ == v,
            (Err(_), None) => true,
            _ => false,
        },
{
    let items = s.as_list()?;
    proof {
        lemma_seq_view_index(items@);
    }
    if items.len() != 2 {
        return Err(text("public_input eval: expected (zeta omega)"));
    }
    let zeta = be_hex_atom(&items[0])?;
    let zeta_omega = be_hex_atom(&items[1])?;
    let e = PointEvaluations { zeta: vec![zeta], zeta_omega: vec![zeta_omega] };
    assert(fields_view(e.zeta@) =~= seq![e.zeta@[0]@]);
    assert(fields_view(e.zeta_omega@) =~= seq![e.zeta_omega@[0]@]);
    Ok(e)
}

/// The chunks of one evaluation.
fn parse_chunks(sx: &Sexp) -> (r: Result<Vec<FieldBytes>, String>)
    ensures
        match (r, chunks_spec(sx@)) {
            (Ok(v), Some(w)) => fields_view(v@) == w,
            (Err(_), None) => true,
            _ => false,
        },
{
    let items = sx.as_list()?;
    let ghost views = sexp_seq_view(items@);
    let ghost f = |x: SexpView| be_hex_atom_spec(x);
    proof {
        lemma_seq_view_index(items@);
    }
    let mut out: Vec<FieldBytes> = Vec::new();
    let mut i: usize = 0;
    while i < items.len()
        invariant
            sx@ == SexpView::List(views),
            views == sexp_seq_view(items@),
            views.len() == items@.len(),
            forall|j: int| 0 <= j < items@.len() ==> #[trigger] views[j] == items@[j]@,
            f == (|x: SexpView| be_hex_atom_spec(x)),
            i <= items@.len(),
            map_all(views.take(i as int), f) == Some(fields_view(out@)),
        decreases items@.len() - i,
    {
        proof {
            lemma_map_all_step(views, f, i as int);
        }
        let c = match be_hex_atom(&items[i]) {
            Ok(c) => c,
            Err(e) => {
                proof {
                    lemma_map_all_prefix(views, f, i + 1);
                }
                return Err(e);
            },
        };
        let ghost prev = out@;
        out.push(c);
        assert(out@.drop_last() =~= prev);
        assert(fields_view(out@) =~= fields_view(prev).push(c@));
        i += 1;
    }
    assert(views.take(items@.len() as int) =~= views);
    Ok(out)
}

/// `((zeta_chunks...) (omega_chunks...))` → chunked evaluations.
fn point_eval_chunked(s: &Sexp) -> (r: Result<PointEvaluations, String>)
    ensures
        match (r, point_eval_chunked_spec(s@)) {
            (Ok(e), Some(v)) => e@ == v,
            (Err(_), None) => true,
            _ => false,
        },
{
    let items = s.as_list()?;
    proof {
        lemma_seq_view_index(items@);
    }
    if items.len() != 2 {
        return Err(text("chunked eval: expected (zeta_chunks omega_chunks)"));
    }
    let zeta = parse_chunks(&items[0])?;
    let zeta_omega = parse_chunks(&items[1])?;
    if zeta.len() != zeta_omega.len() {
        return Err(text("chunked eval: zeta/omega chunk count mismatch"));
    }
    Ok(PointEvaluations { zeta, zeta_omega })
}

/// Exactly `n` chunked evaluation pairs.
fn fixed_chunked(s: &Sexp, n: usize) -> (r: Result<Vec<PointEvaluations>, String>)
    ensures
        match (r, fixed_chunked_spec(s@, n as nat)) {
            (Ok(v), Some(w)) => evals_view(v@) == w,
            (Err(_), None) => true,
            _ => false,
        },
        (s@ matches SexpView::List(items) && items.len() != n) ==> (r matches Err(m) && m@ == column_count_text(
            n as nat,
            s@->List_0.len(),
        )),
{
    let items = s.as_list()?;
    let ghost views = sexp_seq_view(items@);
    let ghost f = |x: SexpView| point_eval_chunked_spec(x);
    proof {
        lemma_seq_view_index(items@);
    }
    if items.len() != n {
        let mut m = join3("evals: expected ", &decimal(n), " columns, got ");
        m.append(&decimal(items.len()));
        assert(m@ =~= column_count_text(n as nat, items@.len()));
        return Err(m);
    }
    let mut out: Vec<PointEvaluations> = Vec::new();
    let mut i: usize = 0;
    while i < items.len()
        invariant
            s@ == SexpView::List(views),
            items@.len() == n,
            views == sexp_seq_view(items@),
            views.len() == items@.len(),
            forall|j: int| 0 <= j < items@.len() ==> #[trigger] views[j] == items@[j]@,
            f == (|x: SexpView| point_eval_chunked_spec(x)),
            i <= items@.len(),
            map_all(views.take(i as int), f) == Some(evals_view(out@)),
        decreases items@.len() - i,
    {
        proof {
            lemma_map_all_step(views, f, i as int);
        }
        let e = match point_eval_chunked(&items[i]) {
            Ok(e) => e,
            Err(m) => {
                proof {
                    lemma_map_all_prefix(views, f, i + 1);
                }
                return Err(m);
            },
        };
        let ghost prev = out@;
        let ghost ev = e@;
        out.push(e);
        assert(out@.drop_last() =~= prev);
        assert(evals_view(out@) =~= evals_view(prev).push(ev));
        i += 1;
    }
    assert(views.take(items@.len() as int) =~= views);
    Ok(out)
}

/// "evals: expected n columns, got m"
pub open spec fn column_count_text(n: nat, m: nat) -> Seq<char> {
    "evals: expected "@ + decimal_text(n) + " columns, got "@ + decimal_text(m)
}

/// The `w` columns of `prev_evals` where everything read before them
/// (`ft_eval1`, `public_input`, `z`) reads.
pub open spec fn evals_w_after_prefix(p: SexpView) -> Option<SexpView> {
    match (field_then(p, "ft_eval1"@, |x: SexpView| be_hex_atom_spec(x)), record_field(p, "evals"@)) {
        (Some(_), Some(outer)) => match (
            field_then(outer, "public_input"@, |x: SexpView| point_eval_flat_spec(x)),
            record_field(outer, "evals"@),
        ) {
            (Some(_), Some(inner)) => match field_then(inner, "z"@, |x: SexpView| point_eval_chunked_spec(x)) {
                Some(_) => record_field(inner, "w"@),
                None => None,
            },
            _ => None,
        },
        _ => None,
    }
}

/// Read `prev_evals`.
fn parse_all_evals(prev_evals: &Sexp) -> (r: Result<ChunkedAllEvals, String>)
    ensures
        match (r, all_evals_spec(prev_evals@)) {
            (Ok(e), Some(v)) => e@ == v,
            (Err(_), None) => true,
            _ => false,
        },
        (evals_w_after_prefix(prev_evals@) matches Some(SexpView::List(items)) && items.len() != 15) ==> (r matches Err(
            m,
        ) && m@ == column_count_text(15, evals_w_after_prefix(prev_evals@)->Some_0->List_0.len())),
{
    let ft_eval1 = be_hex_atom(prev_evals.field("ft_eval1")?)?;
    let evals_outer = prev_evals.field("evals")?;
    let public_evals = point_eval_flat(evals_outer.field("public_input")?)?;
    let inner = evals_outer.field("evals")?;

    let z = point_eval_chunked(inner.field("z")?)?;
    let w = fixed_chunked(inner.field("w")?, 15)?;
    let coefficients = fixed_chunked(inner.field("coefficients")?, 15)?;
    let s = fixed_chunked(inner.field("s")?, 6)?;

    let generic = point_eval_chunked(inner.field("generic_selector")?)?;
    let poseidon = point_eval_chunked(inner.field("poseidon_selector")?)?;
    let complete_add = point_eval_chunked(inner.field("complete_add_selector")?)?;
    let mul = point_eval_chunked(inner.field("mul_selector")?)?;
    let emul = point_eval_chunked(inner.field("emul_selector")?)?;
    let endomul_scalar = point_eval_chunked(inner.field("endomul_scalar_selector")?)?;
    let ghost sel = seq![generic@, poseidon@, complete_add@, mul@, emul@, endomul_scalar@];
    let index = vec![generic, poseidon, complete_add, mul, emul, endomul_scalar];
    assert(evals_view(index@) =~= sel);

    Ok(ChunkedAllEvals { ft_eval1, public_evals, z, w, coefficients, s, index })
}


// ---------------------------------------------------------------------------
// The statement and previous evaluations
// ---------------------------------------------------------------------------

/// A list, every item read with `f`.
pub open spec fn list_spec<T>(s: SexpView, f: spec_fn(SexpView) -> Option<T>) -> Option<Seq<T>> {
    match s {
        SexpView::List(items) => map_all(items, f),
        SexpView::Atom(_) => None,
    }
}

/// A list of affine points.
pub open spec fn affines_spec(s: SexpView) -> Option<Seq<AffinePointView>> {
    list_spec(s, |x: SexpView| affine_spec(x))
}

/// A list of rows of exactly `n` bulletproof challenge records each.
pub open spec fn bp_rows_spec(s: SexpView, n: nat, k: FieldKind) -> Option<Seq<Seq<Seq<u8>>>> {
    list_spec(s, |r: SexpView| bulletproof_spec(r, n, k))
}

/// A field element given as a list of little-endian u64 limbs.
pub open spec fn limbs_list_spec(s: SexpView, k: FieldKind) -> Option<Seq<u8>> {
    match s {
        SexpView::List(items) => limbs_field(items, k),
        SexpView::Atom(_) => None,
    }
}

/// The field element of a small integer.
pub open spec fn small_field(b: u8) -> Seq<u8> {
    seq![b] + Seq::new(31, |i: int| 0u8)
}

/// `plonk`: the four raw challenges.
pub open spec fn plonk_spec(plonk: SexpView) -> Option<PlonkMinimalView> {
    match (
        field_then(plonk, "alpha"@, |x: SexpView| challenge_spec(x, FieldKind::Step)),
        field_then(plonk, "beta"@, |x: SexpView| challenge_spec(x, FieldKind::Step)),
        field_then(plonk, "gamma"@, |x: SexpView| challenge_spec(x, FieldKind::Step)),
        field_then(plonk, "zeta"@, |x: SexpView| challenge_spec(x, FieldKind::Step)),
    ) {
        (Some(alpha), Some(beta), Some(gamma), Some(zeta)) => Some(
            PlonkMinimalView { alpha, beta, gamma, zeta },
        ),
        _ => None,
    }
}

/// `branch_data`: the domain log2 byte and the proofs-verified mask.
pub open spec fn branch_data_spec(bds: SexpView) -> Option<(BranchDataView, u8)> {
    match (
        field_then(bds, "domain_log2"@, |x: SexpView| byte_atom_spec(x)),
        field_then(bds, "proofs_verified"@, |x: SexpView| mask_spec(x)),
    ) {
        (Some(d), Some(m)) => Some(
            (BranchDataView { domain_log2: small_field(d), proofs_verified_mask: m }, d),
        ),
        _ => None,
    }
}

/// The fields of `statement.proof_state.deferred_values` and
/// `proof_state.sponge_digest_before_evaluations`.
pub open spec fn deferred_spec(proof_state: SexpView) -> Option<
    (PlonkMinimalView, Seq<Seq<u8>>, BranchDataView, u8, Seq<u8>),
> {
    match record_field(proof_state, "deferred_values"@) {
        Some(deferred) => match (
            field_then(deferred, "plonk"@, |x: SexpView| plonk_spec(x)),
            field_then(deferred, "bulletproof_challenges"@, |x: SexpView| bulletproof_spec(x, 16, FieldKind::Step)),
            field_then(deferred, "branch_data"@, |x: SexpView| branch_data_spec(x)),
            field_then(proof_state, "sponge_digest_before_evaluations"@, |x: SexpView| limbs_list_spec(x, FieldKind::Step)),
        ) {
            (Some(p), Some(bp), Some(bd), Some(sd)) => Some((p, bp, bd.0, bd.1, sd)),
            _ => None,
        },
        None => None,
    }
}

/// The messages for the next proofs: the wrap challenge-polynomial
/// commitment, the previous step commitments, and the previous step (16) and
/// wrap (15) bulletproof challenge rows.
pub open spec fn messages_spec(statement: SexpView, proof_state: SexpView) -> Option<
    (AffinePointView, Seq<AffinePointView>, Seq<Seq<Seq<u8>>>, Seq<Seq<Seq<u8>>>),
> {
    match (
        record_field(proof_state, "messages_for_next_wrap_proof"@),
        record_field(statement, "messages_for_next_step_proof"@),
    ) {
        (Some(msg_wrap), Some(msg_step)) => match (
            field_then(msg_wrap, "challenge_polynomial_commitment"@, |x: SexpView| affine_spec(x)),
            field_then(msg_step, "challenge_polynomial_commitments"@, |x: SexpView| affines_spec(x)),
            field_then(msg_step, "old_bulletproof_challenges"@, |x: SexpView| bp_rows_spec(x, 16, FieldKind::Step)),
            field_then(msg_wrap, "old_bulletproof_challenges"@, |x: SexpView| bp_rows_spec(x, 15, FieldKind::Wrap)),
        ) {
            (Some(cpc), Some(sgs), Some(step_rows), Some(wrap_rows)) => Some(
                (cpc, sgs, step_rows, wrap_rows),
            ),
            _ => None,
        },
        _ => None,
    }
}

/// The proof fields read from `{statement; prev_evals}`.
pub open spec fn ocaml_proof_spec(root: SexpView) -> Option<OcamlProofView> {
    match record_field(root, "statement"@) {
        Some(statement) => match record_field(statement, "proof_state"@) {
            Some(proof_state) => match (
                deferred_spec(proof_state),
                messages_spec(statement, proof_state),
                field_then(root, "prev_evals"@, |x: SexpView| all_evals_spec(x)),
            ) {
                (Some(d), Some(m), Some(prev_evals)) => Some(
                    OcamlProofView {
                        raw_plonk: d.0,
                        raw_bulletproof_challenges: d.1,
                        branch_data: d.2,
                        sponge_digest_before_evaluations: d.4,
                        challenge_polynomial_commitment: m.0,
                        step_domain_log2: d.3,
                        prev_evals,
                        p_eval0_chunks: prev_evals.public_evals.zeta,
                        prev_step_sgs: m.1,
                        prev_step_chals_raw: m.2,
                        prev_wrap_chals_raw: m.3,
                    },
                ),
                _ => None,
            },
            None => None,
        },
        None => None,
    }
}

pub(crate) fn small_field_bytes(b: u8) -> (r: FieldBytes)
    ensures
        r@ == small_field(b),
{
    let mut v: Vec<u8> = Vec::new();
    v.push(b);
    v.resize(32, 0);
    assert(v@ =~= small_field(b));
    v
}

pub(crate) fn copy_fields(v: &Vec<FieldBytes>) -> (r: Vec<FieldBytes>)
    ensures
        fields_view(r@) == fields_view(v@),
{
    let mut out: Vec<FieldBytes> = Vec::new();
    let mut i: usize = 0;
    while i < v.len()
        invariant
            i <= v@.len(),
            fields_view(out@) =~= fields_view(v@.take(i as int)),
        decreases v@.len() - i,
    {
        out.push(vstd::slice::slice_to_vec(v[i].as_slice()));
        assert(fields_view(v@.take(i + 1)) =~= fields_view(v@.take(i as int)).push(v@[i as int]@));
        i += 1;
    }
    assert(v@.take(v@.len() as int) =~= v@);
    out
}

/// A list of affine points.
fn affine_list(s: &Sexp) -> (r: Result<Vec<AffinePoint>, String>)
    ensures
        match (r, affines_spec(s@)) {
            (Ok(v), Some(w)) => points_view(v@) == w,
            (Err(_), None) => true,
            _ => false,
        },
{
    let items = s.as_list()?;
    let ghost views = sexp_seq_view(items@);
    let ghost f = |x: SexpView| affine_spec(x);
    proof {
        lemma_seq_view_index(items@);
    }
    let mut out: Vec<AffinePoint> = Vec::new();
    let mut i: usize = 0;
    while i < items.len()
        invariant
            s@ == SexpView::List(views),
            views == sexp_seq_view(items@),
            views.len() == items@.len(),
            forall|j: int| 0 <= j < items@.len() ==> #[trigger] views[j] == items@[j]@,
            f == (|x: SexpView| affine_spec(x)),
            i <= items@.len(),
            map_all(views.take(i as int), f) == Some(points_view(out@)),
        decreases items@.len() - i,
    {
        proof {
            lemma_map_all_step(views, f, i as int);
        }
        let p = match affine(&items[i]) {
            Ok(p) => p,
            Err(e) => {
                proof {
                    lemma_map_all_prefix(views, f, i + 1);
                }
                return Err(e);
            },
        };
        let ghost prev = out@;
        let ghost pv = p@;
        out.push(p);
        assert(out@.drop_last() =~= prev);
        assert(points_view(out@) =~= points_view(prev).push(pv));
        i += 1;
    }
    assert(views.take(items@.len() as int) =~= views);
    Ok(out)
}

/// A list of rows of exactly `n` bulletproof challenge records each.
fn bulletproof_rows(s: &Sexp, n: usize, k: FieldKind) -> (r: Result<Vec<Vec<FieldBytes>>, String>)
    ensures
        match (r, bp_rows_spec(s@, n as nat, k)) {
            (Ok(v), Some(w)) => rows_view(v@) == w,
            (Err(_), None) => true,
            _ => false,
        },
{
    let items = s.as_list()?;
    let ghost views = sexp_seq_view(items@);
    let ghost f = |r: SexpView| bulletproof_spec(r, n as nat, k);
    proof {
        lemma_seq_view_index(items@);
    }
    let mut out: Vec<Vec<FieldBytes>> = Vec::new();
    let mut i: usize = 0;
    while i < items.len()
        invariant
            s@ == SexpView::List(views),
            views == sexp_seq_view(items@),
            views.len() == items@.len(),
            forall|j: int| 0 <= j < items@.len() ==> #[trigger] views[j] == items@[j]@,
            f == (|r: SexpView| bulletproof_spec(r, n as nat, k)),
            i <= items@.len(),
            map_all(views.take(i as int), f) == Some(rows_view(out@)),
        decreases items@.len() - i,
    {
        proof {
            lemma_map_all_step(views, f, i as int);
        }
        let row = match bulletproof_vec(&items[i], n, k) {
            Ok(row) => row,
            Err(e) => {
                proof {
                    lemma_map_all_prefix(views, f, i + 1);
                }
                return Err(e);
            },
        };
        let ghost prev = out@;
        let ghost rv = fields_view(row@);
        out.push(row);
        assert(out@.drop_last() =~= prev);
        assert(rows_view(out@) =~= rows_view(prev).push(rv));
        i += 1;
    }
    assert(views.take(items@.len() as int) =~= views);
    Ok(out)
}

/// Read the proof fields of a `{statement; prev_evals}` tree.
pub fn ocaml_proof_from_sexp(root: &Sexp) -> (r: Result<OcamlProof, String>)
    ensures
        match (r, ocaml_proof_spec(root@)) {
            (Ok(p), Some(v)) => p@ == v,
            (Err(_), None) => true,
            _ => false,
        },
        field_miss(root@, "statement"@) is Some ==> (r matches Err(m) && field_miss_message(
            m@,
            "statement"@,
            field_miss(root@, "statement"@)->Some_0,
        )),
{
    let statement = root.field("statement")?;
    let proof_state = statement.field("proof_state")?;
    let deferred = proof_state.field("deferred_values")?;

    let plonk = deferred.field("plonk")?;
    let raw_plonk = PlonkMinimal {
        alpha: challenge(plonk.field("alpha")?, FieldKind::Step)?,
        beta: challenge(plonk.field("beta")?, FieldKind::Step)?,
        gamma: challenge(plonk.field("gamma")?, FieldKind::Step)?,
        zeta: challenge(plonk.field("zeta")?, FieldKind::Step)?,
    };

    let raw_bulletproof_challenges = bulletproof_vec(deferred.field("bulletproof_challenges")?, STEP_IPA_ROUNDS, FieldKind::Step)?;

    let branch_data_s = deferred.field("branch_data")?;
    let step_domain_log2 = ocaml_byte_atom(branch_data_s.field("domain_log2")?)?;
    let branch_data = BranchData {
        domain_log2: small_field_bytes(step_domain_log2),
        proofs_verified_mask: proofs_verified_mask(branch_data_s.field("proofs_verified")?)?,
    };

    let sponge_digest_before_evaluations = combine_limbs_le(
        proof_state.field("sponge_digest_before_evaluations")?.as_list()?,
        FieldKind::Step,
    )?;

    let msg_wrap = proof_state.field("messages_for_next_wrap_proof")?;
    let challenge_polynomial_commitment = affine(msg_wrap.field("challenge_polynomial_commitment")?)?;

    let msg_step = statement.field("messages_for_next_step_proof")?;
    let prev_step_sgs = affine_list(msg_step.field("challenge_polynomial_commitments")?)?;
    let prev_step_chals_raw = bulletproof_rows(msg_step.field("old_bulletproof_challenges")?, STEP_IPA_ROUNDS, FieldKind::Step)?;
    let prev_wrap_chals_raw = bulletproof_rows(msg_wrap.field("old_bulletproof_challenges")?, WRAP_IPA_ROUNDS, FieldKind::Wrap)?;

    let prev_evals = parse_all_evals(root.field("prev_evals")?)?;
    let p_eval0_chunks = copy_fields(&prev_evals.public_evals.zeta);

    Ok(OcamlProof {
        raw_plonk,
        raw_bulletproof_challenges,
        branch_data,
        sponge_digest_before_evaluations,
        challenge_polynomial_commitment,
        step_domain_log2,
        prev_evals,
        p_eval0_chunks,
        prev_step_sgs,
        prev_step_chals_raw,
        prev_wrap_chals_raw,
    })
}


// ---------------------------------------------------------------------------
// The wrap proof
// ---------------------------------------------------------------------------

/// A list of exactly `n` affine points.
pub open spec fn affines_n_spec(s: SexpView, n: nat) -> Option<Seq<AffinePointView>> {
    match s {
        SexpView::List(items) => if items.len() == n {
            map_all(items, |x: SexpView| affine_spec(x))
        } else {
            None
        },
        SexpView::Atom(_) => None,
    }
}

/// A list of one-chunk evaluation pairs, of which there must be `n`.
pub open spec fn flat_evals_spec(s: SexpView, n: nat) -> Option<Seq<PointEvaluationsView>> {
    match list_spec(s, |x: SexpView| point_eval_flat_spec(x)) {
        Some(v) => if v.len() == n {
            Some(v)
        } else {
            None
        },
        None => None,
    }
}

/// `(l r)`: one round of the IPA opening.
pub open spec fn lr_pair_spec(s: SexpView) -> Option<(AffinePointView, AffinePointView)> {
    match s {
        SexpView::List(items) => if items.len() == 2 {
            match (affine_spec(items[0]), affine_spec(items[1])) {
                (Some(l), Some(r)) => Some((l, r)),
                _ => None,
            }
        } else {
            None
        },
        SexpView::Atom(_) => None,
    }
}

/// `proof.commitments`.
pub open spec fn commitments_spec(cs: SexpView) -> Option<ProverCommitmentsView> {
    match (
        field_then(cs, "w_comm"@, |x: SexpView| affines_n_spec(x, 15)),
        field_then(cs, "z_comm"@, |x: SexpView| affine_spec(x)),
        field_then(cs, "t_comm"@, |x: SexpView| affines_spec(x)),
    ) {
        (Some(w_comm), Some(z_comm), Some(t_comm)) => Some(ProverCommitmentsView { w_comm, z_comm, t_comm }),
        _ => None,
    }
}

/// `proof.bulletproof`.
pub open spec fn opening_spec(bp: SexpView) -> Option<OpeningProofView> {
    match (
        field_then(bp, "lr"@, |x: SexpView| list_spec(x, |p: SexpView| lr_pair_spec(p))),
        field_then(bp, "delta"@, |x: SexpView| affine_spec(x)),
        field_then(bp, "z_1"@, |x: SexpView| be_hex_atom_spec(x)),
        field_then(bp, "z_2"@, |x: SexpView| be_hex_atom_spec(x)),
        field_then(bp, "challenge_polynomial_commitment"@, |x: SexpView| affine_spec(x)),
    ) {
        (Some(lr), Some(delta), Some(z1), Some(z2), Some(sg)) => Some(OpeningProofView { lr, delta, z1, z2, sg }),
        _ => None,
    }
}

/// The six selector evaluations of `proof.evaluations`, in order.
pub open spec fn wrap_selectors_spec(ev: SexpView) -> Option<Seq<PointEvaluationsView>> {
    match (
        field_then(ev, "generic_selector"@, |x: SexpView| point_eval_flat_spec(x)),
        field_then(ev, "poseidon_selector"@, |x: SexpView| point_eval_flat_spec(x)),
        field_then(ev, "complete_add_selector"@, |x: SexpView| point_eval_flat_spec(x)),
        field_then(ev, "mul_selector"@, |x: SexpView| point_eval_flat_spec(x)),
        field_then(ev, "emul_selector"@, |x: SexpView| point_eval_flat_spec(x)),
        field_then(ev, "endomul_scalar_selector"@, |x: SexpView| point_eval_flat_spec(x)),
    ) {
        (Some(a), Some(b), Some(c), Some(d), Some(e), Some(f)) => Some(seq![a, b, c, d, e, f]),
        _ => None,
    }
}

/// `proof.evaluations`.
pub open spec fn wrap_evals_spec(ev: SexpView) -> Option<ProofEvaluationsView> {
    match (
        field_then(ev, "w"@, |x: SexpView| flat_evals_spec(x, 15)),
        field_then(ev, "coefficients"@, |x: SexpView| flat_evals_spec(x, 15)),
        field_then(ev, "z"@, |x: SexpView| point_eval_flat_spec(x)),
        field_then(ev, "s"@, |x: SexpView| flat_evals_spec(x, 6)),
        wrap_selectors_spec(ev),
    ) {
        (Some(w), Some(coefficients), Some(z), Some(s), Some(selectors)) => Some(
            ProofEvaluationsView { w, z, s, coefficients, selectors },
        ),
        _ => None,
    }
}

/// One row of a previous wrap proof's challenges: the raw prechallenges.
pub open spec fn raw_row_spec(row: SexpView) -> Option<Seq<Seq<u8>>> {
    list_spec(row, |e: SexpView| prechallenge_spec(e, FieldKind::Wrap))
}

/// `n` dummies, then the given values.
pub open spec fn front_padded<T>(given: Seq<T>) -> Seq<Option<T>> {
    Seq::new(if given.len() < 2 { (2 - given.len()) as nat } else { 0 }, |i: int| None::<T>) + given.map_values(
        |x: T| Some(x),
    )
}

/// The previous proofs' accumulators: the step commitments and the wrap
/// challenge rows, each front-padded with dummy entries to two, paired up.
pub open spec fn prev_challenges_spec(sgs: Seq<AffinePointView>, rows: Seq<Seq<Seq<u8>>>) -> Seq<RecursionChallengeView> {
    let a = front_padded(sgs);
    let b = front_padded(rows);
    Seq::new(
        if a.len() < b.len() { a.len() } else { b.len() },
        |i: int| RecursionChallengeView { comm: a[i], chals: b[i] },
    )
}

/// `statement.messages_for_next_step_proof.challenge_polynomial_commitments`
/// and `statement.proof_state.messages_for_next_wrap_proof.old_bulletproof_challenges`.
pub open spec fn prev_parts_spec(root: SexpView) -> Option<(Seq<AffinePointView>, Seq<Seq<Seq<u8>>>)> {
    match record_field(root, "statement"@) {
        Some(statement) => match (
            field_then(statement, "messages_for_next_step_proof"@, |m: SexpView| record_field(m, "challenge_polynomial_commitments"@)),
            field_then(statement, "proof_state"@, |ps: SexpView| field_then(ps, "messages_for_next_wrap_proof"@, |m: SexpView| record_field(m, "old_bulletproof_challenges"@))),
        ) {
            (Some(sgs_s), Some(rows_s)) => match (
                affines_spec(sgs_s),
                list_spec(rows_s, |r: SexpView| raw_row_spec(r)),
            ) {
                (Some(sgs), Some(rows)) => Some((sgs, rows)),
                _ => None,
            },
            _ => None,
        },
        None => None,
    }
}

/// The wrap proof read from a `{statement; prev_evals; proof}` tree.
pub open spec fn wrap_proof_spec(root: SexpView) -> Option<WrapProofView> {
    match record_field(root, "proof"@) {
        Some(proof) => match (
            field_then(proof, "commitments"@, |x: SexpView| commitments_spec(x)),
            field_then(proof, "bulletproof"@, |x: SexpView| opening_spec(x)),
            field_then(proof, "evaluations"@, |x: SexpView| wrap_evals_spec(x)),
            field_then(proof, "ft_eval1"@, |x: SexpView| be_hex_atom_spec(x)),
            prev_parts_spec(root),
        ) {
            (Some(commitments), Some(opening), Some(evals), Some(ft_eval1), Some(prev)) => Some(
                WrapProofView {
                    commitments,
                    proof: opening,
                    evals,
                    ft_eval1,
                    prev_challenges: prev_challenges_spec(prev.0, prev.1),
                },
            ),
            _ => None,
        },
        None => None,
    }
}


/// The views of optional points.
pub open spec fn opt_points_view(v: Seq<Option<AffinePoint>>) -> Seq<Option<AffinePointView>> {
    v.map_values(
        |o: Option<AffinePoint>|
            match o {
                Some(p) => Some(p@),
                None => None,
            },
    )
}

/// The views of optional challenge rows.
pub open spec fn opt_rows_view(v: Seq<Option<Vec<FieldBytes>>>) -> Seq<Option<Seq<Seq<u8>>>> {
    v.map_values(
        |o: Option<Vec<FieldBytes>>|
            match o {
                Some(r) => Some(fields_view(r@)),
                None => None,
            },
    )
}

/// `(x_hex y_hex)` → a one-chunk commitment.
fn point_pair_polycomm(s: &Sexp) -> (r: Result<AffinePoint, String>)
    ensures
        match (r, affine_spec(s@)) {
            (Ok(p), Some(v)) => p@ == v,
            (Err(_), None) => true,
            _ => false,
        },
{
    affine(s)
}

/// `(zeta_hex omega_hex)` → a one-chunk wrap evaluation pair.
fn pair_to_point_eval_wrap(s: &Sexp) -> (r: Result<PointEvaluations, String>)
    ensures
        match (r, point_eval_flat_spec(s@)) {
            (Ok(e), Some(v)) => e@ == v,
            (Err(_), None) => true,
            _ => false,
        },
{
    let items = s.as_list()?;
    proof {
        lemma_seq_view_index(items@);
    }
    if items.len() != 2 {
        return Err(text("wrap eval pair: expected (zeta omega)"));
    }
    let zeta = be_hex_atom(&items[0])?;
    let zeta_omega = be_hex_atom(&items[1])?;
    let e = PointEvaluations { zeta: vec![zeta], zeta_omega: vec![zeta_omega] };
    assert(fields_view(e.zeta@) =~= seq![e.zeta@[0]@]);
    assert(fields_view(e.zeta_omega@) =~= seq![e.zeta_omega@[0]@]);
    Ok(e)
}

/// A list of one-chunk wrap evaluation pairs, of which there must be `n`.
fn flat_evals(s: &Sexp, n: usize, what: &str) -> (r: Result<Vec<PointEvaluations>, String>)
    ensures
        match (r, flat_evals_spec(s@, n as nat)) {
            (Ok(v), Some(w)) => evals_view(v@) == w,
            (Err(_), None) => true,
            _ => false,
        },
{
    let items = s.as_list()?;
    let ghost views = sexp_seq_view(items@);
    let ghost f = |x: SexpView| point_eval_flat_spec(x);
    proof {
        lemma_seq_view_index(items@);
    }
    let mut out: Vec<PointEvaluations> = Vec::new();
    let mut i: usize = 0;
    while i < items.len()
        invariant
            s@ == SexpView::List(views),
            views == sexp_seq_view(items@),
            views.len() == items@.len(),
            forall|j: int| 0 <= j < items@.len() ==> #[trigger] views[j] == items@[j]@,
            f == (|x: SexpView| point_eval_flat_spec(x)),
            i <= items@.len(),
            map_all(views.take(i as int), f) == Some(evals_view(out@)),
        decreases items@.len() - i,
    {
        proof {
            lemma_map_all_step(views, f, i as int);
        }
        let e = match pair_to_point_eval_wrap(&items[i]) {
            Ok(e) => e,
            Err(m) => {
                proof {
                    lemma_map_all_prefix(views, f, i + 1);
                }
                return Err(m);
            },
        };
        let ghost prev = out@;
        let ghost ev = e@;
        out.push(e);
        assert(out@.drop_last() =~= prev);
        assert(evals_view(out@) =~= evals_view(prev).push(ev));
        i += 1;
    }
    assert(views.take(items@.len() as int) =~= views);
    if out.len() != n {
        return Err(join(what, " length"));
    }
    Ok(out)
}

/// "w_comm: expected 15 points, got m"
pub open spec fn w_comm_count_text(m: nat) -> Seq<char> {
    "w_comm: expected 15 points, got "@ + decimal_text(m)
}

/// The `w_comm` list of a `{statement; prev_evals; proof}` tree.
pub open spec fn w_comm_of(root: SexpView) -> Option<SexpView> {
    match record_field(root, "proof"@) {
        Some(proof) => match record_field(proof, "commitments"@) {
            Some(cs) => record_field(cs, "w_comm"@),
            None => None,
        },
        None => None,
    }
}

/// `w_comm`: exactly 15 points.
fn w_comm_points(s: &Sexp) -> (r: Result<Vec<AffinePoint>, String>)
    ensures
        match (r, affines_n_spec(s@, 15)) {
            (Ok(v), Some(w)) => points_view(v@) == w,
            (Err(_), None) => true,
            _ => false,
        },
        (s@ matches SexpView::List(items) && items.len() != 15) ==> (r matches Err(m) && m@ == w_comm_count_text(
            s@->List_0.len(),
        )),
{
    let items = s.as_list()?;
    let ghost views = sexp_seq_view(items@);
    let ghost f = |x: SexpView| affine_spec(x);
    proof {
        lemma_seq_view_index(items@);
    }
    if items.len() != 15 {
        return Err(join("w_comm: expected 15 points, got ", &decimal(items.len())));
    }
    assert(items@.len() == 15);
    let mut out: Vec<AffinePoint> = Vec::new();
    let mut i: usize = 0;
    while i < items.len()
        invariant
            s@ == SexpView::List(views),
            items@.len() == 15,
            views == sexp_seq_view(items@),
            views.len() == items@.len(),
            forall|j: int| 0 <= j < items@.len() ==> #[trigger] views[j] == items@[j]@,
            f == (|x: SexpView| affine_spec(x)),
            i <= items@.len(),
            map_all(views.take(i as int), f) == Some(points_view(out@)),
        decreases items@.len() - i,
    {
        proof {
            lemma_map_all_step(views, f, i as int);
        }
        let p = match point_pair_polycomm(&items[i]) {
            Ok(p) => p,
            Err(e) => {
                proof {
                    lemma_map_all_prefix(views, f, i + 1);
                }
                return Err(e);
            },
        };
        let ghost prev = out@;
        let ghost pv = p@;
        out.push(p);
        assert(out@.drop_last() =~= prev);
        assert(points_view(out@) =~= points_view(prev).push(pv));
        i += 1;
    }
    assert(views.take(items@.len() as int) =~= views);
    Ok(out)
}

/// `(l r)`: one round of the IPA opening.
fn lr_pair(pair: &Sexp) -> (r: Result<(AffinePoint, AffinePoint), String>)
    ensures
        match (r, lr_pair_spec(pair@)) {
            (Ok(p), Some(v)) => (p.0@, p.1@) == v,
            (Err(_), None) => true,
            _ => false,
        },
{
    let pair_items = pair.as_list()?;
    proof {
        lemma_seq_view_index(pair_items@);
    }
    if pair_items.len() != 2 {
        return Err(join3("lr pair: expected 2, got ", &decimal(pair_items.len()), ""));
    }
    let l = affine(&pair_items[0])?;
    let r = affine(&pair_items[1])?;
    Ok((l, r))
}

/// `lr`: the rounds of the IPA opening.
fn lr_list(s: &Sexp) -> (r: Result<Vec<(AffinePoint, AffinePoint)>, String>)
    ensures
        match (r, list_spec(s@, |p: SexpView| lr_pair_spec(p))) {
            (Ok(v), Some(w)) => pairs_view(v@) == w,
            (Err(_), None) => true,
            _ => false,
        },
{
    let items = s.as_list()?;
    let ghost views = sexp_seq_view(items@);
    let ghost f = |p: SexpView| lr_pair_spec(p);
    proof {
        lemma_seq_view_index(items@);
    }
    let mut out: Vec<(AffinePoint, AffinePoint)> = Vec::new();
    let mut i: usize = 0;
    while i < items.len()
        invariant
            s@ == SexpView::List(views),
            views == sexp_seq_view(items@),
            views.len() == items@.len(),
            forall|j: int| 0 <= j < items@.len() ==> #[trigger] views[j] == items@[j]@,
            f == (|p: SexpView| lr_pair_spec(p)),
            i <= items@.len(),
            map_all(views.take(i as int), f) == Some(pairs_view(out@)),
        decreases items@.len() - i,
    {
        proof {
            lemma_map_all_step(views, f, i as int);
        }
        let p = match lr_pair(&items[i]) {
            Ok(p) => p,
            Err(e) => {
                proof {
                    lemma_map_all_prefix(views, f, i + 1);
                }
                return Err(e);
            },
        };
        let ghost prev = out@;
        let ghost pv = (p.0@, p.1@);
        out.push(p);
        assert(out@.drop_last() =~= prev);
        assert(pairs_view(out@) =~= pairs_view(prev).push(pv));
        i += 1;
    }
    assert(views.take(items@.len() as int) =~= views);
    Ok(out)
}

/// One row of a previous wrap proof's raw prechallenges.
fn raw_row(row: &Sexp) -> (r: Result<Vec<FieldBytes>, String>)
    ensures
        match (r, raw_row_spec(row@)) {
            (Ok(v), Some(w)) => fields_view(v@) == w,
            (Err(_), None) => true,
            _ => false,
        },
{
    let items = row.as_list()?;
    let ghost views = sexp_seq_view(items@);
    let ghost f = |e: SexpView| prechallenge_spec(e, FieldKind::Wrap);
    proof {
        lemma_seq_view_index(items@);
    }
    let mut out: Vec<FieldBytes> = Vec::new();
    let mut i: usize = 0;
    while i < items.len()
        invariant
            row@ == SexpView::List(views),
            views == sexp_seq_view(items@),
            views.len() == items@.len(),
            forall|j: int| 0 <= j < items@.len() ==> #[trigger] views[j] == items@[j]@,
            f == (|e: SexpView| prechallenge_spec(e, FieldKind::Wrap)),
            i <= items@.len(),
            map_all(views.take(i as int), f) == Some(fields_view(out@)),
        decreases items@.len() - i,
    {
        proof {
            lemma_map_all_step(views, f, i as int);
        }
        let prechal = match items[i].field("prechallenge") {
            Ok(p) => p,
            Err(e) => {
                proof {
                    lemma_map_all_prefix(views, f, i + 1);
                }
                return Err(e);
            },
        };
        let c = match challenge(prechal, FieldKind::Wrap) {
            Ok(c) => c,
            Err(e) => {
                proof {
                    lemma_map_all_prefix(views, f, i + 1);
                }
                return Err(e);
            },
        };
        let ghost prev = out@;
        out.push(c);
        assert(out@.drop_last() =~= prev);
        assert(fields_view(out@) =~= fields_view(prev).push(c@));
        i += 1;
    }
    assert(views.take(items@.len() as int) =~= views);
    Ok(out)
}

/// The previous step commitments, front-padded with dummies to two.
fn padded_commitments(items: &[Sexp]) -> (r: Result<Vec<Option<AffinePoint>>, String>)
    ensures
        match (r, map_all(sexp_seq_view(items@), |x: SexpView| affine_spec(x))) {
            (Ok(v), Some(w)) => opt_points_view(v@) == front_padded(w),
            (Err(_), None) => true,
            _ => false,
        },
{
    let ghost views = sexp_seq_view(items@);
    let ghost f = |x: SexpView| affine_spec(x);
    proof {
        lemma_seq_view_index(items@);
    }
    let n = items.len();
    let pad: usize = if n < 2 {
        2 - n
    } else {
        0
    };
    let mut out: Vec<Option<AffinePoint>> = Vec::new();
    let mut k: usize = 0;
    while k < pad
        invariant
            k <= pad,
            opt_points_view(out@) =~= Seq::new(k as nat, |i: int| None::<AffinePointView>),
        decreases pad - k,
    {
        let ghost prev = out@;
        out.push(None);
        assert(out@.drop_last() =~= prev);
        assert(opt_points_view(out@) =~= opt_points_view(prev).push(None));
        k += 1;
    }
    let ghost dummies = opt_points_view(out@);
    let mut i: usize = 0;
    while i < n
        invariant
            n == items@.len(),
            views == sexp_seq_view(items@),
            views.len() == items@.len(),
            forall|j: int| 0 <= j < items@.len() ==> #[trigger] views[j] == items@[j]@,
            f == (|x: SexpView| affine_spec(x)),
            dummies == Seq::new(pad as nat, |i: int| None::<AffinePointView>),
            pad == (if n < 2 { 2 - n } else { 0 }),
            i <= n,
            map_all(views.take(i as int), f) matches Some(w) && opt_points_view(out@) == dummies
                + w.map_values(|x: AffinePointView| Some(x)),
        decreases n - i,
    {
        proof {
            lemma_map_all_step(views, f, i as int);
        }
        let p = match point_pair_polycomm(&items[i]) {
            Ok(p) => p,
            Err(e) => {
                proof {
                    lemma_map_all_prefix(views, f, i + 1);
                }
                return Err(e);
            },
        };
        let ghost prev = out@;
        let ghost pv = p@;
        let ghost w = map_all(views.take(i as int), f).unwrap();
        out.push(Some(p));
        assert(out@.drop_last() =~= prev);
        assert(opt_points_view(out@) =~= opt_points_view(prev).push(Some(pv)));
        assert(w.push(pv).map_values(|x: AffinePointView| Some(x)) =~= w.map_values(
            |x: AffinePointView| Some(x),
        ).push(Some(pv)));
        i += 1;
    }
    assert(views.take(n as int) =~= views);
    proof {
        lemma_map_all_len(views, f);
    }
    Ok(out)
}

/// The previous wrap challenge rows, front-padded with dummies to two.
fn padded_rows(items: &[Sexp]) -> (r: Result<Vec<Option<Vec<FieldBytes>>>, String>)
    ensures
        match (r, map_all(sexp_seq_view(items@), |x: SexpView| raw_row_spec(x))) {
            (Ok(v), Some(w)) => opt_rows_view(v@) == front_padded(w),
            (Err(_), None) => true,
            _ => false,
        },
{
    let ghost views = sexp_seq_view(items@);
    let ghost f = |x: SexpView| raw_row_spec(x);
    proof {
        lemma_seq_view_index(items@);
    }
    let n = items.len();
    let pad: usize = if n < 2 {
        2 - n
    } else {
        0
    };
    let mut out: Vec<Option<Vec<FieldBytes>>> = Vec::new();
    let mut k: usize = 0;
    while k < pad
        invariant
            k <= pad,
            opt_rows_view(out@) =~= Seq::new(k as nat, |i: int| None::<Seq<Seq<u8>>>),
        decreases pad - k,
    {
        let ghost prev = out@;
        out.push(None);
        assert(out@.drop_last() =~= prev);
        assert(opt_rows_view(out@) =~= opt_rows_view(prev).push(None));
        k += 1;
    }
    let ghost dummies = opt_rows_view(out@);
    let mut i: usize = 0;
    while i < n
        invariant
            n == items@.len(),
            views == sexp_seq_view(items@),
            views.len() == items@.len(),
            forall|j: int| 0 <= j < items@.len() ==> #[trigger] views[j] == items@[j]@,
            f == (|x: SexpView| raw_row_spec(x)),
            dummies == Seq::new(pad as nat, |i: int| None::<Seq<Seq<u8>>>),
            pad == (if n < 2 { 2 - n } else { 0 }),
            i <= n,
            map_all(views.take(i as int), f) matches Some(w) && opt_rows_view(out@) == dummies
                + w.map_values(|x: Seq<Seq<u8>>| Some(x)),
        decreases n - i,
    {
        proof {
            lemma_map_all_step(views, f, i as int);
        }
        let row = match raw_row(&items[i]) {
            Ok(row) => row,
            Err(e) => {
                proof {
                    lemma_map_all_prefix(views, f, i + 1);
                }
                return Err(e);
            },
        };
        let ghost prev = out@;
        let ghost rv = fields_view(row@);
        let ghost w = map_all(views.take(i as int), f).unwrap();
        out.push(Some(row));
        assert(out@.drop_last() =~= prev);
        assert(opt_rows_view(out@) =~= opt_rows_view(prev).push(Some(rv)));
        assert(w.push(rv).map_values(|x: Seq<Seq<u8>>| Some(x)) =~= w.map_values(
            |x: Seq<Seq<u8>>| Some(x),
        ).push(Some(rv)));
        i += 1;
    }
    assert(views.take(n as int) =~= views);
    proof {
        lemma_map_all_len(views, f);
    }
    Ok(out)
}

/// Pair the padded commitments with the padded challenge rows.
pub(crate) fn zip_challenges(sgs: Vec<Option<AffinePoint>>, rows: Vec<Option<Vec<FieldBytes>>>) -> (r: Vec<RecursionChallenge>)
    ensures
        challenges_view(r@) == Seq::new(
            if sgs@.len() < rows@.len() { sgs@.len() } else { rows@.len() },
            |i: int| RecursionChallengeView { comm: opt_points_view(sgs@)[i], chals: opt_rows_view(rows@)[i] },
        ),
{
    let ghost a = opt_points_view(sgs@);
    let ghost b = opt_rows_view(rows@);
    assert(a.len() == sgs@.len() && b.len() == rows@.len());
    let m = if sgs.len() < rows.len() {
        sgs.len()
    } else {
        rows.len()
    };
    let mut sgs = sgs;
    let mut rows = rows;
    let mut out: Vec<RecursionChallenge> = Vec::new();
    let mut k: usize = 0;
    while k < m
        invariant
            k <= m,
            m <= a.len(),
            m <= b.len(),
            sgs@.len() == a.len() - k,
            rows@.len() == b.len() - k,
            opt_points_view(sgs@) =~= a.skip(k as int),
            opt_rows_view(rows@) =~= b.skip(k as int),
            challenges_view(out@) =~= Seq::new(
                k as nat,
                |i: int| RecursionChallengeView { comm: a[i], chals: b[i] },
            ),
        decreases m - k,
    {
        let ghost s0 = sgs@;
        let ghost r0 = rows@;
        let comm = sgs.remove(0);
        let chals = rows.remove(0);
        assert(opt_points_view(s0)[0] == a[k as int]);
        assert(opt_rows_view(r0)[0] == b[k as int]);
        assert(opt_points_view(sgs@) =~= opt_points_view(s0).drop_first());
        assert(opt_rows_view(rows@) =~= opt_rows_view(r0).drop_first());
        let c = RecursionChallenge { comm, chals };
        let ghost cv = c@;
        assert(cv == RecursionChallengeView { comm: a[k as int], chals: b[k as int] });
        let ghost prev = out@;
        out.push(c);
        assert(out@.drop_last() =~= prev);
        assert(challenges_view(out@) =~= challenges_view(prev).push(cv));
        k += 1;
    }
    out
}


/// Read the wrap proof of a `{statement; prev_evals; proof}` tree. The
/// previous-proof accumulators are front-padded with dummy entries to two
/// (the tree leaves out the dummy entries that the bin_prot form keeps).
pub fn to_wrap_proof(root: &Sexp) -> (r: Result<WrapProof, String>)
    ensures
        match (r, wrap_proof_spec(root@)) {
            (Ok(p), Some(v)) => p@ == v,
            (Err(_), None) => true,
            _ => false,
        },
        field_miss(root@, "proof"@) is Some ==> (r matches Err(m) && field_miss_message(
            m@,
            "proof"@,
            field_miss(root@, "proof"@)->Some_0,
        )),
        (w_comm_of(root@) matches Some(SexpView::List(items)) && items.len() != 15) ==> (r matches Err(m) && m@
            == w_comm_count_text(w_comm_of(root@)->Some_0->List_0.len())),
{
    let proof = root.field("proof")?;
    let commitments_s = proof.field("commitments")?;

    // w_comm: 15 points; z_comm: a single point; t_comm: one commitment with
    // a chunk per point.
    let w_comm = w_comm_points(commitments_s.field("w_comm")?)?;
    let z_comm = point_pair_polycomm(commitments_s.field("z_comm")?)?;
    let t_comm = affine_list(commitments_s.field("t_comm")?)?;
    let commitments = ProverCommitments { w_comm, z_comm, t_comm };

    // ----- OpeningProof
    let bp = proof.field("bulletproof")?;
    let lr = lr_list(bp.field("lr")?)?;
    let delta = affine(bp.field("delta")?)?;
    let z1 = be_hex_atom(bp.field("z_1")?)?;
    let z2 = be_hex_atom(bp.field("z_2")?)?;
    let sg = affine(bp.field("challenge_polynomial_commitment")?)?;
    let opening = OpeningProof { lr, delta, z1, z2, sg };

    // ----- Evaluations
    let ev = proof.field("evaluations")?;
    let w_evals = flat_evals(ev.field("w")?, 15, "w evals")?;
    let coeff_evals = flat_evals(ev.field("coefficients")?, 15, "coefficient evals")?;
    let z_eval = pair_to_point_eval_wrap(ev.field("z")?)?;
    let s_evals = flat_evals(ev.field("s")?, 6, "s evals")?;
    let evals = ProofEvaluations {
        w: w_evals,
        z: z_eval,
        s: s_evals,
        coefficients: coeff_evals,
        generic_selector: pair_to_point_eval_wrap(ev.field("generic_selector")?)?,
        poseidon_selector: pair_to_point_eval_wrap(ev.field("poseidon_selector")?)?,
        complete_add_selector: pair_to_point_eval_wrap(ev.field("complete_add_selector")?)?,
        mul_selector: pair_to_point_eval_wrap(ev.field("mul_selector")?)?,
        emul_selector: pair_to_point_eval_wrap(ev.field("emul_selector")?)?,
        endomul_scalar_selector: pair_to_point_eval_wrap(ev.field("endomul_scalar_selector")?)?,
    };

    let ft_eval1 = be_hex_atom(proof.field("ft_eval1")?)?;

    // ----- prev_challenges: the step commitments and the wrap challenge rows,
    // each front-padded with dummies to two, zipped.
    let statement = root.field("statement")?;
    let prev_step_sgs_s = statement.field("messages_for_next_step_proof")?.field(
        "challenge_polynomial_commitments",
    )?.as_list()?;
    let prev_wrap_rows_s = statement.field("proof_state")?.field("messages_for_next_wrap_proof")?.field(
        "old_bulletproof_challenges",
    )?.as_list()?;
    let padded_sgs = padded_commitments(prev_step_sgs_s)?;
    let chal_rows = padded_rows(prev_wrap_rows_s)?;
    let prev_challenges = zip_challenges(padded_sgs, chal_rows);

    Ok(WrapProof { commitments, proof: opening, evals, ft_eval1, prev_challenges })
}


// ---------------------------------------------------------------------------
// Laws
// ---------------------------------------------------------------------------

/// The proofs-verified mask is a prefix mask: a proof that verifies two
/// previous proofs verifies the last one too (`[true, false]` never occurs).
pub proof fn lemma_mask_is_prefix(s: SexpView)
    ensures
        mask_spec(s) matches Some(m) ==> (m[0] ==> m[1]),
        mask_spec(s) matches Some(m) ==> ((m[0] as int) + (m[1] as int) <= 2),
{
}

/// A challenge reads the same whether written raw, `(l1 l2 ...)`, or as a
/// scalar challenge, `((inner (l1 l2 ...)))`: the same value, or the same
/// error, which is that of reading the limbs.
pub proof fn lemma_challenge_forms_agree(limbs: Seq<SexpView>, k: FieldKind)
    requires
        limbs.len() == 0 || limbs[0] is Atom,
    ensures
        challenge_spec(
            SexpView::List(seq![SexpView::List(seq![SexpView::Atom("inner"@), SexpView::List(limbs)])]),
            k,
        ) == challenge_spec(SexpView::List(limbs), k),
        challenge_spec(SexpView::List(limbs), k) == limbs_field(limbs, k),
        challenge_error(
            SexpView::List(seq![SexpView::List(seq![SexpView::Atom("inner"@), SexpView::List(limbs)])]),
        ) == challenge_error(SexpView::List(limbs)),
        challenge_error(SexpView::List(limbs)) == limbs_error(limbs, 0),
{
}

/// Every field element read from limbs is 32 bytes long.
pub proof fn lemma_limbs_field_len(atoms: Seq<SexpView>, k: FieldKind)
    ensures
        limbs_field(atoms, k) matches Some(b) ==> b.len() == 32,
{
}

/// Every field element read as a challenge or as big-endian hex is 32 bytes
/// long.
pub proof fn lemma_field_readings_len(s: SexpView, k: FieldKind)
    ensures
        challenge_spec(s, k) matches Some(b) ==> b.len() == 32,
        be_hex_atom_spec(s) matches Some(b) ==> b.len() == 32,
{
}

/// With at most two previous proofs, the wrap proof carries exactly two
/// accumulators: first a dummy commitment for each missing previous proof,
/// then the given commitments in order; and likewise for the challenges.
pub proof fn lemma_prev_challenges_padded(sgs: Seq<AffinePointView>, rows: Seq<Seq<Seq<u8>>>)
    requires
        sgs.len() <= 2,
        rows.len() <= 2,
    ensures
        prev_challenges_spec(sgs, rows).len() == 2,
        forall|i: int| 0 <= i < 2 - sgs.len() ==> #[trigger] prev_challenges_spec(sgs, rows)[i].comm is None,
        forall|i: int|
            2 - sgs.len() <= i < 2 ==> #[trigger] prev_challenges_spec(sgs, rows)[i].comm == Some(
                sgs[i - (2 - sgs.len())],
            ),
        forall|i: int| 0 <= i < 2 - rows.len() ==> #[trigger] prev_challenges_spec(sgs, rows)[i].chals is None,
        forall|i: int|
            2 - rows.len() <= i < 2 ==> #[trigger] prev_challenges_spec(sgs, rows)[i].chals == Some(
                rows[i - (2 - rows.len())],
            ),
{
}


/// A reading over a sequence, where it succeeds, reads element `i` of the
/// sequence into element `i` of the result.
pub proof fn lemma_map_all_index<A, B>(s: Seq<A>, f: spec_fn(A) -> Option<B>)
    ensures
        map_all(s, f) matches Some(bs) ==> bs.len() == s.len() && forall|i: int|
            0 <= i < s.len() ==> Some(#[trigger] bs[i]) == f(s[i]),
    decreases s.len(),
{
    if s.len() > 0 {
        lemma_map_all_index(s.drop_last(), f);
        if let Some(bs) = map_all(s, f) {
            let prev = map_all(s.drop_last(), f).unwrap();
            assert(bs == prev.push(f(s.last()).unwrap()));
            assert forall|i: int| 0 <= i < s.len() implies Some(#[trigger] bs[i]) == f(s[i]) by {
                if i < s.len() - 1 {
                    assert(bs[i] == prev[i]);
                    assert(s.drop_last()[i] == s[i]);
                }
            }
        }
    }
}

/// Every element of a list reads in its place: element `i` of the reading
/// is element `i` of the list read alone.
pub proof fn lemma_list_reads_in_place<T>(s: SexpView, f: spec_fn(SexpView) -> Option<T>)
    ensures
        list_spec(s, f) matches Some(v) ==> (s is List && v.len() == s->List_0.len() && forall|i: int|
            0 <= i < v.len() ==> Some(#[trigger] v[i]) == f(s->List_0[i])),
{
    if let SexpView::List(items) = s {
        lemma_map_all_index(items, f);
    }
}

/// A point `(x y)` reads its first atom as `x` and its second as `y`; an
/// evaluation pair `(a b)` reads `a` as the evaluation at `zeta` and `b` as
/// the one at `zeta * omega`, for one chunk each or for chunk lists alike.
pub proof fn lemma_pairs_read_in_order(s: SexpView)
    ensures
        affine_spec(s) matches Some(p) ==> (s is List && s->List_0.len() == 2 && be_hex_atom_spec(s->List_0[0])
            == Some(p.x) && be_hex_atom_spec(s->List_0[1]) == Some(p.y)),
        point_eval_flat_spec(s) matches Some(e) ==> (s is List && s->List_0.len() == 2 && be_hex_atom_spec(
            s->List_0[0],
        ) == Some(e.zeta[0]) && be_hex_atom_spec(s->List_0[1]) == Some(e.zeta_omega[0]) && e.zeta.len() == 1
            && e.zeta_omega.len() == 1),
        point_eval_chunked_spec(s) matches Some(e) ==> (s is List && s->List_0.len() == 2 && chunks_spec(
            s->List_0[0],
        ) == Some(e.zeta) && chunks_spec(s->List_0[1]) == Some(e.zeta_omega)),
        lr_pair_spec(s) matches Some(lr) ==> (s is List && s->List_0.len() == 2 && affine_spec(s->List_0[0])
            == Some(lr.0) && affine_spec(s->List_0[1]) == Some(lr.1)),
{
}

/// The proof fields read each value from the entry of its own name: the
/// four Plonk challenges from `alpha`, `beta`, `gamma` and `zeta` of
/// `deferred_values.plonk`, the bulletproof challenges, the branch data and
/// the sponge digest from theirs, the commitments and challenge rows from
/// the messages for the next wrap and step proofs, and the previous
/// evaluations from `prev_evals`.
pub proof fn lemma_proof_fields_by_name(
    root: SexpView,
    st: SexpView,
    ps: SexpView,
    dv: SexpView,
    plonk: SexpView,
    bd: SexpView,
    msg_wrap: SexpView,
    msg_step: SexpView,
)
    requires
        record_field(root, "statement"@) == Some(st),
        record_field(st, "proof_state"@) == Some(ps),
        record_field(ps, "deferred_values"@) == Some(dv),
        record_field(dv, "plonk"@) == Some(plonk),
        record_field(dv, "branch_data"@) == Some(bd),
        record_field(ps, "messages_for_next_wrap_proof"@) == Some(msg_wrap),
        record_field(st, "messages_for_next_step_proof"@) == Some(msg_step),
    ensures
        ocaml_proof_spec(root) matches Some(o) ==> field_then(plonk, "alpha"@, |x: SexpView| challenge_spec(x, FieldKind::Step))
            == Some(o.raw_plonk.alpha),
        ocaml_proof_spec(root) matches Some(o) ==> field_then(plonk, "beta"@, |x: SexpView| challenge_spec(x, FieldKind::Step))
            == Some(o.raw_plonk.beta),
        ocaml_proof_spec(root) matches Some(o) ==> field_then(plonk, "gamma"@, |x: SexpView| challenge_spec(x, FieldKind::Step))
            == Some(o.raw_plonk.gamma),
        ocaml_proof_spec(root) matches Some(o) ==> field_then(plonk, "zeta"@, |x: SexpView| challenge_spec(x, FieldKind::Step))
            == Some(o.raw_plonk.zeta),
        ocaml_proof_spec(root) matches Some(o) ==> field_then(
            dv,
            "bulletproof_challenges"@,
            |x: SexpView| bulletproof_spec(x, 16, FieldKind::Step),
        ) == Some(o.raw_bulletproof_challenges),
        ocaml_proof_spec(root) matches Some(o) ==> field_then(bd, "domain_log2"@, |x: SexpView| byte_atom_spec(x))
            == Some(o.step_domain_log2) && o.branch_data.domain_log2 == small_field(o.step_domain_log2),
        ocaml_proof_spec(root) matches Some(o) ==> field_then(bd, "proofs_verified"@, |x: SexpView| mask_spec(x))
            == Some(o.branch_data.proofs_verified_mask),
        ocaml_proof_spec(root) matches Some(o) ==> field_then(
            ps,
            "sponge_digest_before_evaluations"@,
            |x: SexpView| limbs_list_spec(x, FieldKind::Step),
        ) == Some(o.sponge_digest_before_evaluations),
        ocaml_proof_spec(root) matches Some(o) ==> field_then(
            msg_wrap,
            "challenge_polynomial_commitment"@,
            |x: SexpView| affine_spec(x),
        ) == Some(o.challenge_polynomial_commitment),
        ocaml_proof_spec(root) matches Some(o) ==> field_then(
            msg_step,
            "challenge_polynomial_commitments"@,
            |x: SexpView| affines_spec(x),
        ) == Some(o.prev_step_sgs),
        ocaml_proof_spec(root) matches Some(o) ==> field_then(
            msg_step,
            "old_bulletproof_challenges"@,
            |x: SexpView| bp_rows_spec(x, 16, FieldKind::Step),
        ) == Some(o.prev_step_chals_raw),
        ocaml_proof_spec(root) matches Some(o) ==> field_then(
            msg_wrap,
            "old_bulletproof_challenges"@,
            |x: SexpView| bp_rows_spec(x, 15, FieldKind::Wrap),
        ) == Some(o.prev_wrap_chals_raw),
        ocaml_proof_spec(root) matches Some(o) ==> field_then(root, "prev_evals"@, |x: SexpView| all_evals_spec(x))
            == Some(o.prev_evals) && o.p_eval0_chunks == o.prev_evals.public_evals.zeta,
{
}

/// The previous evaluations read each value from the entry of its own
/// name: `ft_eval1`, the public input, `z`, the `w`, `coefficients` and `s`
/// columns, and the six index selectors in the order generic, poseidon,
/// complete_add, mul, emul, endomul_scalar.
pub proof fn lemma_prev_evals_by_name(pe: SexpView, outer: SexpView, inner: SexpView)
    requires
        record_field(pe, "evals"@) == Some(outer),
        record_field(outer, "evals"@) == Some(inner),
    ensures
        all_evals_spec(pe) matches Some(e) ==> field_then(pe, "ft_eval1"@, |x: SexpView| be_hex_atom_spec(x))
            == Some(e.ft_eval1),
        all_evals_spec(pe) matches Some(e) ==> field_then(outer, "public_input"@, |x: SexpView| point_eval_flat_spec(x))
            == Some(e.public_evals),
        all_evals_spec(pe) matches Some(e) ==> field_then(inner, "z"@, |x: SexpView| point_eval_chunked_spec(x))
            == Some(e.z),
        all_evals_spec(pe) matches Some(e) ==> field_then(inner, "w"@, |x: SexpView| fixed_chunked_spec(x, 15))
            == Some(e.w),
        all_evals_spec(pe) matches Some(e) ==> field_then(
            inner,
            "coefficients"@,
            |x: SexpView| fixed_chunked_spec(x, 15),
        ) == Some(e.coefficients),
        all_evals_spec(pe) matches Some(e) ==> field_then(inner, "s"@, |x: SexpView| fixed_chunked_spec(x, 6))
            == Some(e.s),
        all_evals_spec(pe) matches Some(e) ==> e.index.len() == 6 && field_then(
            inner,
            "generic_selector"@,
            |x: SexpView| point_eval_chunked_spec(x),
        ) == Some(e.index[0]) && field_then(inner, "poseidon_selector"@, |x: SexpView| point_eval_chunked_spec(x))
            == Some(e.index[1]) && field_then(
            inner,
            "complete_add_selector"@,
            |x: SexpView| point_eval_chunked_spec(x),
        ) == Some(e.index[2]) && field_then(inner, "mul_selector"@, |x: SexpView| point_eval_chunked_spec(x))
            == Some(e.index[3]) && field_then(inner, "emul_selector"@, |x: SexpView| point_eval_chunked_spec(x))
            == Some(e.index[4]) && field_then(
            inner,
            "endomul_scalar_selector"@,
            |x: SexpView| point_eval_chunked_spec(x),
        ) == Some(e.index[5]),
{
}

/// The wrap proof reads each value from the entry of its own name: the
/// opening proof's `z_1`, `z_2`, `delta`, challenge polynomial commitment
/// and `lr` rounds, the commitments `w_comm`, `z_comm` and `t_comm`,
/// `ft_eval1`, and the evaluations `w`, `coefficients`, `z`, `s` and the six
/// selectors in the order generic, poseidon, complete_add, mul, emul,
/// endomul_scalar.
pub proof fn lemma_wrap_proof_by_name(root: SexpView, proof: SexpView, bp: SexpView, cs: SexpView, ev: SexpView)
    requires
        record_field(root, "proof"@) == Some(proof),
        record_field(proof, "bulletproof"@) == Some(bp),
        record_field(proof, "commitments"@) == Some(cs),
        record_field(proof, "evaluations"@) == Some(ev),
    ensures
        wrap_proof_spec(root) matches Some(w) ==> field_then(bp, "z_1"@, |x: SexpView| be_hex_atom_spec(x))
            == Some(w.proof.z1),
        wrap_proof_spec(root) matches Some(w) ==> field_then(bp, "z_2"@, |x: SexpView| be_hex_atom_spec(x))
            == Some(w.proof.z2),
        wrap_proof_spec(root) matches Some(w) ==> field_then(bp, "delta"@, |x: SexpView| affine_spec(x))
            == Some(w.proof.delta),
        wrap_proof_spec(root) matches Some(w) ==> field_then(
            bp,
            "challenge_polynomial_commitment"@,
            |x: SexpView| affine_spec(x),
        ) == Some(w.proof.sg),
        wrap_proof_spec(root) matches Some(w) ==> field_then(
            bp,
            "lr"@,
            |x: SexpView| list_spec(x, |p: SexpView| lr_pair_spec(p)),
        ) == Some(w.proof.lr),
        wrap_proof_spec(root) matches Some(w) ==> field_then(cs, "w_comm"@, |x: SexpView| affines_n_spec(x, 15))
            == Some(w.commitments.w_comm),
        wrap_proof_spec(root) matches Some(w) ==> field_then(cs, "z_comm"@, |x: SexpView| affine_spec(x))
            == Some(w.commitments.z_comm),
        wrap_proof_spec(root) matches Some(w) ==> field_then(cs, "t_comm"@, |x: SexpView| affines_spec(x))
            == Some(w.commitments.t_comm),
        wrap_proof_spec(root) matches Some(w) ==> field_then(proof, "ft_eval1"@, |x: SexpView| be_hex_atom_spec(x))
            == Some(w.ft_eval1),
        wrap_proof_spec(root) matches Some(w) ==> field_then(ev, "w"@, |x: SexpView| flat_evals_spec(x, 15))
            == Some(w.evals.w),
        wrap_proof_spec(root) matches Some(w) ==> field_then(ev, "coefficients"@, |x: SexpView| flat_evals_spec(x, 15))
            == Some(w.evals.coefficients),
        wrap_proof_spec(root) matches Some(w) ==> field_then(ev, "z"@, |x: SexpView| point_eval_flat_spec(x))
            == Some(w.evals.z),
        wrap_proof_spec(root) matches Some(w) ==> field_then(ev, "s"@, |x: SexpView| flat_evals_spec(x, 6))
            == Some(w.evals.s),
        wrap_proof_spec(root) matches Some(w) ==> w.evals.selectors.len() == 6 && field_then(
            ev,
            "generic_selector"@,
            |x: SexpView| point_eval_flat_spec(x),
        ) == Some(w.evals.selectors[0]) && field_then(ev, "poseidon_selector"@, |x: SexpView| point_eval_flat_spec(x))
            == Some(w.evals.selectors[1]) && field_then(
            ev,
            "complete_add_selector"@,
            |x: SexpView| point_eval_flat_spec(x),
        ) == Some(w.evals.selectors[2]) && field_then(ev, "mul_selector"@, |x: SexpView| point_eval_flat_spec(x))
            == Some(w.evals.selectors[3]) && field_then(ev, "emul_selector"@, |x: SexpView| point_eval_flat_spec(x))
            == Some(w.evals.selectors[4]) && field_then(
            ev,
            "endomul_scalar_selector"@,
            |x: SexpView| point_eval_flat_spec(x),
        ) == Some(w.evals.selectors[5]),
{
}


/// The list readings read every element in its place: element `i` of the
/// result is element `i` of the list read alone (a bulletproof challenge
/// from its `prechallenge` entry, a point, a one-chunk or chunked
/// evaluation pair, a chunk, a row of challenges), with the fixed counts
/// where one is asked for.
pub proof fn lemma_lists_read_in_place(s: SexpView, n: nat, k: FieldKind)
    ensures
        prechallenge_spec(s, k) == field_then(s, "prechallenge"@, |p: SexpView| challenge_spec(p, k)),
        bulletproof_spec(s, n, k) matches Some(v) ==> (s is List && s->List_0.len() == n && v.len() == n
            && forall|i: int| 0 <= i < n ==> Some(#[trigger] v[i]) == prechallenge_spec(s->List_0[i], k)),
        bp_rows_spec(s, n, k) matches Some(v) ==> (s is List && v.len() == s->List_0.len() && forall|i: int|
            0 <= i < v.len() ==> Some(#[trigger] v[i]) == bulletproof_spec(s->List_0[i], n, k)),
        raw_row_spec(s) matches Some(v) ==> (s is List && v.len() == s->List_0.len() && forall|i: int|
            0 <= i < v.len() ==> Some(#[trigger] v[i]) == prechallenge_spec(s->List_0[i], FieldKind::Wrap)),
        affines_spec(s) matches Some(v) ==> (s is List && v.len() == s->List_0.len() && forall|i: int|
            0 <= i < v.len() ==> Some(#[trigger] v[i]) == affine_spec(s->List_0[i])),
        affines_n_spec(s, n) matches Some(v) ==> (s is List && v.len() == n && s->List_0.len() == n && forall|i: int|
            0 <= i < v.len() ==> Some(#[trigger] v[i]) == affine_spec(s->List_0[i])),
        flat_evals_spec(s, n) matches Some(v) ==> (s is List && v.len() == n && s->List_0.len() == n && forall|i: int|
            0 <= i < v.len() ==> Some(#[trigger] v[i]) == point_eval_flat_spec(s->List_0[i])),
        fixed_chunked_spec(s, n) matches Some(v) ==> (s is List && v.len() == n && s->List_0.len() == n && forall|i: int|
            0 <= i < v.len() ==> Some(#[trigger] v[i]) == point_eval_chunked_spec(s->List_0[i])),
        chunks_spec(s) matches Some(v) ==> (s is List && v.len() == s->List_0.len() && forall|i: int|
            0 <= i < v.len() ==> Some(#[trigger] v[i]) == be_hex_atom_spec(s->List_0[i])),
{
    if let SexpView::List(items) = s {
        lemma_map_all_index(items, |it: SexpView| prechallenge_spec(it, k));
        lemma_map_all_index(items, |r: SexpView| bulletproof_spec(r, n, k));
        lemma_map_all_index(items, |e: SexpView| prechallenge_spec(e, FieldKind::Wrap));
        lemma_map_all_index(items, |x: SexpView| affine_spec(x));
        lemma_map_all_index(items, |x: SexpView| point_eval_flat_spec(x));
        lemma_map_all_index(items, |x: SexpView| point_eval_chunked_spec(x));
        lemma_map_all_index(items, |x: SexpView| be_hex_atom_spec(x));
    }
}

/// The wrap proof's previous-proof accumulators come from the statement:
/// the step commitments of the messages for the next step proof and the
/// challenge rows of the messages for the next wrap proof, each
/// front-padded with dummies to two and paired in order.
pub proof fn lemma_wrap_accumulators_by_name(root: SexpView, st: SexpView, ps: SexpView, msg_wrap: SexpView, msg_step: SexpView)
    requires
        record_field(root, "statement"@) == Some(st),
        record_field(st, "proof_state"@) == Some(ps),
        record_field(ps, "messages_for_next_wrap_proof"@) == Some(msg_wrap),
        record_field(st, "messages_for_next_step_proof"@) == Some(msg_step),
    ensures
        wrap_proof_spec(root) matches Some(w) ==> (field_then(
            msg_step,
            "challenge_polynomial_commitments"@,
            |x: SexpView| affines_spec(x),
        ) matches Some(sgs) && field_then(
            msg_wrap,
            "old_bulletproof_challenges"@,
            |x: SexpView| list_spec(x, |r: SexpView| raw_row_spec(r)),
        ) matches Some(rows) && w.prev_challenges == prev_challenges_spec(sgs, rows)),
{
}

} // verus!
