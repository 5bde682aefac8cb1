//! An o1js ZkProgram verification key JSON (`{ data: base64, hash: decimal }`).
//!
//! The `data` field is base64 of the bin_prot of
//! `Mina_base.Verification_key_wire.Stable.V1`, which carries only the
//! per-circuit commitments of the wrap index (sigma, coefficients, generic,
//! psm, complete_add, mul, emul, endomul_scalar). The math parameters
//! (domain, max_poly_size, shifts, SRS) are universal across Mina's wrap
//! circuit and come from a template key; only the commitments read here are
//! written over it.
use vstd::prelude::*;
use crate::encoding::{decode_error_text, decode_standard_or_url_safe, standard_or_url_safe};
use crate::field::{canonical, is_canonical, FieldKind};
use crate::ingest::bin_prot::{point, point_ok, point_view, points_ok, wire_points_view, WirePoint};
use crate::text::join;
use crate::types::{points_view, AffinePoint, AffinePointView};

verus! {

/// The key's fields; `hash` (a decimal field element) is informational.
pub struct O1jsVkJson {
    pub data: String,
    pub hash: Option<String>,
}

/// Why a key could not be read.
#[derive(Debug, PartialEq, Eq)]
pub enum VkError {
    /// The JSON text, with the JSON reader's message.
    Json(String),
    /// The `data` string is neither standard nor URL-safe base64.
    Base64(base64::DecodeError),
    /// The decoded bytes are not a bin_prot key record.
    BinProt(String),
    /// A commitment coordinate is not a field element.
    Field(String),
    /// The template key could not be read.
    Template(String),
}

impl VkError {
    /// The error's text.
    pub fn message(&self) -> (r: String)
        ensures
            self matches VkError::Json(e) ==> r@ == "o1js VK JSON: "@ + e@,
            self matches VkError::BinProt(e) ==> r@ == "o1js VK bin_prot: "@ + e@,
            self matches VkError::Field(e) ==> r@ == "o1js VK field: "@ + e@,
            self matches VkError::Template(e) ==> r@ == "template VK parse: "@ + e@,
            self is Base64 ==> r@.len() >= "o1js VK base64: "@.len() && r@.take("o1js VK base64: "@.len() as int)
                == "o1js VK base64: "@,
    {
        match self {
            VkError::Json(e) => join("o1js VK JSON: ", e.as_str()),
            VkError::Base64(e) => {
                let t = decode_error_text(e);
                let r = join("o1js VK base64: ", t.as_str());
                assert(r@.take("o1js VK base64: "@.len() as int) =~= "o1js VK base64: "@);
                r
            },
            VkError::BinProt(e) => join("o1js VK bin_prot: ", e.as_str()),
            VkError::Field(e) => join("o1js VK field: ", e.as_str()),
            VkError::Template(e) => join("template VK parse: ", e.as_str()),
        }
    }
}

/// `wrap_index` of the decoded key record: one point per commitment.
pub struct VkWrapIndex {
    pub sigma_comm: [WirePoint; 7],
    pub coefficients_comm: [WirePoint; 15],
    pub generic_comm: WirePoint,
    pub psm_comm: WirePoint,
    pub complete_add_comm: WirePoint,
    pub mul_comm: WirePoint,
    pub emul_comm: WirePoint,
    pub endomul_scalar_comm: WirePoint,
}

/// The per-circuit commitments written over the template key, each a
/// single-chunk commitment over `Pallas`.
pub struct VkCommitments {
    /// 7 permutation commitments.
    pub sigma_comm: Vec<AffinePoint>,
    /// 15 coefficient commitments.
    pub coefficients_comm: Vec<AffinePoint>,
    pub generic_comm: AffinePoint,
    pub psm_comm: AffinePoint,
    pub complete_add_comm: AffinePoint,
    pub mul_comm: AffinePoint,
    pub emul_comm: AffinePoint,
    pub endomul_scalar_comm: AffinePoint,
}

pub struct VkCommitmentsView {
    pub sigma_comm: Seq<AffinePointView>,
    pub coefficients_comm: Seq<AffinePointView>,
    /// generic, psm, complete_add, mul, emul, endomul_scalar.
    pub gates: Seq<AffinePointView>,
}

impl View for VkCommitments {
    type V = VkCommitmentsView;

    open spec fn view(&self) -> VkCommitmentsView {
        VkCommitmentsView {
            sigma_comm: points_view(self.sigma_comm@),
            coefficients_comm: points_view(self.coefficients_comm@),
            gates: seq![
                self.generic_comm@,
                self.psm_comm@,
                self.complete_add_comm@,
                self.mul_comm@,
                self.emul_comm@,
                self.endomul_scalar_comm@,
            ],
        }
    }
}

/// The commitments of a key record's wrap index.
pub open spec fn vk_commitments_of(wi: VkWrapIndex) -> VkCommitmentsView {
    VkCommitmentsView {
        sigma_comm: wire_points_view(wi.sigma_comm@),
        coefficients_comm: wire_points_view(wi.coefficients_comm@),
        gates: seq![
            point_view(wi.generic_comm),
            point_view(wi.psm_comm),
            point_view(wi.complete_add_comm),
            point_view(wi.mul_comm),
            point_view(wi.emul_comm),
            point_view(wi.endomul_scalar_comm),
        ],
    }
}

/// The bin_prot bytes of the key: its `data` string decoded as standard
/// base64, or else as URL-safe base64.
pub fn vk_bytes(env: &O1jsVkJson) -> (r: Result<Vec<u8>, VkError>)
    ensures
        match (r, standard_or_url_safe(env.data@)) {
            (Ok(b), Some(v)) => b@ == v,
            (Err(e), None) => e is Base64,
            _ => false,
        },
{
    match decode_standard_or_url_safe(env.data.as_str()) {
        Ok(b) => Ok(b),
        Err(e) => Err(VkError::Base64(e)),
    }
}

/// Both coordinates of every commitment of a key record's wrap index are
/// elements of the step field (they are Pallas points).
pub open spec fn vk_fields_ok(wi: VkWrapIndex) -> bool {
    let step = FieldKind::Step;
    points_ok(wi.sigma_comm@, step) && points_ok(wi.coefficients_comm@, step) && point_ok(wi.generic_comm, step)
        && point_ok(wi.psm_comm, step) && point_ok(wi.complete_add_comm, step) && point_ok(wi.mul_comm, step)
        && point_ok(wi.emul_comm, step) && point_ok(wi.endomul_scalar_comm, step)
}

/// The text of the error for a coordinate that is not a field element,
/// named by the coordinate.
pub open spec fn coordinate_error_text(c: Seq<char>) -> Seq<char> {
    c + ": DeserializeBytes"@
}

/// A commitment: its coordinates, when both are elements of the step
/// field; else the error that names the first that is not.
fn vk_point(p: &WirePoint) -> (r: Result<AffinePoint, VkError>)
    ensures
        match r {
            Ok(q) => point_ok(*p, FieldKind::Step) && q@ == point_view(*p),
            Err(e) => !point_ok(*p, FieldKind::Step) && (e matches VkError::Field(m) && m@ == (if is_canonical(
                p.0@,
                FieldKind::Step,
            ) {
                coordinate_error_text("y"@)
            } else {
                coordinate_error_text("x"@)
            })),
        },
{
    match point(p, FieldKind::Step) {
        Ok(q) => Ok(q),
        Err(_) => {
            if canonical(&p.0, FieldKind::Step) {
                Err(VkError::Field(join("y", ": DeserializeBytes")))
            } else {
                Err(VkError::Field(join("x", ": DeserializeBytes")))
            }
        },
    }
}

/// The error for a coordinate that is not a field element.
pub open spec fn is_coordinate_error(e: VkError) -> bool {
    e matches VkError::Field(m) && (m@ == coordinate_error_text("x"@) || m@ == coordinate_error_text("y"@))
}

/// A list of commitments, when every coordinate is an element of the step
/// field.
fn vk_point_list(v: &[WirePoint]) -> (r: Result<Vec<AffinePoint>, VkError>)
    ensures
        match r {
            Ok(out) => points_ok(v@, FieldKind::Step) && points_view(out@) == wire_points_view(v@),
            Err(e) => !points_ok(v@, FieldKind::Step) && is_coordinate_error(e),
        },
{
    let mut out: Vec<AffinePoint> = Vec::new();
    let mut i: usize = 0;
    while i < v.len()
        invariant
            i <= v@.len(),
            points_ok(v@.take(i as int), FieldKind::Step),
            points_view(out@) =~= wire_points_view(v@.take(i as int)),
        decreases v@.len() - i,
    {
        let q = match vk_point(&v[i]) {
            Ok(q) => q,
            Err(e) => {
                return Err(e);
            },
        };
        assert(wire_points_view(v@.take(i + 1)) =~= wire_points_view(v@.take(i as int)).push(
            point_view(v@[i as int]),
        ));
        assert(v@.take(i + 1) =~= v@.take(i as int).push(v@[i as int]));
        out.push(q);
        i += 1;
    }
    assert(v@.take(v@.len() as int) =~= v@);
    Ok(out)
}

/// The commitments a key record's wrap index gives, in the shapes the wrap
/// verifier index holds them (7 sigma, 15 coefficient, six gate
/// commitments), when every coordinate is an element of the step field;
/// else the error that names a coordinate that is not.
pub fn wrap_index_commitments(wi: &VkWrapIndex) -> (r: Result<VkCommitments, VkError>)
    ensures
        match r {
            Ok(c) => vk_fields_ok(*wi) && c@ == vk_commitments_of(*wi),
            Err(e) => !vk_fields_ok(*wi) && is_coordinate_error(e),
        },
{
    let sigma_comm = match vk_point_list(&wi.sigma_comm) {
        Ok(v) => v,
        Err(e) => {
            return Err(e);
        },
    };
    let coefficients_comm = match vk_point_list(&wi.coefficients_comm) {
        Ok(v) => v,
        Err(e) => {
            return Err(e);
        },
    };
    let generic_comm = match vk_point(&wi.generic_comm) {
        Ok(q) => q,
        Err(e) => {
            return Err(e);
        },
    };
    let psm_comm = match vk_point(&wi.psm_comm) {
        Ok(q) => q,
        Err(e) => {
            return Err(e);
        },
    };
    let complete_add_comm = match vk_point(&wi.complete_add_comm) {
        Ok(q) => q,
        Err(e) => {
            return Err(e);
        },
    };
    let mul_comm = match vk_point(&wi.mul_comm) {
        Ok(q) => q,
        Err(e) => {
            return Err(e);
        },
    };
    let emul_comm = match vk_point(&wi.emul_comm) {
        Ok(q) => q,
        Err(e) => {
            return Err(e);
        },
    };
    let endomul_scalar_comm = match vk_point(&wi.endomul_scalar_comm) {
        Ok(q) => q,
        Err(e) => {
            return Err(e);
        },
    };
    let c = VkCommitments {
        sigma_comm,
        coefficients_comm,
        generic_comm,
        psm_comm,
        complete_add_comm,
        mul_comm,
        emul_comm,
        endomul_scalar_comm,
    };
    assert(c@.gates =~= vk_commitments_of(*wi).gates);
    Ok(c)
}

/// A key's commitments are read in place: sigma commitment `i` and
/// coefficient commitment `i` from entry `i` of theirs, and the six gate
/// commitments from generic, psm, complete_add, mul, emul and
/// endomul_scalar in that order, each point from its coordinates, `x`
/// first.
pub proof fn lemma_vk_commitments_in_place(wi: VkWrapIndex)
    ensures
        vk_commitments_of(wi).sigma_comm.len() == 7,
        forall|i: int|
            0 <= i < 7 ==> (#[trigger] vk_commitments_of(wi).sigma_comm[i]) == (AffinePointView {
                x: wi.sigma_comm[i].0@,
                y: wi.sigma_comm[i].1@,
            }),
        vk_commitments_of(wi).coefficients_comm.len() == 15,
        forall|i: int|
            0 <= i < 15 ==> (#[trigger] vk_commitments_of(wi).coefficients_comm[i]) == (AffinePointView {
                x: wi.coefficients_comm[i].0@,
                y: wi.coefficients_comm[i].1@,
            }),
        vk_commitments_of(wi).gates.len() == 6,
        vk_commitments_of(wi).gates[0] == (AffinePointView { x: wi.generic_comm.0@, y: wi.generic_comm.1@ }),
        vk_commitments_of(wi).gates[1] == (AffinePointView { x: wi.psm_comm.0@, y: wi.psm_comm.1@ }),
        vk_commitments_of(wi).gates[2] == (AffinePointView {
            x: wi.complete_add_comm.0@,
            y: wi.complete_add_comm.1@,
        }),
        vk_commitments_of(wi).gates[3] == (AffinePointView { x: wi.mul_comm.0@, y: wi.mul_comm.1@ }),
        vk_commitments_of(wi).gates[4] == (AffinePointView { x: wi.emul_comm.0@, y: wi.emul_comm.1@ }),
        vk_commitments_of(wi).gates[5] == (AffinePointView {
            x: wi.endomul_scalar_comm.0@,
            y: wi.endomul_scalar_comm.1@,
        }),
{
}

} // verus!
