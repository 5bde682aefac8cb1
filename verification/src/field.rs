//! Which 32-byte little-endian integers are field elements.
//!
//! A field element is carried as its 32 little-endian bytes; it is canonical
//! when the integer they spell is below the field's modulus. The two fields
//! are Pasta's:
//!   * `Step` (Tick, `Fp`, the Pallas base field):
//!     `0x40000000000000000000000000000000224698fc094cf91b992d30ed00000001`
//!   * `Wrap` (Tock, `Fq`, the Vesta base field):
//!     `0x40000000000000000000000000000000224698fc0994a8dd8c46eb2100000001`
use vstd::prelude::*;
use crate::serialize::{le_u64, u64_at};

verus! {

/// One of the two fields of the Pasta cycle.
#[derive(Copy, Clone, Debug, PartialEq, Eq)]
pub enum FieldKind {
    /// The step field (Pallas base field, Vesta scalar field).
    Step,
    /// The wrap field (Vesta base field, Pallas scalar field).
    Wrap,
}

/// 2^64.
pub open spec fn limb_base() -> int {
    0x1_0000_0000_0000_0000int
}

/// The integer of four little-endian u64 limbs.
pub open spec fn limbs_value(x0: int, x1: int, x2: int, x3: int) -> int {
    x0 + limb_base() * (x1 + limb_base() * (x2 + limb_base() * x3))
}

/// The integer spelled by the first 32 bytes of `b`, little-endian.
pub open spec fn field_value(b: Seq<u8>) -> int {
    limbs_value(le_u64(b) as int, le_u64(b.skip(8)) as int, le_u64(b.skip(16)) as int, le_u64(b.skip(24)) as int)
}

/// The field's modulus.
pub open spec fn modulus(k: FieldKind) -> int {
    match k {
        FieldKind::Step => 0x40000000000000000000000000000000224698fc094cf91b992d30ed00000001int,
        FieldKind::Wrap => 0x40000000000000000000000000000000224698fc0994a8dd8c46eb2100000001int,
    }
}

/// 32 bytes that spell an element of the field: their integer is below the
/// modulus.
pub open spec fn is_canonical(b: Seq<u8>, k: FieldKind) -> bool {
    b.len() == 32 && field_value(b) < modulus(k)
}

/// The modulus's little-endian limbs.
fn modulus_limbs(k: FieldKind) -> (r: [u64; 4])
    ensures
        limbs_value(r[0] as int, r[1] as int, r[2] as int, r[3] as int) == modulus(k),
{
    match k {
        FieldKind::Step => [0x992d30ed00000001, 0x224698fc094cf91b, 0, 0x4000000000000000],
        FieldKind::Wrap => [0x8c46eb2100000001, 0x224698fc0994a8dd, 0, 0x4000000000000000],
    }
}

/// Comparing two limb-written integers is comparing their top parts, then
/// their low limbs.
proof fn lemma_digits(d1: int, r1: int, d2: int, r2: int)
    requires
        0 <= d1 < limb_base(),
        0 <= d2 < limb_base(),
        0 <= r1,
        0 <= r2,
    ensures
        (d1 + limb_base() * r1 < d2 + limb_base() * r2) == (r1 < r2 || (r1 == r2 && d1 < d2)),
{
    let b = limb_base();
    if r1 < r2 {
        assert(b * r1 + b <= b * r2) by (nonlinear_arith)
            requires
                r1 < r2,
                b > 0,
        ;
    } else if r1 > r2 {
        assert(b * r2 + b <= b * r1) by (nonlinear_arith)
            requires
                r2 < r1,
                b > 0,
        ;
    }
}

/// Whether `b` spells an element of the field.
pub fn canonical(b: &[u8], k: FieldKind) -> (r: bool)
    requires
        b@.len() == 32,
    ensures
        r == is_canonical(b@, k),
{
    let x0 = u64_at(b, 0);
    let x1 = u64_at(b, 8);
    let x2 = u64_at(b, 16);
    let x3 = u64_at(b, 24);
    assert(b@.skip(0) =~= b@);
    let m = modulus_limbs(k);
    let ghost bb = limb_base();
    proof {
        assert(0 <= x2 + bb * x3) by (nonlinear_arith)
            requires
                0 <= x2,
                0 <= x3,
                bb > 0,
        ;
        assert(0 <= m[2] + bb * m[3]) by (nonlinear_arith)
            requires
                0 <= m[2],
                0 <= m[3],
                bb > 0,
        ;
        let r2x = x2 + bb * x3;
        let r2m = m[2] + bb * m[3];
        assert(0 <= x1 + bb * r2x) by (nonlinear_arith)
            requires
                0 <= x1,
                0 <= r2x,
                bb > 0,
        ;
        assert(0 <= m[1] + bb * r2m) by (nonlinear_arith)
            requires
                0 <= m[1],
                0 <= r2m,
                bb > 0,
        ;
        lemma_digits(x0 as int, x1 + bb * r2x, m[0] as int, m[1] + bb * r2m);
        lemma_digits(x1 as int, r2x, m[1] as int, r2m);
        lemma_digits(x2 as int, x3 as int, m[2] as int, m[3] as int);
    }
    if x3 != m[3] {
        x3 < m[3]
    } else if x2 != m[2] {
        x2 < m[2]
    } else if x1 != m[1] {
        x1 < m[1]
    } else {
        x0 < m[0]
    }
}

} // verus!
