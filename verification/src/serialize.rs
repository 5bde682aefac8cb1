//! Blob format for shipping a verifier's constants into a guest.
//!
//! The heavy data (SRS generators, the wrap blinder `h`, and the wrap SRS's
//! Lagrange basis for the wrap key's domain, so that verification never
//! recomputes it) is laid out as fixed-size 72-byte point records; the wrap
//! verifier index rides along as an opaque byte section.
//!
//! Blob layout (all little-endian):
//!
//! ```text
//! offset  field                          bytes
//! ----    -----                          -----
//! 0       vesta_g_len: u64               8
//! 8       PodVesta * vesta_g_len         72 * vesta_g_len     -- vesta SRS .g
//! ...     wrap_g_len: u64                8
//! +8      PodPallas * wrap_g_len         72 * wrap_g_len      -- wrap SRS .g
//! ...     wrap_h: PodPallas              72                   -- wrap SRS .h
//! ...     lagrange_len: u64              8
//! +8      PodPallas * lagrange_len       72 * lagrange_len    -- wrap Lagrange basis
//! ...     step_num_chunks: u64           8
//! ...     wrap_vk_len: u64               8
//! +8      bytes * wrap_vk_len            wrap_vk_len          -- encoded wrap_vk
//! ```
//!
//! A point record is `x` (four u64 limbs), `y` (four u64 limbs), the
//! `infinity` flag byte and seven padding bytes, each limb little-endian.
use vstd::prelude::*;
use vstd::arithmetic::power::pow;

verus! {

// ---------------------------------------------------------------------------
// Point records
// ---------------------------------------------------------------------------

/// A Vesta affine point as raw limbs: `x`, `y` and the infinity flag.
#[derive(Copy, Clone, Debug, PartialEq, Eq)]
pub struct PodVesta {
    pub x: [u64; 4],
    pub y: [u64; 4],
    pub infinity: u8,
    pub _pad: [u8; 7],
}

/// A Pallas affine point as raw limbs: `x`, `y` and the infinity flag.
#[derive(Copy, Clone, Debug, PartialEq, Eq)]
pub struct PodPallas {
    pub x: [u64; 4],
    pub y: [u64; 4],
    pub infinity: u8,
    pub _pad: [u8; 7],
}

/// Size in bytes of one point record.
pub const POD_SIZE: usize = 72;

/// The eight little-endian bytes of `x`.
#[verifier::opaque]
pub open spec fn u64_le(x: u64) -> Seq<u8> {
    seq![
        (x & 0xff) as u8,
        ((x >> 8u64) & 0xff) as u8,
        ((x >> 16u64) & 0xff) as u8,
        ((x >> 24u64) & 0xff) as u8,
        ((x >> 32u64) & 0xff) as u8,
        ((x >> 40u64) & 0xff) as u8,
        ((x >> 48u64) & 0xff) as u8,
        ((x >> 56u64) & 0xff) as u8,
    ]
}

/// The bytes of a point record with the given fields.
#[verifier::opaque]
pub open spec fn record_bytes(x: [u64; 4], y: [u64; 4], infinity: u8, pad: [u8; 7]) -> Seq<u8> {
    u64_le(x[0]) + u64_le(x[1]) + u64_le(x[2]) + u64_le(x[3]) + u64_le(y[0]) + u64_le(y[1]) + u64_le(
        y[2],
    ) + u64_le(y[3]) + seq![infinity] + pad@
}

pub open spec fn pod_vesta_bytes(p: PodVesta) -> Seq<u8> {
    record_bytes(p.x, p.y, p.infinity, p._pad)
}

pub open spec fn pod_pallas_bytes(p: PodPallas) -> Seq<u8> {
    record_bytes(p.x, p.y, p.infinity, p._pad)
}

/// The records of `ps`, one after the other.
pub open spec fn vesta_records(ps: Seq<PodVesta>) -> Seq<u8>
    decreases ps.len(),
{
    if ps.len() == 0 {
        Seq::empty()
    } else {
        vesta_records(ps.drop_last()) + pod_vesta_bytes(ps.last())
    }
}

/// The records of `ps`, one after the other.
pub open spec fn pallas_records(ps: Seq<PodPallas>) -> Seq<u8>
    decreases ps.len(),
{
    if ps.len() == 0 {
        Seq::empty()
    } else {
        pallas_records(ps.drop_last()) + pod_pallas_bytes(ps.last())
    }
}

/// A length-prefixed section of Vesta records.
pub open spec fn vesta_section(ps: Seq<PodVesta>) -> Seq<u8> {
    u64_le(ps.len() as u64) + vesta_records(ps)
}

/// A length-prefixed section of Pallas records.
pub open spec fn pallas_section(ps: Seq<PodPallas>) -> Seq<u8> {
    u64_le(ps.len() as u64) + pallas_records(ps)
}

/// A length-prefixed byte section.
pub open spec fn bytes_section(b: Seq<u8>) -> Seq<u8> {
    u64_le(b.len() as u64) + b
}

// ---------------------------------------------------------------------------
// Little-endian integers
// ---------------------------------------------------------------------------

/// The integer whose little-endian bytes are `b[0..8]`.
pub open spec fn le_u64(b: Seq<u8>) -> u64 {
    (b[0] as u64) | ((b[1] as u64) << 8u64) | ((b[2] as u64) << 16u64) | ((b[3] as u64) << 24u64) | ((
    b[4] as u64) << 32u64) | ((b[5] as u64) << 40u64) | ((b[6] as u64) << 48u64) | ((b[7] as u64)
        << 56u64)
}

proof fn lemma_compose_bytes(b0: u8, b1: u8, b2: u8, b3: u8, b4: u8, b5: u8, b6: u8, b7: u8, x: u64)
    requires
        x == (b0 as u64) | ((b1 as u64) << 8u64) | ((b2 as u64) << 16u64) | ((b3 as u64) << 24u64) | ((
        b4 as u64) << 32u64) | ((b5 as u64) << 40u64) | ((b6 as u64) << 48u64) | ((b7 as u64)
            << 56u64),
    ensures
        (x & 0xff) as u8 == b0,
        ((x >> 8u64) & 0xff) as u8 == b1,
        ((x >> 16u64) & 0xff) as u8 == b2,
        ((x >> 24u64) & 0xff) as u8 == b3,
        ((x >> 32u64) & 0xff) as u8 == b4,
        ((x >> 40u64) & 0xff) as u8 == b5,
        ((x >> 48u64) & 0xff) as u8 == b6,
        ((x >> 56u64) & 0xff) as u8 == b7,
{
    assert((x & 0xff) as u8 == b0) by (bit_vector)
        requires
            x == (b0 as u64) | ((b1 as u64) << 8u64) | ((b2 as u64) << 16u64) | ((b3 as u64) << 24u64)
                | ((b4 as u64) << 32u64) | ((b5 as u64) << 40u64) | ((b6 as u64) << 48u64) | ((
            b7 as u64) << 56u64),
    ;
    assert(((x >> 8u64) & 0xff) as u8 == b1) by (bit_vector)
        requires
            x == (b0 as u64) | ((b1 as u64) << 8u64) | ((b2 as u64) << 16u64) | ((b3 as u64) << 24u64)
                | ((b4 as u64) << 32u64) | ((b5 as u64) << 40u64) | ((b6 as u64) << 48u64) | ((
            b7 as u64) << 56u64),
    ;
    assert(((x >> 16u64) & 0xff) as u8 == b2) by (bit_vector)
        requires
            x == (b0 as u64) | ((b1 as u64) << 8u64) | ((b2 as u64) << 16u64) | ((b3 as u64) << 24u64)
                | ((b4 as u64) << 32u64) | ((b5 as u64) << 40u64) | ((b6 as u64) << 48u64) | ((
            b7 as u64) << 56u64),
    ;
    assert(((x >> 24u64) & 0xff) as u8 == b3) by (bit_vector)
        requires
            x == (b0 as u64) | ((b1 as u64) << 8u64) | ((b2 as u64) << 16u64) | ((b3 as u64) << 24u64)
                | ((b4 as u64) << 32u64) | ((b5 as u64) << 40u64) | ((b6 as u64) << 48u64) | ((
            b7 as u64) << 56u64),
    ;
    assert(((x >> 32u64) & 0xff) as u8 == b4) by (bit_vector)
        requires
            x == (b0 as u64) | ((b1 as u64) << 8u64) | ((b2 as u64) << 16u64) | ((b3 as u64) << 24u64)
                | ((b4 as u64) << 32u64) | ((b5 as u64) << 40u64) | ((b6 as u64) << 48u64) | ((
            b7 as u64) << 56u64),
    ;
    assert(((x >> 40u64) & 0xff) as u8 == b5) by (bit_vector)
        requires
            x == (b0 as u64) | ((b1 as u64) << 8u64) | ((b2 as u64) << 16u64) | ((b3 as u64) << 24u64)
                | ((b4 as u64) << 32u64) | ((b5 as u64) << 40u64) | ((b6 as u64) << 48u64) | ((
            b7 as u64) << 56u64),
    ;
    assert(((x >> 48u64) & 0xff) as u8 == b6) by (bit_vector)
        requires
            x == (b0 as u64) | ((b1 as u64) << 8u64) | ((b2 as u64) << 16u64) | ((b3 as u64) << 24u64)
                | ((b4 as u64) << 32u64) | ((b5 as u64) << 40u64) | ((b6 as u64) << 48u64) | ((
            b7 as u64) << 56u64),
    ;
    assert(((x >> 56u64) & 0xff) as u8 == b7) by (bit_vector)
        requires
            x == (b0 as u64) | ((b1 as u64) << 8u64) | ((b2 as u64) << 16u64) | ((b3 as u64) << 24u64)
                | ((b4 as u64) << 32u64) | ((b5 as u64) << 40u64) | ((b6 as u64) << 48u64) | ((
            b7 as u64) << 56u64),
    ;
}

/// Reading back eight bytes gives the integer that was written.
pub proof fn lemma_u64_le_roundtrip(x: u64)
    ensures
        le_u64(u64_le(x)) == x,
        u64_le(x).len() == 8,
{
    reveal(u64_le);
    assert(x == ((x & 0xff) as u8 as u64) | ((((x >> 8u64) & 0xff) as u8 as u64) << 8u64) | ((((x
        >> 16u64) & 0xff) as u8 as u64) << 16u64) | ((((x >> 24u64) & 0xff) as u8 as u64) << 24u64) | ((
    ((x >> 32u64) & 0xff) as u8 as u64) << 32u64) | ((((x >> 40u64) & 0xff) as u8 as u64) << 40u64)
        | ((((x >> 48u64) & 0xff) as u8 as u64) << 48u64) | ((((x >> 56u64) & 0xff) as u8 as u64)
        << 56u64)) by (bit_vector);
}

/// Writing back an integer that was read gives the same eight bytes.
pub proof fn lemma_le_u64_roundtrip(b: Seq<u8>)
    requires
        b.len() >= 8,
    ensures
        u64_le(le_u64(b)) == b.take(8),
{
    reveal(u64_le);
    lemma_compose_bytes(b[0], b[1], b[2], b[3], b[4], b[5], b[6], b[7], le_u64(b));
    assert(u64_le(le_u64(b)) =~= b.take(8));
}

// ---------------------------------------------------------------------------
// Writers
// ---------------------------------------------------------------------------

pub(crate) fn write_u64_le(out: &mut Vec<u8>, x: u64)
    ensures
        final(out)@ == old(out)@ + u64_le(x),
{
    out.push((x & 0xff) as u8);
    out.push(((x >> 8u64) & 0xff) as u8);
    out.push(((x >> 16u64) & 0xff) as u8);
    out.push(((x >> 24u64) & 0xff) as u8);
    out.push(((x >> 32u64) & 0xff) as u8);
    out.push(((x >> 40u64) & 0xff) as u8);
    out.push(((x >> 48u64) & 0xff) as u8);
    out.push(((x >> 56u64) & 0xff) as u8);
    reveal(u64_le);
    assert(final(out)@ =~= old(out)@ + u64_le(x));
}

fn write_record(out: &mut Vec<u8>, x: &[u64; 4], y: &[u64; 4], infinity: u8, pad: &[u8; 7])
    ensures
        final(out)@ == old(out)@ + record_bytes(*x, *y, infinity, *pad),
{
    write_u64_le(out, x[0]);
    write_u64_le(out, x[1]);
    write_u64_le(out, x[2]);
    write_u64_le(out, x[3]);
    write_u64_le(out, y[0]);
    write_u64_le(out, y[1]);
    write_u64_le(out, y[2]);
    write_u64_le(out, y[3]);
    out.push(infinity);
    let mut i: usize = 0;
    let ghost mid = out@;
    while i < 7
        invariant
            i <= 7,
            out@ == mid + pad@.take(i as int),
        decreases 7 - i,
    {
        out.push(pad[i]);
        assert(pad@.take(i + 1) =~= pad@.take(i as int).push(pad@[i as int]));
        i += 1;
    }
    assert(pad@.take(7) =~= pad@);
    reveal(record_bytes);
    assert(final(out)@ =~= old(out)@ + record_bytes(*x, *y, infinity, *pad));
}

fn write_vesta_section(out: &mut Vec<u8>, points: &[PodVesta])
    ensures
        final(out)@ == old(out)@ + vesta_section(points@),
{
    write_u64_le(out, points.len() as u64);
    let ghost head = out@;
    let mut i: usize = 0;
    while i < points.len()
        invariant
            i <= points@.len(),
            out@ == head + vesta_records(points@.take(i as int)),
        decreases points@.len() - i,
    {
        let p = &points[i];
        write_record(out, &p.x, &p.y, p.infinity, &p._pad);
        assert(points@.take(i + 1).drop_last() =~= points@.take(i as int));
        i += 1;
    }
    assert(points@.take(points@.len() as int) =~= points@);
}

fn write_pallas_section(out: &mut Vec<u8>, points: &[PodPallas])
    ensures
        final(out)@ == old(out)@ + pallas_section(points@),
{
    write_u64_le(out, points.len() as u64);
    let ghost head = out@;
    let mut i: usize = 0;
    while i < points.len()
        invariant
            i <= points@.len(),
            out@ == head + pallas_records(points@.take(i as int)),
        decreases points@.len() - i,
    {
        let p = &points[i];
        write_record(out, &p.x, &p.y, p.infinity, &p._pad);
        assert(points@.take(i + 1).drop_last() =~= points@.take(i as int));
        i += 1;
    }
    assert(points@.take(points@.len() as int) =~= points@);
}

fn write_one_pallas(out: &mut Vec<u8>, p: &PodPallas)
    ensures
        final(out)@ == old(out)@ + pod_pallas_bytes(*p),
{
    write_record(out, &p.x, &p.y, p.infinity, &p._pad);
}

fn write_bytes_section(out: &mut Vec<u8>, bytes: &[u8])
    ensures
        final(out)@ == old(out)@ + bytes_section(bytes@),
{
    write_u64_le(out, bytes.len() as u64);
    out.extend_from_slice(bytes);
}


// ---------------------------------------------------------------------------
// Reading the format
// ---------------------------------------------------------------------------

/// The point record starting at offset `o` of `s`, field by field.
#[verifier::opaque]
pub open spec fn pod_vesta_at(s: Seq<u8>, o: int) -> PodVesta {
    PodVesta {
        x: [le_u64(s.skip(o)), le_u64(s.skip(o + 8)), le_u64(s.skip(o + 16)), le_u64(s.skip(o + 24))],
        y: [le_u64(s.skip(o + 32)), le_u64(s.skip(o + 40)), le_u64(s.skip(o + 48)), le_u64(s.skip(o + 56))],
        infinity: s[o + 64],
        _pad: [s[o + 65], s[o + 66], s[o + 67], s[o + 68], s[o + 69], s[o + 70], s[o + 71]],
    }
}

/// The point record starting at offset `o` of `s`, field by field.
#[verifier::opaque]
pub open spec fn pod_pallas_at(s: Seq<u8>, o: int) -> PodPallas {
    PodPallas {
        x: [le_u64(s.skip(o)), le_u64(s.skip(o + 8)), le_u64(s.skip(o + 16)), le_u64(s.skip(o + 24))],
        y: [le_u64(s.skip(o + 32)), le_u64(s.skip(o + 40)), le_u64(s.skip(o + 48)), le_u64(s.skip(o + 56))],
        infinity: s[o + 64],
        _pad: [s[o + 65], s[o + 66], s[o + 67], s[o + 68], s[o + 69], s[o + 70], s[o + 71]],
    }
}

/// The records of a Vesta section whose length field is at `o`.
pub open spec fn vesta_section_at(s: Seq<u8>, o: int) -> Seq<PodVesta> {
    Seq::new(le_u64(s.skip(o)) as nat, |i: int| pod_vesta_at(s, o + 8 + 72 * i))
}

/// The records of a Pallas section whose length field is at `o`.
pub open spec fn pallas_section_at(s: Seq<u8>, o: int) -> Seq<PodPallas> {
    Seq::new(le_u64(s.skip(o)) as nat, |i: int| pod_pallas_at(s, o + 8 + 72 * i))
}

/// Offset of the wrap SRS section.
pub open spec fn wrap_section_offset(s: Seq<u8>) -> int {
    8 + 72 * le_u64(s)
}

/// Offset of the wrap blinder record.
pub open spec fn wrap_h_offset(s: Seq<u8>) -> int {
    wrap_section_offset(s) + 8 + 72 * le_u64(s.skip(wrap_section_offset(s)))
}

/// Offset of the wrap Lagrange-basis section.
pub open spec fn lagrange_offset(s: Seq<u8>) -> int {
    wrap_h_offset(s) + 72
}

/// Offset of the step chunk count.
pub open spec fn chunks_offset(s: Seq<u8>) -> int {
    lagrange_offset(s) + 8 + 72 * le_u64(s.skip(lagrange_offset(s)))
}

/// Offset of the wrap verifier-index bytes.
pub open spec fn vk_offset(s: Seq<u8>) -> int {
    chunks_offset(s) + 16
}

/// Length of the wrap verifier-index bytes.
pub open spec fn vk_len(s: Seq<u8>) -> int {
    le_u64(s.skip(chunks_offset(s) + 8)) as int
}

/// Every section that the length fields announce lies within `s`.
pub open spec fn blob_well_formed(s: Seq<u8>) -> bool {
    &&& s.len() >= 8
    &&& wrap_section_offset(s) + 8 <= s.len()
    &&& lagrange_offset(s) + 8 <= s.len()
    &&& vk_offset(s) <= s.len()
    &&& vk_offset(s) + vk_len(s) <= s.len()
}

/// The parts of a blob, as mathematical values.
pub struct BlobView {
    pub vesta_g: Seq<PodVesta>,
    pub wrap_g: Seq<PodPallas>,
    pub wrap_h: PodPallas,
    pub wrap_lagrange: Seq<PodPallas>,
    pub step_num_chunks: u64,
    pub wrap_vk: Seq<u8>,
}

/// What a blob holds, read at the offsets its length fields give.
pub open spec fn read_blob(s: Seq<u8>) -> BlobView {
    BlobView {
        vesta_g: vesta_section_at(s, 0),
        wrap_g: pallas_section_at(s, wrap_section_offset(s)),
        wrap_h: pod_pallas_at(s, wrap_h_offset(s)),
        wrap_lagrange: pallas_section_at(s, lagrange_offset(s)),
        step_num_chunks: le_u64(s.skip(chunks_offset(s))),
        wrap_vk: s.subrange(vk_offset(s), vk_offset(s) + vk_len(s)),
    }
}

/// The bytes of a blob with the given parts.
pub open spec fn blob_bytes(v: BlobView) -> Seq<u8> {
    vesta_section(v.vesta_g) + pallas_section(v.wrap_g) + pod_pallas_bytes(v.wrap_h) + pallas_section(
        v.wrap_lagrange,
    ) + u64_le(v.step_num_chunks) + bytes_section(v.wrap_vk)
}

/// Every length of the parts can be written in a u64 length field.
pub open spec fn blob_fits(v: BlobView) -> bool {
    &&& v.vesta_g.len() <= u64::MAX
    &&& v.wrap_g.len() <= u64::MAX
    &&& v.wrap_lagrange.len() <= u64::MAX
    &&& v.wrap_vk.len() <= u64::MAX
}

/// The decoded form of a verifier blob.
pub struct VerifierBlob {
    pub vesta_g: Vec<PodVesta>,
    pub wrap_g: Vec<PodPallas>,
    pub wrap_h: PodPallas,
    pub wrap_lagrange: Vec<PodPallas>,
    pub step_num_chunks: u64,
    pub wrap_vk: Vec<u8>,
}

impl View for VerifierBlob {
    type V = BlobView;

    open spec fn view(&self) -> BlobView {
        BlobView {
            vesta_g: self.vesta_g@,
            wrap_g: self.wrap_g@,
            wrap_h: self.wrap_h,
            wrap_lagrange: self.wrap_lagrange@,
            step_num_chunks: self.step_num_chunks,
            wrap_vk: self.wrap_vk@,
        }
    }
}

// ---------------------------------------------------------------------------
// Readers
// ---------------------------------------------------------------------------

/// The little-endian integer at offset `o`.
pub(crate) fn u64_at(bytes: &[u8], o: usize) -> (r: u64)
    requires
        o + 8 <= bytes@.len(),
    ensures
        r == le_u64(bytes@.skip(o as int)),
{
    let _n = bytes.len();
    (bytes[o] as u64) | ((bytes[o + 1] as u64) << 8u64) | ((bytes[o + 2] as u64) << 16u64) | ((
    bytes[o + 3] as u64) << 24u64) | ((bytes[o + 4] as u64) << 32u64) | ((bytes[o + 5] as u64)
        << 40u64) | ((bytes[o + 6] as u64) << 48u64) | ((bytes[o + 7] as u64) << 56u64)
}

fn read_u64_le(bytes: &[u8]) -> (r: (u64, &[u8]))
    requires
        bytes@.len() >= 8,
    ensures
        r.0 == le_u64(bytes@),
        r.1@ == bytes@.skip(8),
{
    let x = u64_at(bytes, 0);
    assert(bytes@.skip(0) =~= bytes@);
    let (_head, rest) = bytes.split_at(8);
    (x, rest)
}

fn read_record(bytes: &[u8], o: usize) -> (r: ([u64; 4], [u64; 4], u8, [u8; 7]))
    requires
        o + 72 <= bytes@.len(),
    ensures
        pod_vesta_at(bytes@, o as int) == (PodVesta { x: r.0, y: r.1, infinity: r.2, _pad: r.3 }),
        pod_pallas_at(bytes@, o as int) == (PodPallas { x: r.0, y: r.1, infinity: r.2, _pad: r.3 }),
{
    let _n = bytes.len();
    let x = [u64_at(bytes, o), u64_at(bytes, o + 8), u64_at(bytes, o + 16), u64_at(bytes, o + 24)];
    let y = [u64_at(bytes, o + 32), u64_at(bytes, o + 40), u64_at(bytes, o + 48), u64_at(bytes, o + 56)];
    let infinity = bytes[o + 64];
    let pad = [
        bytes[o + 65],
        bytes[o + 66],
        bytes[o + 67],
        bytes[o + 68],
        bytes[o + 69],
        bytes[o + 70],
        bytes[o + 71],
    ];
    proof {
        reveal(pod_vesta_at);
        reveal(pod_pallas_at);
    }
    (x, y, infinity, pad)
}

fn read_vesta_section(bytes: &[u8]) -> (r: (Vec<PodVesta>, &[u8]))
    requires
        bytes@.len() >= 8,
        8 + 72 * le_u64(bytes@) <= bytes@.len(),
    ensures
        r.0@ == vesta_section_at(bytes@, 0),
        r.1@ == bytes@.skip(8 + 72 * le_u64(bytes@)),
{
    let n = bytes.len();
    let (len, _rest) = read_u64_le(bytes);
    let count = len as usize;
    let byte_len = count * 72;
    let mut pods: Vec<PodVesta> = Vec::new();
    let mut i: usize = 0;
    assert(bytes@.skip(0) =~= bytes@);
    while i < count
        invariant
            n == bytes@.len(),
            count == le_u64(bytes@),
            8 + 72 * count <= bytes@.len(),
            i <= count,
            pods@ =~= Seq::new(i as nat, |j: int| pod_vesta_at(bytes@, 0 + 8 + 72 * j)),
        decreases count - i,
    {
        let (x, y, infinity, pad) = read_record(bytes, 8 + 72 * i);
        pods.push(PodVesta { x, y, infinity, _pad: pad });
        i += 1;
    }
    let (_section, tail) = bytes.split_at(8 + byte_len);
    (pods, tail)
}

fn read_pallas_section(bytes: &[u8]) -> (r: (Vec<PodPallas>, &[u8]))
    requires
        bytes@.len() >= 8,
        8 + 72 * le_u64(bytes@) <= bytes@.len(),
    ensures
        r.0@ == pallas_section_at(bytes@, 0),
        r.1@ == bytes@.skip(8 + 72 * le_u64(bytes@)),
{
    let n = bytes.len();
    let (len, _rest) = read_u64_le(bytes);
    let count = len as usize;
    let byte_len = count * 72;
    let mut pods: Vec<PodPallas> = Vec::new();
    let mut i: usize = 0;
    assert(bytes@.skip(0) =~= bytes@);
    while i < count
        invariant
            n == bytes@.len(),
            count == le_u64(bytes@),
            8 + 72 * count <= bytes@.len(),
            i <= count,
            pods@ =~= Seq::new(i as nat, |j: int| pod_pallas_at(bytes@, 0 + 8 + 72 * j)),
        decreases count - i,
    {
        let (x, y, infinity, pad) = read_record(bytes, 8 + 72 * i);
        pods.push(PodPallas { x, y, infinity, _pad: pad });
        i += 1;
    }
    let (_section, tail) = bytes.split_at(8 + byte_len);
    (pods, tail)
}

fn read_one_pallas(bytes: &[u8]) -> (r: (PodPallas, &[u8]))
    requires
        bytes@.len() >= 72,
    ensures
        r.0 == pod_pallas_at(bytes@, 0),
        r.1@ == bytes@.skip(72),
{
    let (x, y, infinity, pad) = read_record(bytes, 0);
    let (_section, tail) = bytes.split_at(72);
    (PodPallas { x, y, infinity, _pad: pad }, tail)
}

fn read_bytes_section(bytes: &[u8]) -> (r: (&[u8], &[u8]))
    requires
        bytes@.len() >= 8,
        8 + le_u64(bytes@) <= bytes@.len(),
    ensures
        r.0@ == bytes@.subrange(8, 8 + le_u64(bytes@)),
        r.1@ == bytes@.skip(8 + le_u64(bytes@)),
{
    let _n = bytes.len();
    let (len, rest) = read_u64_le(bytes);
    let len = len as usize;
    let (section, tail) = rest.split_at(len);
    assert(section@ =~= bytes@.subrange(8, 8 + le_u64(bytes@)));
    assert(tail@ =~= bytes@.skip(8 + le_u64(bytes@)));
    (section, tail)
}


/// Reading a record from a suffix reads the same bytes as reading further
/// into the whole sequence.
proof fn lemma_pod_at_skip(s: Seq<u8>, a: int, o: int)
    requires
        0 <= a,
        0 <= o,
        a + o + 72 <= s.len(),
    ensures
        pod_vesta_at(s.skip(a), o) == pod_vesta_at(s, a + o),
        pod_pallas_at(s.skip(a), o) == pod_pallas_at(s, a + o),
{
    reveal(pod_vesta_at);
    reveal(pod_pallas_at);
    assert forall|k: int| 0 <= k <= 56 implies #[trigger] s.skip(a).skip(o + k) =~= s.skip(a + o + k) by {}
    assert(s.skip(a).skip(o + 0) =~= s.skip(a + o + 0));
    assert(s.skip(a).skip(o + 8) =~= s.skip(a + o + 8));
    assert(s.skip(a).skip(o + 16) =~= s.skip(a + o + 16));
    assert(s.skip(a).skip(o + 24) =~= s.skip(a + o + 24));
    assert(s.skip(a).skip(o + 32) =~= s.skip(a + o + 32));
    assert(s.skip(a).skip(o + 40) =~= s.skip(a + o + 40));
    assert(s.skip(a).skip(o + 48) =~= s.skip(a + o + 48));
    assert(s.skip(a).skip(o + 56) =~= s.skip(a + o + 56));
    assert(s.skip(a).skip(o) =~= s.skip(a + o));
}

/// A section read from a suffix is the section read further into the whole
/// sequence.
proof fn lemma_section_at_skip(s: Seq<u8>, a: int)
    requires
        0 <= a,
        a + 8 <= s.len(),
        a + 8 + 72 * le_u64(s.skip(a)) <= s.len(),
    ensures
        pallas_section_at(s.skip(a), 0) == pallas_section_at(s, a),
{
    assert(s.skip(a).skip(0) =~= s.skip(a));
    let l = pallas_section_at(s.skip(a), 0);
    let r = pallas_section_at(s, a);
    assert forall|j: int| 0 <= j < l.len() implies l[j] == r[j] by {
        lemma_pod_at_skip(s, a, 8 + 72 * j);
    }
    assert(l =~= r);
}

/// Whether every section that a blob's length fields announce lies within
/// it: exactly the blobs [`decode_verifier_blob`] reads.
pub fn verifier_blob_fits(bytes: &[u8]) -> (r: bool)
    ensures
        r == blob_well_formed(bytes@),
{
    let ghost s = bytes@;
    if bytes.len() < 8 {
        return false;
    }
    let n = bytes.len() as u128;
    let a = u64_at(bytes, 0) as u128;
    assert(s.skip(0) =~= s);
    let o1 = 8 + 72 * a;
    if o1 + 8 > n {
        return false;
    }
    let b = u64_at(bytes, o1 as usize) as u128;
    let o2 = o1 + 8 + 72 * b;
    let lo = o2 + 72;
    if lo + 8 > n {
        return false;
    }
    let c = u64_at(bytes, lo as usize) as u128;
    let o3 = lo + 8 + 72 * c;
    let vo = o3 + 16;
    if vo > n {
        return false;
    }
    let l = u64_at(bytes, (o3 + 8) as usize) as u128;
    vo + l <= n
}

/// Decode a blob produced by [`encode_verifier_blob`].
pub fn decode_verifier_blob(bytes: &[u8]) -> (r: VerifierBlob)
    requires
        blob_well_formed(bytes@),
    ensures
        r@ == read_blob(bytes@),
{
    let ghost s = bytes@;
    let ghost o1 = wrap_section_offset(s);
    let ghost o2 = wrap_h_offset(s);
    let (vesta_g, rest) = read_vesta_section(bytes);
    assert(rest@.skip(8 + 72 * le_u64(rest@)) =~= s.skip(o2));
    let (wrap_g, rest) = read_pallas_section(rest);
    proof {
        lemma_section_at_skip(s, o1);
    }
    let (wrap_h, rest) = read_one_pallas(rest);
    proof {
        lemma_pod_at_skip(s, o2, 0);
    }
    let ghost o3 = lagrange_offset(s);
    let ghost o4 = chunks_offset(s);
    assert(rest@ =~= s.skip(o3));
    assert(rest@.skip(8 + 72 * le_u64(rest@)) =~= s.skip(o4));
    let (wrap_lagrange, rest) = read_pallas_section(rest);
    proof {
        lemma_section_at_skip(s, o3);
    }
    assert(rest@ =~= s.skip(o4));
    let (step_num_chunks, rest) = read_u64_le(rest);
    assert(rest@ =~= s.skip(o4 + 8));
    let (vk_bytes, _tail) = read_bytes_section(rest);
    assert(vk_bytes@ =~= s.subrange(vk_offset(s), vk_offset(s) + vk_len(s)));
    let wrap_vk = vstd::slice::slice_to_vec(vk_bytes);
    VerifierBlob { vesta_g, wrap_g, wrap_h, wrap_lagrange, step_num_chunks, wrap_vk }
}

/// Encode a verifier's shippable form: the Vesta SRS generators, the wrap
/// SRS generators and blinder, the wrap SRS's Lagrange basis for the wrap
/// key's domain, the step chunk count and the encoded wrap verifier index.
pub fn encode_verifier_blob(
    vesta_g: &[PodVesta],
    wrap_g: &[PodPallas],
    wrap_h: &PodPallas,
    wrap_lagrange: &[PodPallas],
    step_num_chunks: usize,
    wrap_vk: &[u8],
) -> (r: Vec<u8>)
    ensures
        r@ == blob_bytes(
            BlobView {
                vesta_g: vesta_g@,
                wrap_g: wrap_g@,
                wrap_h: *wrap_h,
                wrap_lagrange: wrap_lagrange@,
                step_num_chunks: step_num_chunks as u64,
                wrap_vk: wrap_vk@,
            },
        ),
{
    let mut out: Vec<u8> = Vec::new();
    write_vesta_section(&mut out, vesta_g);
    write_pallas_section(&mut out, wrap_g);
    write_one_pallas(&mut out, wrap_h);
    write_pallas_section(&mut out, wrap_lagrange);
    write_u64_le(&mut out, step_num_chunks as u64);
    write_bytes_section(&mut out, wrap_vk);
    assert(out@ =~= blob_bytes(
        BlobView {
            vesta_g: vesta_g@,
            wrap_g: wrap_g@,
            wrap_h: *wrap_h,
            wrap_lagrange: wrap_lagrange@,
            step_num_chunks: step_num_chunks as u64,
            wrap_vk: wrap_vk@,
        },
    ));
    out
}


// ---------------------------------------------------------------------------
// The blob format round-trips
// ---------------------------------------------------------------------------

proof fn lemma_le_u64_take(a: Seq<u8>, b: Seq<u8>)
    requires
        a.len() >= 8,
        b.len() >= 8,
        a.take(8) == b.take(8),
    ensures
        le_u64(a) == le_u64(b),
{
    assert(a[0] == a.take(8)[0] && a[1] == a.take(8)[1] && a[2] == a.take(8)[2] && a[3] == a.take(8)[3]);
    assert(a[4] == a.take(8)[4] && a[5] == a.take(8)[5] && a[6] == a.take(8)[6] && a[7] == a.take(8)[7]);
    assert(b[0] == b.take(8)[0] && b[1] == b.take(8)[1] && b[2] == b.take(8)[2] && b[3] == b.take(8)[3]);
    assert(b[4] == b.take(8)[4] && b[5] == b.take(8)[5] && b[6] == b.take(8)[6] && b[7] == b.take(8)[7]);
}

/// The integer read at offset `o` of `s` is the one written there.
proof fn lemma_read_u64_at(s: Seq<u8>, o: int, x: u64)
    requires
        0 <= o,
        o + 8 <= s.len(),
        s.subrange(o, o + 8) == u64_le(x),
    ensures
        le_u64(s.skip(o)) == x,
{
    lemma_u64_le_roundtrip(x);
    assert(s.skip(o).take(8) =~= u64_le(x).take(8));
    lemma_le_u64_take(s.skip(o), u64_le(x));
}

/// The fields read from a record's bytes are the record's fields.
proof fn lemma_read_record(s: Seq<u8>, o: int, x: [u64; 4], y: [u64; 4], infinity: u8, pad: [u8; 7])
    requires
        0 <= o,
        o + 72 <= s.len(),
        s.subrange(o, o + 72) == record_bytes(x, y, infinity, pad),
    ensures
        pod_vesta_at(s, o) == (PodVesta { x, y, infinity, _pad: pad }),
        pod_pallas_at(s, o) == (PodPallas { x, y, infinity, _pad: pad }),
{
    reveal(pod_vesta_at);
    reveal(pod_pallas_at);
    reveal(record_bytes);
    lemma_u64_le_roundtrip(x[0]);
    lemma_u64_le_roundtrip(x[1]);
    lemma_u64_le_roundtrip(x[2]);
    lemma_u64_le_roundtrip(x[3]);
    lemma_u64_le_roundtrip(y[0]);
    lemma_u64_le_roundtrip(y[1]);
    lemma_u64_le_roundtrip(y[2]);
    lemma_u64_le_roundtrip(y[3]);
    let r = record_bytes(x, y, infinity, pad);
    assert(r.subrange(0, 8) =~= u64_le(x[0]));
    assert(r.subrange(8, 16) =~= u64_le(x[1]));
    assert(r.subrange(16, 24) =~= u64_le(x[2]));
    assert(r.subrange(24, 32) =~= u64_le(x[3]));
    assert(r.subrange(32, 40) =~= u64_le(y[0]));
    assert(r.subrange(40, 48) =~= u64_le(y[1]));
    assert(r.subrange(48, 56) =~= u64_le(y[2]));
    assert(r.subrange(56, 64) =~= u64_le(y[3]));
    assert(r.subrange(65, 72) =~= pad@);
    assert(s.subrange(o, o + 8) =~= r.subrange(0, 8));
    lemma_read_u64_at(s, o, x[0]);
    assert(s.subrange(o + 8, o + 16) =~= r.subrange(8, 16));
    lemma_read_u64_at(s, o + 8, x[1]);
    assert(s.subrange(o + 16, o + 24) =~= r.subrange(16, 24));
    lemma_read_u64_at(s, o + 16, x[2]);
    assert(s.subrange(o + 24, o + 32) =~= r.subrange(24, 32));
    lemma_read_u64_at(s, o + 24, x[3]);
    assert(s.subrange(o + 32, o + 40) =~= r.subrange(32, 40));
    lemma_read_u64_at(s, o + 32, y[0]);
    assert(s.subrange(o + 40, o + 48) =~= r.subrange(40, 48));
    lemma_read_u64_at(s, o + 40, y[1]);
    assert(s.subrange(o + 48, o + 56) =~= r.subrange(48, 56));
    lemma_read_u64_at(s, o + 48, y[2]);
    assert(s.subrange(o + 56, o + 64) =~= r.subrange(56, 64));
    lemma_read_u64_at(s, o + 56, y[3]);
    assert(s[o + 64] == r[64]);
    assert forall|k: int| 0 <= k < 7 implies s[o + 65 + k] == #[trigger] pad@[k] by {
        assert(s[o + 65 + k] == r[65 + k]);
    }
    assert(pod_vesta_at(s, o).x =~= x);
    assert(pod_vesta_at(s, o).y =~= y);
    assert(pod_vesta_at(s, o)._pad =~= pad);
    assert(pod_pallas_at(s, o).x =~= x);
    assert(pod_pallas_at(s, o).y =~= y);
    assert(pod_pallas_at(s, o)._pad =~= pad);
}

proof fn lemma_record_len(x: [u64; 4], y: [u64; 4], infinity: u8, pad: [u8; 7])
    ensures
        #[trigger] record_bytes(x, y, infinity, pad).len() == 72,
{
    reveal(record_bytes);
    lemma_u64_le_roundtrip(x[0]);
    lemma_u64_le_roundtrip(x[1]);
    lemma_u64_le_roundtrip(x[2]);
    lemma_u64_le_roundtrip(x[3]);
    lemma_u64_le_roundtrip(y[0]);
    lemma_u64_le_roundtrip(y[1]);
    lemma_u64_le_roundtrip(y[2]);
    lemma_u64_le_roundtrip(y[3]);
}

proof fn lemma_vesta_records(ps: Seq<PodVesta>)
    ensures
        vesta_records(ps).len() == 72 * ps.len(),
        forall|i: int|
            0 <= i < ps.len() ==> #[trigger] vesta_records(ps).subrange(72 * i, 72 * i + 72)
                == pod_vesta_bytes(ps[i]),
    decreases ps.len(),
{
    if ps.len() > 0 {
        let init = ps.drop_last();
        lemma_vesta_records(init);
        lemma_record_len(ps.last().x, ps.last().y, ps.last().infinity, ps.last()._pad);
        assert forall|i: int| 0 <= i < ps.len() implies #[trigger] vesta_records(ps).subrange(
            72 * i,
            72 * i + 72,
        ) == pod_vesta_bytes(ps[i]) by {
            if i < init.len() {
                assert(vesta_records(ps).subrange(72 * i, 72 * i + 72) =~= vesta_records(
                    init,
                ).subrange(72 * i, 72 * i + 72));
            } else {
                assert(vesta_records(ps).subrange(72 * i, 72 * i + 72) =~= pod_vesta_bytes(
                    ps.last(),
                ));
            }
        }
    }
}

proof fn lemma_pallas_records(ps: Seq<PodPallas>)
    ensures
        pallas_records(ps).len() == 72 * ps.len(),
        forall|i: int|
            0 <= i < ps.len() ==> #[trigger] pallas_records(ps).subrange(72 * i, 72 * i + 72)
                == pod_pallas_bytes(ps[i]),
    decreases ps.len(),
{
    if ps.len() > 0 {
        let init = ps.drop_last();
        lemma_pallas_records(init);
        lemma_record_len(ps.last().x, ps.last().y, ps.last().infinity, ps.last()._pad);
        assert forall|i: int| 0 <= i < ps.len() implies #[trigger] pallas_records(ps).subrange(
            72 * i,
            72 * i + 72,
        ) == pod_pallas_bytes(ps[i]) by {
            if i < init.len() {
                assert(pallas_records(ps).subrange(72 * i, 72 * i + 72) =~= pallas_records(
                    init,
                ).subrange(72 * i, 72 * i + 72));
            } else {
                assert(pallas_records(ps).subrange(72 * i, 72 * i + 72) =~= pod_pallas_bytes(
                    ps.last(),
                ));
            }
        }
    }
}

proof fn lemma_read_vesta_section(s: Seq<u8>, o: int, ps: Seq<PodVesta>)
    requires
        0 <= o,
        ps.len() <= u64::MAX,
        o + 8 + 72 * ps.len() <= s.len(),
        s.subrange(o, o + 8 + 72 * ps.len()) == vesta_section(ps),
    ensures
        le_u64(s.skip(o)) == ps.len(),
        vesta_section_at(s, o) == ps,
{
    let n = ps.len() as int;
    lemma_vesta_records(ps);
    lemma_u64_le_roundtrip(n as u64);
    assert(s.subrange(o, o + 8) =~= vesta_section(ps).subrange(0, 8));
    assert(vesta_section(ps).subrange(0, 8) =~= u64_le(n as u64));
    lemma_read_u64_at(s, o, n as u64);
    let recs = s.subrange(o + 8, o + 8 + 72 * n);
    assert(recs =~= vesta_section(ps).subrange(8, 8 + 72 * n));
    assert(recs =~= vesta_records(ps));
    assert forall|i: int| 0 <= i < n implies #[trigger] pod_vesta_at(s, o + 8 + 72 * i) == ps[i] by {
        assert(s.subrange(o + 8 + 72 * i, o + 8 + 72 * i + 72) =~= recs.subrange(72 * i, 72 * i + 72));
        assert(s.subrange(o + 8 + 72 * i, o + 8 + 72 * i + 72) =~= vesta_records(ps).subrange(
            72 * i,
            72 * i + 72,
        ));
        let p = ps[i];
        lemma_read_record(s, o + 8 + 72 * i, p.x, p.y, p.infinity, p._pad);
    }
    assert(vesta_section_at(s, o) =~= ps);
}

proof fn lemma_read_pallas_section(s: Seq<u8>, o: int, ps: Seq<PodPallas>)
    requires
        0 <= o,
        ps.len() <= u64::MAX,
        o + 8 + 72 * ps.len() <= s.len(),
        s.subrange(o, o + 8 + 72 * ps.len()) == pallas_section(ps),
    ensures
        le_u64(s.skip(o)) == ps.len(),
        pallas_section_at(s, o) == ps,
{
    let n = ps.len() as int;
    lemma_pallas_records(ps);
    lemma_u64_le_roundtrip(n as u64);
    assert(s.subrange(o, o + 8) =~= pallas_section(ps).subrange(0, 8));
    assert(pallas_section(ps).subrange(0, 8) =~= u64_le(n as u64));
    lemma_read_u64_at(s, o, n as u64);
    let recs = s.subrange(o + 8, o + 8 + 72 * n);
    assert(recs =~= pallas_section(ps).subrange(8, 8 + 72 * n));
    assert(recs =~= pallas_records(ps));
    assert forall|i: int| 0 <= i < n implies #[trigger] pod_pallas_at(s, o + 8 + 72 * i) == ps[i] by {
        assert(s.subrange(o + 8 + 72 * i, o + 8 + 72 * i + 72) =~= recs.subrange(72 * i, 72 * i + 72));
        assert(s.subrange(o + 8 + 72 * i, o + 8 + 72 * i + 72) =~= pallas_records(ps).subrange(
            72 * i,
            72 * i + 72,
        ));
        let p = ps[i];
        lemma_read_record(s, o + 8 + 72 * i, p.x, p.y, p.infinity, p._pad);
    }
    assert(pallas_section_at(s, o) =~= ps);
}

/// The first and second parts of a concatenation, read back by position.
proof fn lemma_concat_parts(a: Seq<u8>, b: Seq<u8>)
    ensures
        (a + b).subrange(0, a.len() as int) == a,
        (a + b).subrange(a.len() as int, (a.len() + b.len()) as int) == b,
{
    assert((a + b).subrange(0, a.len() as int) =~= a);
    assert((a + b).subrange(a.len() as int, (a.len() + b.len()) as int) =~= b);
}

proof fn lemma_sub_sub(s: Seq<u8>, i: int, j: int, k: int, l: int)
    requires
        0 <= i <= j <= s.len(),
        0 <= k <= l <= j - i,
    ensures
        s.subrange(i, j).subrange(k, l) == s.subrange(i + k, i + l),
{
    assert(s.subrange(i, j).subrange(k, l) =~= s.subrange(i + k, i + l));
}

/// A byte section reads back what was written, whatever follows it: its
/// length field covers exactly the bytes, and what follows is left over
/// (the conditions and results of the section reader).
pub proof fn lemma_bytes_section_roundtrip(d: Seq<u8>, rest: Seq<u8>)
    requires
        d.len() <= u64::MAX,
    ensures
        (bytes_section(d) + rest).len() >= 8,
        le_u64(bytes_section(d) + rest) == d.len(),
        (bytes_section(d) + rest).subrange(8, 8 + d.len() as int) == d,
        (bytes_section(d) + rest).skip(8 + d.len() as int) == rest,
{
    let s = bytes_section(d) + rest;
    lemma_u64_le_roundtrip(d.len() as u64);
    assert(s.subrange(0, 8) =~= u64_le(d.len() as u64));
    lemma_read_u64_at(s, 0, d.len() as u64);
    assert(s.skip(0) =~= s);
    assert(s.subrange(8, 8 + d.len() as int) =~= d);
    assert(s.skip(8 + d.len() as int) =~= rest);
}

/// Decoding inverts encoding: the blob written for any parts is well formed,
/// whatever follows it, and reading it back gives exactly those parts.
#[verifier::rlimit(60)]
pub proof fn lemma_blob_roundtrip(v: BlobView, tail: Seq<u8>)
    requires
        blob_fits(v),
    ensures
        blob_well_formed(blob_bytes(v) + tail),
        read_blob(blob_bytes(v) + tail) == v,
{
    let s = blob_bytes(v) + tail;
    let n1 = v.vesta_g.len() as int;
    let n2 = v.wrap_g.len() as int;
    let n3 = v.wrap_lagrange.len() as int;
    let nk = v.wrap_vk.len() as int;
    let vs = vesta_section(v.vesta_g);
    let ps = pallas_section(v.wrap_g);
    let h = pod_pallas_bytes(v.wrap_h);
    let ls = pallas_section(v.wrap_lagrange);
    let c = u64_le(v.step_num_chunks);
    let k = bytes_section(v.wrap_vk);
    lemma_vesta_records(v.vesta_g);
    lemma_pallas_records(v.wrap_g);
    lemma_pallas_records(v.wrap_lagrange);
    lemma_record_len(v.wrap_h.x, v.wrap_h.y, v.wrap_h.infinity, v.wrap_h._pad);
    lemma_u64_le_roundtrip(n1 as u64);
    lemma_u64_le_roundtrip(n2 as u64);
    lemma_u64_le_roundtrip(n3 as u64);
    lemma_u64_le_roundtrip(nk as u64);
    lemma_u64_le_roundtrip(v.step_num_chunks);
    let a = 8 + 72 * n1;
    let b = a + 8 + 72 * n2;
    let d = b + 72 + 8 + 72 * n3;
    let x1 = vs + ps;
    let x2 = x1 + h;
    let x2l = x2 + ls;
    let x3 = x2l + c;
    let x4 = x3 + k;
    assert(vs.len() == a);
    assert(x1.len() == b);
    assert(x2.len() == b + 72);
    assert(x2l.len() == d);
    assert(x3.len() == d + 8);
    assert(k.len() == 8 + nk);
    assert(x4.len() == d + 16 + nk);
    assert(s == x4 + tail);
    lemma_concat_parts(x4, tail);
    lemma_concat_parts(x3, k);
    lemma_concat_parts(x2l, c);
    lemma_concat_parts(x2, ls);
    lemma_concat_parts(x1, h);
    lemma_concat_parts(vs, ps);
    lemma_sub_sub(s, 0, x4.len() as int, 0, x3.len() as int);
    lemma_sub_sub(s, 0, x4.len() as int, x3.len() as int, x4.len() as int);
    lemma_sub_sub(s, 0, x3.len() as int, 0, x2l.len() as int);
    lemma_sub_sub(s, 0, x3.len() as int, x2l.len() as int, x3.len() as int);
    lemma_sub_sub(s, 0, x2l.len() as int, 0, x2.len() as int);
    lemma_sub_sub(s, 0, x2l.len() as int, x2.len() as int, x2l.len() as int);
    lemma_sub_sub(s, 0, x2.len() as int, 0, x1.len() as int);
    lemma_sub_sub(s, 0, x2.len() as int, x1.len() as int, x2.len() as int);
    lemma_sub_sub(s, 0, x1.len() as int, 0, a);
    lemma_sub_sub(s, 0, x1.len() as int, a, b);
    assert(s.subrange(0, a) == vs);
    assert(s.subrange(a, b) == ps);
    assert(s.subrange(b, b + 72) == h);
    assert(s.subrange(b + 72, d) == ls);
    assert(s.subrange(d, d + 8) == c);
    assert(s.subrange(d + 8, d + 16 + nk) == k);
    lemma_read_vesta_section(s, 0, v.vesta_g);
    assert(s.skip(0) =~= s);
    lemma_read_pallas_section(s, a, v.wrap_g);
    lemma_read_record(s, b, v.wrap_h.x, v.wrap_h.y, v.wrap_h.infinity, v.wrap_h._pad);
    lemma_read_pallas_section(s, b + 72, v.wrap_lagrange);
    lemma_read_u64_at(s, d, v.step_num_chunks);
    lemma_concat_parts(u64_le(nk as u64), v.wrap_vk);
    lemma_sub_sub(s, d + 8, d + 16 + nk, 0, 8);
    lemma_sub_sub(s, d + 8, d + 16 + nk, 8, 8 + nk);
    lemma_read_u64_at(s, d + 8, nk as u64);
    assert(wrap_section_offset(s) == a);
    assert(wrap_h_offset(s) == b);
    assert(lagrange_offset(s) == b + 72);
    assert(chunks_offset(s) == d);
    assert(vk_len(s) == nk);
    assert(s.subrange(d + 16, d + 16 + nk) == v.wrap_vk);
}


/// A point record holds `x`'s four limbs, then `y`'s, each little-endian,
/// then the infinity flag and the seven padding bytes.
pub proof fn lemma_record_layout(x: [u64; 4], y: [u64; 4], infinity: u8, pad: [u8; 7])
    ensures
        record_bytes(x, y, infinity, pad).len() == 72,
        forall|i: int| 0 <= i < 4 ==> record_bytes(x, y, infinity, pad).subrange(8 * i, 8 * i + 8) == u64_le(#[trigger] x[i]),
        forall|i: int|
            0 <= i < 4 ==> record_bytes(x, y, infinity, pad).subrange(32 + 8 * i, 40 + 8 * i) == u64_le(#[trigger] y[i]),
        record_bytes(x, y, infinity, pad)[64] == infinity,
        record_bytes(x, y, infinity, pad).subrange(65, 72) == pad@,
{
    reveal(record_bytes);
    lemma_record_len(x, y, infinity, pad);
    let r = record_bytes(x, y, infinity, pad);
    lemma_u64_le_roundtrip(x[0]);
    lemma_u64_le_roundtrip(x[1]);
    lemma_u64_le_roundtrip(x[2]);
    lemma_u64_le_roundtrip(x[3]);
    lemma_u64_le_roundtrip(y[0]);
    lemma_u64_le_roundtrip(y[1]);
    lemma_u64_le_roundtrip(y[2]);
    lemma_u64_le_roundtrip(y[3]);
    assert(r.subrange(0, 8) =~= u64_le(x[0]));
    assert(r.subrange(8, 16) =~= u64_le(x[1]));
    assert(r.subrange(16, 24) =~= u64_le(x[2]));
    assert(r.subrange(24, 32) =~= u64_le(x[3]));
    assert(r.subrange(32, 40) =~= u64_le(y[0]));
    assert(r.subrange(40, 48) =~= u64_le(y[1]));
    assert(r.subrange(48, 56) =~= u64_le(y[2]));
    assert(r.subrange(56, 64) =~= u64_le(y[3]));
    assert(r.subrange(65, 72) =~= pad@);
    assert forall|i: int| 0 <= i < 4 implies r.subrange(8 * i, 8 * i + 8) == u64_le(#[trigger] x[i]) by {
        if i == 0 {
        } else if i == 1 {
        } else if i == 2 {
        } else {
        }
    }
    assert forall|i: int| 0 <= i < 4 implies r.subrange(32 + 8 * i, 40 + 8 * i) == u64_le(#[trigger] y[i]) by {
        if i == 0 {
        } else if i == 1 {
        } else if i == 2 {
        } else {
        }
    }
}

/// The blob is laid out as documented: the Vesta SRS count and records from
/// offset 0, then the wrap SRS count and records, the wrap blinder `h`, the
/// Lagrange basis count and records, the step chunk count, and the wrap
/// key's length and bytes, with nothing after them; every count and length
/// a little-endian `u64`, every record 72 bytes.
#[verifier::rlimit(100)]
pub proof fn lemma_blob_layout(v: BlobView)
    requires
        blob_fits(v),
    ensures
        blob_bytes(v).len() == 8int + 72 * v.vesta_g.len() + 8int + 72 * v.wrap_g.len() + 72 + 8 + 72
            * v.wrap_lagrange.len() + 8 + 8 + v.wrap_vk.len(),
        blob_bytes(v).subrange(0, 8) == u64_le(v.vesta_g.len() as u64),
        forall|i: int|
            0 <= i < v.vesta_g.len() ==> blob_bytes(v).subrange(8 + 72 * i, 80 + 72 * i) == pod_vesta_bytes(
                #[trigger] v.vesta_g[i],
            ),
        blob_bytes(v).subrange(8int + 72 * v.vesta_g.len(), 16int + 72 * v.vesta_g.len()) == u64_le(
            v.wrap_g.len() as u64,
        ),
        forall|i: int|
            0 <= i < v.wrap_g.len() ==> blob_bytes(v).subrange(
                16int + 72 * v.vesta_g.len() + 72 * i,
                88int + 72 * v.vesta_g.len() + 72 * i,
            ) == pod_pallas_bytes(#[trigger] v.wrap_g[i]),
        blob_bytes(v).subrange(
            16int + 72 * v.vesta_g.len() + 72 * v.wrap_g.len(),
            88int + 72 * v.vesta_g.len() + 72 * v.wrap_g.len(),
        ) == pod_pallas_bytes(v.wrap_h),
        blob_bytes(v).subrange(
            88int + 72 * v.vesta_g.len() + 72 * v.wrap_g.len(),
            96int + 72 * v.vesta_g.len() + 72 * v.wrap_g.len(),
        ) == u64_le(v.wrap_lagrange.len() as u64),
        forall|i: int|
            0 <= i < v.wrap_lagrange.len() ==> blob_bytes(v).subrange(
                96int + 72 * v.vesta_g.len() + 72 * v.wrap_g.len() + 72 * i,
                168int + 72 * v.vesta_g.len() + 72 * v.wrap_g.len() + 72 * i,
            ) == pod_pallas_bytes(#[trigger] v.wrap_lagrange[i]),
        blob_bytes(v).subrange(
            96int + 72 * v.vesta_g.len() + 72 * v.wrap_g.len() + 72 * v.wrap_lagrange.len(),
            104int + 72 * v.vesta_g.len() + 72 * v.wrap_g.len() + 72 * v.wrap_lagrange.len(),
        ) == u64_le(v.step_num_chunks),
        blob_bytes(v).subrange(
            104int + 72 * v.vesta_g.len() + 72 * v.wrap_g.len() + 72 * v.wrap_lagrange.len(),
            112int + 72 * v.vesta_g.len() + 72 * v.wrap_g.len() + 72 * v.wrap_lagrange.len(),
        ) == u64_le(v.wrap_vk.len() as u64),
        blob_bytes(v).subrange(
            112int + 72 * v.vesta_g.len() + 72 * v.wrap_g.len() + 72 * v.wrap_lagrange.len(),
            blob_bytes(v).len() as int,
        ) == v.wrap_vk,
{
    let s = blob_bytes(v);
    let n1 = v.vesta_g.len() as int;
    let n2 = v.wrap_g.len() as int;
    let n3 = v.wrap_lagrange.len() as int;
    let nk = v.wrap_vk.len() as int;
    let vr = vesta_records(v.vesta_g);
    let pr = pallas_records(v.wrap_g);
    let lr = pallas_records(v.wrap_lagrange);
    let vs = vesta_section(v.vesta_g);
    let ps = pallas_section(v.wrap_g);
    let h = pod_pallas_bytes(v.wrap_h);
    let ls = pallas_section(v.wrap_lagrange);
    let c = u64_le(v.step_num_chunks);
    let k = bytes_section(v.wrap_vk);
    lemma_vesta_records(v.vesta_g);
    lemma_pallas_records(v.wrap_g);
    lemma_pallas_records(v.wrap_lagrange);
    lemma_record_len(v.wrap_h.x, v.wrap_h.y, v.wrap_h.infinity, v.wrap_h._pad);
    lemma_u64_le_roundtrip(n1 as u64);
    lemma_u64_le_roundtrip(n2 as u64);
    lemma_u64_le_roundtrip(n3 as u64);
    lemma_u64_le_roundtrip(nk as u64);
    lemma_u64_le_roundtrip(v.step_num_chunks);
    let a = 8 + 72 * n1;
    let b = a + 8 + 72 * n2;
    let d = b + 72 + 8 + 72 * n3;
    assert(s =~= u64_le(n1 as u64) + vr + (u64_le(n2 as u64) + pr) + h + (u64_le(n3 as u64) + lr) + c + (u64_le(
        nk as u64,
    ) + v.wrap_vk));
    assert(s.len() == d + 16 + nk);
    assert(s.subrange(0, 8) =~= u64_le(n1 as u64));
    assert forall|i: int| 0 <= i < n1 implies s.subrange(8 + 72 * i, 80 + 72 * i) == pod_vesta_bytes(
        #[trigger] v.vesta_g[i],
    ) by {
        assert(vr.subrange(72 * i, 72 * i + 72) == pod_vesta_bytes(v.vesta_g[i]));
        assert(s.subrange(8 + 72 * i, 80 + 72 * i) =~= vr.subrange(72 * i, 72 * i + 72));
    }
    assert(s.subrange(a, a + 8) =~= u64_le(n2 as u64));
    assert forall|i: int| 0 <= i < n2 implies s.subrange(a + 8 + 72 * i, a + 80 + 72 * i) == pod_pallas_bytes(
        #[trigger] v.wrap_g[i],
    ) by {
        assert(pr.subrange(72 * i, 72 * i + 72) == pod_pallas_bytes(v.wrap_g[i]));
        assert(s.subrange(a + 8 + 72 * i, a + 80 + 72 * i) =~= pr.subrange(72 * i, 72 * i + 72));
    }
    assert(s.subrange(b, b + 72) =~= h);
    assert(s.subrange(b + 72, b + 80) =~= u64_le(n3 as u64));
    assert forall|i: int| 0 <= i < n3 implies s.subrange(b + 80 + 72 * i, b + 152 + 72 * i) == pod_pallas_bytes(
        #[trigger] v.wrap_lagrange[i],
    ) by {
        assert(lr.subrange(72 * i, 72 * i + 72) == pod_pallas_bytes(v.wrap_lagrange[i]));
        assert(s.subrange(b + 80 + 72 * i, b + 152 + 72 * i) =~= lr.subrange(72 * i, 72 * i + 72));
    }
    assert(s.subrange(d, d + 8) =~= c);
    assert(s.subrange(d + 8, d + 16) =~= u64_le(nk as u64));
    assert(s.subrange(d + 16, s.len() as int) =~= v.wrap_vk);
}


/// The eight bytes of `x` are its base-256 digits, least significant
/// first.
pub proof fn lemma_u64_le_digits(x: u64)
    ensures
        u64_le(x).len() == 8,
        forall|k: int| 0 <= k < 8 ==> #[trigger] u64_le(x)[k] as int == (x as int / pow(256, k as nat)) % 256,
{
    reveal(u64_le);
    reveal_with_fuel(pow, 9);
    assert(((x & 0xff) as u8) as int == (x as int / 1) % 256) by {
        assert(x & 0xff == x % 256) by (bit_vector);
    }
    assert((((x >> 8u64) & 0xff) as u8) as int == (x as int / 0x100) % 256) by {
        assert((x >> 8u64) & 0xff == (x / 0x100) % 256) by (bit_vector);
    }
    assert((((x >> 16u64) & 0xff) as u8) as int == (x as int / 0x10000) % 256) by {
        assert((x >> 16u64) & 0xff == (x / 0x10000) % 256) by (bit_vector);
    }
    assert((((x >> 24u64) & 0xff) as u8) as int == (x as int / 0x1000000) % 256) by {
        assert((x >> 24u64) & 0xff == (x / 0x1000000) % 256) by (bit_vector);
    }
    assert((((x >> 32u64) & 0xff) as u8) as int == (x as int / 0x100000000) % 256) by {
        assert((x >> 32u64) & 0xff == (x / 0x100000000) % 256) by (bit_vector);
    }
    assert((((x >> 40u64) & 0xff) as u8) as int == (x as int / 0x10000000000) % 256) by {
        assert((x >> 40u64) & 0xff == (x / 0x10000000000) % 256) by (bit_vector);
    }
    assert((((x >> 48u64) & 0xff) as u8) as int == (x as int / 0x1000000000000) % 256) by {
        assert((x >> 48u64) & 0xff == (x / 0x1000000000000) % 256) by (bit_vector);
    }
    assert((((x >> 56u64) & 0xff) as u8) as int == (x as int / 0x100000000000000) % 256) by {
        assert((x >> 56u64) & 0xff == (x / 0x100000000000000) % 256) by (bit_vector);
    }
    assert(pow(256, 0) == 1);
    assert(pow(256, 1) == 0x100);
    assert(pow(256, 2) == 0x10000);
    assert(pow(256, 3) == 0x1000000);
    assert(pow(256, 4) == 0x100000000);
    assert(pow(256, 5) == 0x10000000000);
    assert(pow(256, 6) == 0x1000000000000);
    assert(pow(256, 7) == 0x100000000000000);
}

} // verus!
