use pickles_verifier::serialize::{decode_verifier_blob, encode_verifier_blob, verifier_blob_fits, PodPallas, PodVesta};
use std::mem::{align_of, size_of};

/// Pod structs match the size + alignment we encode.
#[test]
fn pod_layouts_are_8_byte_aligned_72_bytes() {
    assert_eq!(size_of::<PodVesta>(), 72);
    assert_eq!(size_of::<PodPallas>(), 72);
    assert_eq!(align_of::<PodVesta>(), 8);
    assert_eq!(align_of::<PodPallas>(), 8);
}

fn vesta(seed: u64) -> PodVesta {
    PodVesta {
        x: [seed, seed + 1, seed + 2, u64::MAX - seed],
        y: [seed << 8, 7, 0, 1 << 63],
        infinity: (seed % 2) as u8,
        _pad: [0; 7],
    }
}

fn pallas(seed: u64) -> PodPallas {
    PodPallas {
        x: [seed * 3, 0x0102_0304_0506_0708, seed, 9],
        y: [1, 2, 3, seed],
        infinity: 0,
        _pad: [0; 7],
    }
}

#[test]
fn blob_roundtrips() {
    let vg = vec![vesta(1), vesta(2), vesta(3)];
    let wg = vec![pallas(10), pallas(11)];
    let h = pallas(99);
    let vk = b"postcard wrap vk bytes".to_vec();
    let lag = vec![pallas(20), pallas(21), pallas(22), pallas(23)];
    let blob = encode_verifier_blob(&vg, &wg, &h, &lag, 4, &vk);
    assert_eq!(blob.len(), 8 + 3 * 72 + 8 + 2 * 72 + 72 + 8 + 4 * 72 + 8 + 8 + vk.len());
    let d = decode_verifier_blob(&blob);
    assert_eq!(d.vesta_g, vg);
    assert_eq!(d.wrap_g, wg);
    assert_eq!(d.wrap_h, h);
    assert_eq!(d.wrap_lagrange, lag);
    assert_eq!(d.step_num_chunks, 4);
    assert_eq!(d.wrap_vk, vk);
}

#[test]
fn blob_decode_ignores_trailing_bytes() {
    let vg = vec![vesta(5)];
    let mut blob = encode_verifier_blob(&vg, &[], &pallas(1), &[pallas(4)], 1, &[7, 8, 9]);
    blob.extend_from_slice(&[0xaa; 13]);
    let d = decode_verifier_blob(&blob);
    assert_eq!(d.vesta_g, vg);
    assert!(d.wrap_g.is_empty());
    assert_eq!(d.wrap_lagrange, vec![pallas(4)]);
    assert_eq!(d.wrap_vk, vec![7, 8, 9]);
}

#[test]
fn blob_layout_is_little_endian() {
    let h = PodPallas { x: [0x0102_0304_0506_0708, 0, 0, 0], y: [0; 4], infinity: 1, _pad: [0; 7] };
    let blob = encode_verifier_blob(&[], &[], &h, &[], 0x0a0b, &[0xee]);
    // two empty sections, then the blinder record
    assert_eq!(&blob[0..16], &[0u8; 16]);
    assert_eq!(&blob[16..24], &[8, 7, 6, 5, 4, 3, 2, 1]);
    assert_eq!(blob[16 + 64], 1);
    // an empty Lagrange-basis section
    assert_eq!(&blob[88..96], &[0u8; 8]);
    // step_num_chunks, then the length-prefixed verifier index bytes
    assert_eq!(&blob[96..104], &[0x0b, 0x0a, 0, 0, 0, 0, 0, 0]);
    assert_eq!(&blob[104..112], &[1, 0, 0, 0, 0, 0, 0, 0]);
    assert_eq!(&blob[112..], &[0xee]);
}

#[test]
fn blob_fits_exactly_when_its_sections_are_inside() {
    let blob = encode_verifier_blob(&[vesta(1)], &[pallas(2)], &pallas(3), &[pallas(4), pallas(5)], 1, b"vk");
    assert!(verifier_blob_fits(&blob));
    assert!(!verifier_blob_fits(&blob[..blob.len() - 1]));
    assert!(!verifier_blob_fits(&[]));
    assert!(!verifier_blob_fits(&[1, 0, 0, 0, 0, 0, 0]));
    // a length field announcing more records than there are bytes
    let mut big = blob.clone();
    big[0] = 0xff;
    assert!(!verifier_blob_fits(&big));
    let mut huge = blob.clone();
    huge[..8].copy_from_slice(&u64::MAX.to_le_bytes());
    assert!(!verifier_blob_fits(&huge));
}

#[test]
fn lagrange_section_length_is_checked() {
    let blob = encode_verifier_blob(&[], &[], &pallas(3), &[pallas(4)], 1, b"vk");
    assert!(verifier_blob_fits(&blob));
    // the Lagrange-basis length field sits after the two empty sections and the blinder
    let mut long = blob.clone();
    long[88] = 3;
    assert!(!verifier_blob_fits(&long));
    let mut short = blob.clone();
    short[88] = 0;
    // a shorter announced basis moves the later fields; the vk length is then read from record bytes
    assert_eq!(verifier_blob_fits(&short), {
        let o = 88 + 8;
        let l = u64::from_le_bytes(short[o + 8..o + 16].try_into().unwrap()) as u128;
        (o as u128) + 16 + l <= short.len() as u128
    });
}
