use blake2::{Blake2s256, Digest};
use pickles_verifier::batch::{batch_rng_seed, batch_transcript_bytes, BATCH_DOMAIN};

fn expected_transcript(pairs: &[(&[u8], &[u8])]) -> Vec<u8> {
    let mut t = BATCH_DOMAIN.as_bytes().to_vec();
    for (p, q) in pairs {
        t.extend_from_slice(&(p.len() as u64).to_le_bytes());
        t.extend_from_slice(p);
        t.extend_from_slice(&(q.len() as u64).to_le_bytes());
        t.extend_from_slice(q);
    }
    t
}

#[test]
fn transcript_frames_each_part_with_its_length() {
    let t = batch_transcript_bytes(&[vec![1, 2], vec![]], &[vec![3], vec![4, 5, 6]]);
    let e = expected_transcript(&[(&[1, 2], &[3]), (&[], &[4, 5, 6])]);
    assert_eq!(t, e);
    assert!(t.starts_with(b"pickles-verifier/batch-dlog-rng/v1"));
    assert_eq!(&t[34..42], &[2, 0, 0, 0, 0, 0, 0, 0]);
}

#[test]
fn transcript_takes_pairs_while_both_lists_have_items() {
    let t = batch_transcript_bytes(&[vec![1], vec![2]], &[vec![9]]);
    assert_eq!(t, expected_transcript(&[(&[1], &[9])]));
    assert_eq!(batch_transcript_bytes(&[], &[vec![1]]), BATCH_DOMAIN.as_bytes().to_vec());
}

#[test]
fn seed_is_blake2s_of_the_transcript() {
    let proofs = vec![vec![7u8; 40]];
    let inputs = vec![vec![8u8; 3]];
    let seed = batch_rng_seed(&proofs, &inputs);
    let digest: [u8; 32] = Blake2s256::digest(expected_transcript(&[(&[7u8; 40], &[8u8; 3])])).into();
    assert_eq!(seed, digest);
    // a different proof gives a different seed
    assert_ne!(seed, batch_rng_seed(&[vec![7u8; 39]], &inputs));
}

#[test]
fn blake2s_known_answer() {
    // blake2s-256 of the empty message
    let empty: [u8; 32] = Blake2s256::digest(b"").into();
    assert_eq!(
        hex::encode(empty),
        "69217a3079908094e11121d042354a7c1f55b6482ca1a51e1b250dfd1ed0eef9"
    );
    let seed = batch_rng_seed(&[], &[]);
    let tag: [u8; 32] = Blake2s256::digest(BATCH_DOMAIN.as_bytes()).into();
    assert_eq!(seed, tag);
}
