use pickles_verifier::encoding::decode_standard_or_url_safe;
use pickles_verifier::ingest::o1js::{proof_bytes, O1jsProofJson, ParseError};
use pickles_verifier::ingest::o1js_vk::{vk_bytes, wrap_index_commitments, O1jsVkJson, VkError, VkWrapIndex};

fn envelope(proof: &str) -> O1jsProofJson {
    O1jsProofJson {
        public_input: vec!["0x01".into()],
        public_output: vec![],
        max_proofs_verified: 0,
        proof: proof.into(),
    }
}

#[test]
fn proof_bytes_reads_standard_base64() {
    assert_eq!(proof_bytes(&envelope("AQID")).unwrap(), vec![1, 2, 3]);
    assert_eq!(proof_bytes(&envelope("+/8=")).unwrap(), vec![0xfb, 0xff]);
    assert_eq!(proof_bytes(&envelope("")).unwrap(), Vec::<u8>::new());
}

#[test]
fn proof_bytes_falls_back_to_url_safe_base64() {
    assert_eq!(proof_bytes(&envelope("-_8=")).unwrap(), vec![0xfb, 0xff]);
}

#[test]
fn proof_bytes_refuses_other_text() {
    let e = proof_bytes(&envelope("!!!!")).unwrap_err();
    assert!(matches!(e, ParseError::Base64(_)));
    assert!(e.message().starts_with("o1js base64 decode: "));
    // unpadded text is refused by both padded engines
    assert!(matches!(proof_bytes(&envelope("AQI")), Err(ParseError::Base64(_))));
}

#[test]
fn parse_error_messages() {
    assert_eq!(ParseError::Json("eof".into()).message(), "o1js JSON parse: eof");
    assert_eq!(ParseError::BinProt("bad tag".into()).message(), "o1js inner bin_prot decode: bad tag");
}

#[test]
fn standard_or_url_safe_decoding() {
    assert_eq!(decode_standard_or_url_safe("aGk=").unwrap(), b"hi".to_vec());
    assert_eq!(decode_standard_or_url_safe("-_8=").unwrap(), vec![0xfb, 0xff]);
    assert!(decode_standard_or_url_safe("a").is_err());
}

#[test]
fn vk_bytes_reads_the_data_field() {
    let env = O1jsVkJson { data: "AQID".into(), hash: Some("123".into()) };
    assert_eq!(vk_bytes(&env).unwrap(), vec![1, 2, 3]);
    let env = O1jsVkJson { data: "-_8=".into(), hash: None };
    assert_eq!(vk_bytes(&env).unwrap(), vec![0xfb, 0xff]);
    let env = O1jsVkJson { data: "*".into(), hash: None };
    let e = vk_bytes(&env).unwrap_err();
    assert!(matches!(e, VkError::Base64(_)));
    assert!(e.message().starts_with("o1js VK base64: "));
}

#[test]
fn vk_error_messages() {
    assert_eq!(VkError::Json("x".into()).message(), "o1js VK JSON: x");
    assert_eq!(VkError::BinProt("x".into()).message(), "o1js VK bin_prot: x");
    assert_eq!(VkError::Field("x".into()).message(), "o1js VK field: x");
    assert_eq!(VkError::Template("x".into()).message(), "template VK parse: x");
}

fn big(b: u8) -> [u8; 32] {
    let mut a = [0u8; 32];
    a[0] = b;
    a
}

#[test]
fn vk_commitments_keep_their_order() {
    let wi = VkWrapIndex {
        sigma_comm: std::array::from_fn(|i| (big(i as u8), big(100 + i as u8))),
        coefficients_comm: std::array::from_fn(|i| (big(10 + i as u8), big(110 + i as u8))),
        generic_comm: (big(30), big(130)),
        psm_comm: (big(31), big(131)),
        complete_add_comm: (big(32), big(132)),
        mul_comm: (big(33), big(133)),
        emul_comm: (big(34), big(134)),
        endomul_scalar_comm: (big(35), big(135)),
    };
    let c = wrap_index_commitments(&wi).unwrap();
    assert_eq!(c.sigma_comm.len(), 7);
    assert_eq!(c.sigma_comm[6].x, big(6).to_vec());
    assert_eq!(c.sigma_comm[6].y, big(106).to_vec());
    assert_eq!(c.coefficients_comm.len(), 15);
    assert_eq!(c.coefficients_comm[14].x, big(24).to_vec());
    assert_eq!(c.generic_comm.x, big(30).to_vec());
    assert_eq!(c.psm_comm.y, big(131).to_vec());
    assert_eq!(c.complete_add_comm.x, big(32).to_vec());
    assert_eq!(c.mul_comm.x, big(33).to_vec());
    assert_eq!(c.emul_comm.x, big(34).to_vec());
    assert_eq!(c.endomul_scalar_comm.y, big(135).to_vec());
}

#[test]
fn vk_coordinates_must_be_step_field_elements() {
    let base = || VkWrapIndex {
        sigma_comm: std::array::from_fn(|i| (big(i as u8), big(100 + i as u8))),
        coefficients_comm: std::array::from_fn(|i| (big(10 + i as u8), big(110 + i as u8))),
        generic_comm: (big(30), big(130)),
        psm_comm: (big(31), big(131)),
        complete_add_comm: (big(32), big(132)),
        mul_comm: (big(33), big(133)),
        emul_comm: (big(34), big(134)),
        endomul_scalar_comm: (big(35), big(135)),
    };
    let mut wi = base();
    wi.coefficients_comm[4].1 = [0xff; 32];
    assert_eq!(wrap_index_commitments(&wi).err().unwrap(), VkError::Field("y: DeserializeBytes".into()));
    let mut wi = base();
    wi.mul_comm.0 = [0xff; 32];
    wi.mul_comm.1 = [0xff; 32];
    let e = wrap_index_commitments(&wi).err().unwrap();
    assert_eq!(e, VkError::Field("x: DeserializeBytes".into()));
    assert_eq!(e.message(), "o1js VK field: x: DeserializeBytes");
}
