use pickles_verifier::fetch::{decode_state_proof, fixture_parts_of, truncate, JsonValue, Network, ResponseFault};

#[test]
fn network_endpoints() {
    assert_eq!(
        Network::MesaMut.endpoint(),
        "https://plain-1-graphql.mesa-mut.minaprotocol.com/graphql"
    );
    assert_eq!(Network::Mainnet.endpoint(), "https://api.minascan.io/node/mainnet/v1/graphql");
}

#[test]
fn truncate_keeps_short_text() {
    assert_eq!(truncate("abc", 3), "abc");
    assert_eq!(truncate("", 0), "");
}

#[test]
fn truncate_marks_long_text() {
    assert_eq!(truncate("abcdef", 2), "ab…(truncated)");
    // `é` is two bytes; 3 is a character boundary after it.
    assert_eq!(truncate("aébc", 3), "aé…(truncated)");
}

fn obj(entries: Vec<(&str, JsonValue)>) -> JsonValue {
    JsonValue::Object(entries.into_iter().map(|(k, v)| (k.to_string(), v)).collect())
}

fn s(t: &str) -> JsonValue {
    JsonValue::Str(t.to_string())
}

fn block() -> JsonValue {
    obj(vec![
        ("stateHashField", s("123")),
        ("protocolStateProof", obj(vec![("base64", s("AQID"))])),
    ])
}

fn response(best_chain: JsonValue) -> JsonValue {
    obj(vec![(
        "data",
        obj(vec![("blockchainVerificationKey", obj(vec![("k", JsonValue::Null)])), ("bestChain", best_chain)]),
    )])
}

#[test]
fn json_get_finds_members() {
    let v = obj(vec![("a", JsonValue::Bool(true)), ("b", s("x"))]);
    assert!(matches!(v.get("a"), Some(JsonValue::Bool(true))));
    assert_eq!(v.get("b").unwrap().as_str(), Some("x"));
    assert!(v.get("c").is_none());
    assert!(s("a").get("a").is_none());
    assert!(JsonValue::Array(vec![]).as_array().unwrap().is_empty());
    assert!(JsonValue::Number("1".into()).as_str().is_none());
}

#[test]
fn fixture_parts_of_a_good_response() {
    let resp = response(JsonValue::Array(vec![block()]));
    let (vk, state_hash, b64) = fixture_parts_of(&resp).unwrap();
    assert!(vk.get("k").is_some());
    assert_eq!(state_hash, "123");
    assert_eq!(b64, "AQID");
}

#[test]
fn fixture_parts_faults() {
    let errs = obj(vec![("errors", JsonValue::Array(vec![])), ("data", JsonValue::Null)]);
    assert_eq!(fixture_parts_of(&errs).unwrap_err(), ResponseFault::GraphqlErrors);
    assert_eq!(fixture_parts_of(&obj(vec![])).unwrap_err(), ResponseFault::NoData);
    let no_vk = obj(vec![("data", obj(vec![("bestChain", JsonValue::Array(vec![block()]))]))]);
    assert_eq!(fixture_parts_of(&no_vk).unwrap_err(), ResponseFault::MissingVerificationKey);
    assert_eq!(fixture_parts_of(&response(s("x"))).unwrap_err(), ResponseFault::MissingBestChain);
    assert_eq!(fixture_parts_of(&response(JsonValue::Array(vec![]))).unwrap_err(), ResponseFault::EmptyBestChain);
    let no_hash = obj(vec![("protocolStateProof", obj(vec![("base64", s("AQID"))]))]);
    assert_eq!(
        fixture_parts_of(&response(JsonValue::Array(vec![no_hash]))).unwrap_err(),
        ResponseFault::MissingStateHash
    );
    let number_hash = obj(vec![("stateHashField", JsonValue::Number("1".into()))]);
    assert_eq!(
        fixture_parts_of(&response(JsonValue::Array(vec![number_hash]))).unwrap_err(),
        ResponseFault::MissingStateHash
    );
    let no_proof = obj(vec![("stateHashField", s("1")), ("protocolStateProof", obj(vec![]))]);
    assert_eq!(
        fixture_parts_of(&response(JsonValue::Array(vec![no_proof]))).unwrap_err(),
        ResponseFault::MissingProof
    );
}

#[test]
fn response_fault_messages() {
    assert_eq!(ResponseFault::GraphqlErrors.message(), "GraphQL errors: ");
    assert_eq!(ResponseFault::NoData.message(), "response had no data field: ");
    assert_eq!(ResponseFault::MissingVerificationKey.message(), "response missing blockchainVerificationKey");
    assert_eq!(ResponseFault::MissingBestChain.message(), "response missing bestChain array");
    assert_eq!(ResponseFault::EmptyBestChain.message(), "bestChain is empty");
    assert_eq!(ResponseFault::MissingStateHash.message(), "missing bestChain[0].stateHashField");
    assert_eq!(ResponseFault::MissingProof.message(), "missing bestChain[0].protocolStateProof.base64");
}

#[test]
fn state_proof_base64_variants() {
    // URL-safe with padding
    assert_eq!(decode_state_proof("-_8=").unwrap(), vec![0xfb, 0xff]);
    // URL-safe without padding
    assert_eq!(decode_state_proof("AQI").unwrap(), vec![1, 2]);
    // standard
    assert_eq!(decode_state_proof("+/8=").unwrap(), vec![0xfb, 0xff]);
    assert!(decode_state_proof("!").is_err());
}
