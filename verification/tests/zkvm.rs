use pickles_verifier::zkvm::request_url;

#[test]
fn request_url_joins_without_doubled_slashes() {
    assert_eq!(request_url("https://explorer.succinct.xyz", "0xab"), "https://explorer.succinct.xyz/request/0xab");
    assert_eq!(request_url("https://explorer.succinct.xyz///", "0xab"), "https://explorer.succinct.xyz/request/0xab");
    assert_eq!(request_url("", "1"), "/request/1");
    assert_eq!(request_url("/", "1"), "/request/1");
}
