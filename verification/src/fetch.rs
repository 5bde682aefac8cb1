//! Choices made when fetching a blockchain SNARK fixture from a daemon's
//! GraphQL endpoint: which endpoint a network names, what a response must
//! hold and where, how the proof's base64 is read, and how a response is
//! shortened for an error message.
use vstd::prelude::*;
use vstd::string::*;
use vstd::utf8::*;
use crate::encoding::{
    base64_standard, base64_url_safe, base64_url_safe_no_pad, decode_standard, decode_url_safe,
    decode_url_safe_no_pad,
};
use crate::ingest::sexpr::str_eq;

verus! {

broadcast use vstd::utf8::group_utf8_lib;

/// A Mina network with a public GraphQL endpoint.
#[derive(Copy, Clone, Debug, PartialEq, Eq)]
pub enum Network {
    MesaMut,
    Mainnet,
}

impl Network {
    pub fn endpoint(self) -> (r: &'static str)
        ensures
            self is MesaMut ==> r@ == "https://plain-1-graphql.mesa-mut.minaprotocol.com/graphql"@,
            self is Mainnet ==> r@ == "https://api.minascan.io/node/mainnet/v1/graphql"@,
    {
        match self {
            Network::MesaMut => "https://plain-1-graphql.mesa-mut.minaprotocol.com/graphql",
            Network::Mainnet => "https://api.minascan.io/node/mainnet/v1/graphql",
        }
    }
}

/// What a shortened text ends with.
pub const TRUNCATION_MARKER: &'static str = "\u{2026}(truncated)";

/// `s` itself when it has at most `n` bytes; otherwise its first `n` bytes
/// followed by a marker. `n` must then fall on a character boundary.
pub fn truncate(s: &str, n: usize) -> (r: String)
    requires
        s.spec_bytes().len() <= n || is_char_boundary(s.spec_bytes(), n as int),
    ensures
        r@ == if s.spec_bytes().len() <= n {
            s@
        } else {
            decode_utf8(s.spec_bytes().take(n as int)) + TRUNCATION_MARKER@
        },
{
    if s.as_bytes().len() <= n {
        s.to_owned()
    } else {
        let (head, _rest) = s.split_at(n);
        proof {
            assert(head.spec_bytes() =~= s.spec_bytes().take(n as int));
            encode_utf8_decode_utf8(head@);
        }
        let mut r = head.to_owned();
        assert(r@ == decode_utf8(s.spec_bytes().take(n as int)));
        r.append(TRUNCATION_MARKER);
        r
    }
}

// ---------------------------------------------------------------------------
// The GraphQL response
// ---------------------------------------------------------------------------

/// A JSON value as the response's reader gives it; a number is kept as its
/// text.
#[derive(Debug)]
pub enum JsonValue {
    Null,
    Bool(bool),
    Number(String),
    Str(String),
    Array(Vec<JsonValue>),
    Object(Vec<(String, JsonValue)>),
}

pub enum JsonView {
    Null,
    Bool(bool),
    Number(Seq<char>),
    Str(Seq<char>),
    Array(Seq<JsonView>),
    Object(Seq<(Seq<char>, JsonView)>),
}

pub open spec fn json_view(v: JsonValue) -> JsonView
    decreases v,
{
    match v {
        JsonValue::Null => JsonView::Null,
        JsonValue::Bool(b) => JsonView::Bool(b),
        JsonValue::Number(n) => JsonView::Number(n@),
        JsonValue::Str(t) => JsonView::Str(t@),
        JsonValue::Array(items) => JsonView::Array(json_seq_view(items@)),
        JsonValue::Object(entries) => JsonView::Object(json_entries_view(entries@)),
    }
}

pub open spec fn json_seq_view(items: Seq<JsonValue>) -> Seq<JsonView>
    decreases items,
{
    if items.len() == 0 {
        Seq::empty()
    } else {
        json_seq_view(items.drop_last()).push(json_view(items.last()))
    }
}

pub open spec fn json_entries_view(entries: Seq<(String, JsonValue)>) -> Seq<(Seq<char>, JsonView)>
    decreases entries,
{
    if entries.len() == 0 {
        Seq::empty()
    } else {
        let e = entries.last();
        json_entries_view(entries.drop_last()).push((e.0@, json_view(e.1)))
    }
}

impl View for JsonValue {
    type V = JsonView;

    open spec fn view(&self) -> JsonView {
        json_view(*self)
    }
}

proof fn lemma_entries_view_index(entries: Seq<(String, JsonValue)>)
    ensures
        json_entries_view(entries).len() == entries.len(),
        forall|i: int|
            0 <= i < entries.len() ==> #[trigger] json_entries_view(entries)[i] == (
                entries[i].0@,
                json_view(entries[i].1),
            ),
    decreases entries.len(),
{
    if entries.len() > 0 {
        lemma_entries_view_index(entries.drop_last());
    }
}

/// The value under the first entry named `key`, from position `i` on.
pub open spec fn entries_get(es: Seq<(Seq<char>, JsonView)>, key: Seq<char>, i: int) -> Option<JsonView>
    decreases es.len() - i,
{
    if i < 0 || i >= es.len() {
        None
    } else if es[i].0 == key {
        Some(es[i].1)
    } else {
        entries_get(es, key, i + 1)
    }
}

/// `value.get(key)`: the member named `key` of an object.
pub open spec fn json_get(v: JsonView, key: Seq<char>) -> Option<JsonView> {
    match v {
        JsonView::Object(es) => entries_get(es, key, 0),
        _ => None,
    }
}

impl JsonValue {
    /// The member named `key` of an object; `None` for a value of another
    /// kind or an object without it.
    pub fn get(&self, key: &str) -> (r: Option<&JsonValue>)
        ensures
            match r {
                Some(x) => json_get(self@, key@) == Some(x@),
                None => json_get(self@, key@) is None,
            },
    {
        match self {
            JsonValue::Object(entries) => {
                let ghost es = json_entries_view(entries@);
                proof {
                    lemma_entries_view_index(entries@);
                }
                assert(self@ == JsonView::Object(es));
                let mut i: usize = 0;
                while i < entries.len()
                    invariant
                        self@ == JsonView::Object(es),
                        es == json_entries_view(entries@),
                        es.len() == entries@.len(),
                        forall|j: int|
                            0 <= j < entries@.len() ==> #[trigger] es[j] == (
                                entries@[j].0@,
                                json_view(entries@[j].1),
                            ),
                        i <= entries@.len(),
                        entries_get(es, key@, i as int) == entries_get(es, key@, 0),
                    decreases entries@.len() - i,
                {
                    if str_eq(entries[i].0.as_str(), key) {
                        assert(es[i as int] == (entries@[i as int].0@, json_view(entries@[i as int].1)));
                        assert(entries_get(es, key@, i as int) == Some(es[i as int].1));
                        return Some(&entries[i].1);
                    }
                    i += 1;
                }
                None
            },
            _ => None,
        }
    }

    /// The items of an array.
    pub fn as_array(&self) -> (r: Option<&Vec<JsonValue>>)
        ensures
            match (r, self@) {
                (Some(items), JsonView::Array(v)) => json_seq_view(items@) == v,
                (None, JsonView::Array(_)) => false,
                (Some(_), _) => false,
                (None, _) => true,
            },
    {
        match self {
            JsonValue::Array(items) => Some(items),
            _ => None,
        }
    }

    /// The text of a string.
    pub fn as_str(&self) -> (r: Option<&str>)
        ensures
            match (r, self@) {
                (Some(t), JsonView::Str(v)) => t@ == v,
                (None, JsonView::Str(_)) => false,
                (Some(_), _) => false,
                (None, _) => true,
            },
    {
        match self {
            JsonValue::Str(t) => Some(t.as_str()),
            _ => None,
        }
    }
}

/// What a response lacks.
#[derive(Copy, Clone, Debug, PartialEq, Eq)]
pub enum ResponseFault {
    /// The response reports GraphQL errors (its `errors` member).
    GraphqlErrors,
    NoData,
    MissingVerificationKey,
    MissingBestChain,
    EmptyBestChain,
    MissingStateHash,
    MissingProof,
}

impl ResponseFault {
    /// The fault's text; the text of `GraphqlErrors` and `NoData` is followed
    /// by the errors, or the shortened response.
    pub fn message(self) -> (r: &'static str)
        ensures
            self is GraphqlErrors ==> r@ == "GraphQL errors: "@,
            self is NoData ==> r@ == "response had no data field: "@,
            self is MissingVerificationKey ==> r@ == "response missing blockchainVerificationKey"@,
            self is MissingBestChain ==> r@ == "response missing bestChain array"@,
            self is EmptyBestChain ==> r@ == "bestChain is empty"@,
            self is MissingStateHash ==> r@ == "missing bestChain[0].stateHashField"@,
            self is MissingProof ==> r@ == "missing bestChain[0].protocolStateProof.base64"@,
    {
        match self {
            ResponseFault::GraphqlErrors => "GraphQL errors: ",
            ResponseFault::NoData => "response had no data field: ",
            ResponseFault::MissingVerificationKey => "response missing blockchainVerificationKey",
            ResponseFault::MissingBestChain => "response missing bestChain array",
            ResponseFault::EmptyBestChain => "bestChain is empty",
            ResponseFault::MissingStateHash => "missing bestChain[0].stateHashField",
            ResponseFault::MissingProof => "missing bestChain[0].protocolStateProof.base64",
        }
    }
}

/// The string member `key` of `v`.
pub open spec fn get_str(v: JsonView, key: Seq<char>) -> Option<Seq<char>> {
    match json_get(v, key) {
        Some(JsonView::Str(t)) => Some(t),
        _ => None,
    }
}

/// What a response gives, in the order it is checked: no `errors` member;
/// a `data` member with a `blockchainVerificationKey`, and a `bestChain`
/// array whose first block has a string `stateHashField` and a
/// `protocolStateProof` with a string `base64`. The parts are the key, the
/// state hash and the proof's base64.
pub open spec fn fixture_parts(resp: JsonView) -> Result<(JsonView, Seq<char>, Seq<char>), ResponseFault> {
    if json_get(resp, "errors"@) is Some {
        Err(ResponseFault::GraphqlErrors)
    } else {
        match json_get(resp, "data"@) {
            None => Err(ResponseFault::NoData),
            Some(data) => match json_get(data, "blockchainVerificationKey"@) {
                None => Err(ResponseFault::MissingVerificationKey),
                Some(vk) => match json_get(data, "bestChain"@) {
                    Some(JsonView::Array(blocks)) => if blocks.len() == 0 {
                        Err(ResponseFault::EmptyBestChain)
                    } else {
                        match get_str(blocks[0], "stateHashField"@) {
                            None => Err(ResponseFault::MissingStateHash),
                            Some(state_hash) => match json_get(blocks[0], "protocolStateProof"@) {
                                Some(psp) => match get_str(psp, "base64"@) {
                                    Some(b64) => Ok((vk, state_hash, b64)),
                                    None => Err(ResponseFault::MissingProof),
                                },
                                None => Err(ResponseFault::MissingProof),
                            },
                        }
                    },
                    _ => Err(ResponseFault::MissingBestChain),
                },
            },
        }
    }
}

fn string_member<'a>(v: &'a JsonValue, key: &str) -> (r: Option<&'a str>)
    ensures
        match r {
            Some(t) => get_str(v@, key@) == Some(t@),
            None => get_str(v@, key@) is None,
        },
{
    match v.get(key) {
        Some(x) => x.as_str(),
        None => None,
    }
}

/// The verification key, the state hash and the proof's base64 of a
/// daemon's response, or what it lacks.
pub fn fixture_parts_of(resp: &JsonValue) -> (r: Result<(&JsonValue, &str, &str), ResponseFault>)
    ensures
        match (r, fixture_parts(resp@)) {
            (Ok(p), Ok(v)) => p.0@ == v.0 && p.1@ == v.1 && p.2@ == v.2,
            (Err(e), Err(f)) => e == f,
            _ => false,
        },
{
    if resp.get("errors").is_some() {
        return Err(ResponseFault::GraphqlErrors);
    }
    let data = match resp.get("data") {
        Some(d) => d,
        None => {
            return Err(ResponseFault::NoData);
        },
    };
    let vk = match data.get("blockchainVerificationKey") {
        Some(v) => v,
        None => {
            return Err(ResponseFault::MissingVerificationKey);
        },
    };
    let best_chain = match data.get("bestChain") {
        Some(b) => match b.as_array() {
            Some(items) => items,
            None => {
                return Err(ResponseFault::MissingBestChain);
            },
        },
        None => {
            return Err(ResponseFault::MissingBestChain);
        },
    };
    if best_chain.len() == 0 {
        return Err(ResponseFault::EmptyBestChain);
    }
    proof {
        lemma_json_seq_view_index(best_chain@);
    }
    let block = &best_chain[0];
    let state_hash = match string_member(block, "stateHashField") {
        Some(t) => t,
        None => {
            return Err(ResponseFault::MissingStateHash);
        },
    };
    let base64_proof = match block.get("protocolStateProof") {
        Some(p) => match string_member(p, "base64") {
            Some(t) => t,
            None => {
                return Err(ResponseFault::MissingProof);
            },
        },
        None => {
            return Err(ResponseFault::MissingProof);
        },
    };
    Ok((vk, state_hash, base64_proof))
}

/// A response that has its data where the daemon puts it gives back those
/// parts: the verification key, and the state hash and the proof's base64
/// of the first block of `bestChain`, whatever blocks follow it.
pub proof fn lemma_fixture_parts_found(vk: JsonView, state_hash: Seq<char>, proof: Seq<char>, later: Seq<JsonView>)
    ensures
        fixture_parts(
            JsonView::Object(
                seq![
                    (
                        "data"@,
                        JsonView::Object(
                            seq![
                                ("blockchainVerificationKey"@, vk),
                                (
                                    "bestChain"@,
                                    JsonView::Array(
                                        seq![
                                            JsonView::Object(
                                                seq![
                                                    ("stateHashField"@, JsonView::Str(state_hash)),
                                                    (
                                                        "protocolStateProof"@,
                                                        JsonView::Object(seq![("base64"@, JsonView::Str(proof))]),
                                                    ),
                                                ],
                                            ),
                                        ] + later,
                                    ),
                                ),
                            ],
                        ),
                    ),
                ],
            ),
        ) == Ok::<(JsonView, Seq<char>, Seq<char>), ResponseFault>((vk, state_hash, proof)),
{
    reveal_strlit("data");
    reveal_strlit("errors");
    reveal_strlit("blockchainVerificationKey");
    reveal_strlit("bestChain");
    reveal_strlit("stateHashField");
    reveal_strlit("protocolStateProof");
    reveal_strlit("base64");
    assert("data"@[0] != "errors"@[0]);
    assert("bestChain"@[1] != "blockchainVerificationKey"@[1]);
    assert("protocolStateProof"@[0] != "stateHashField"@[0]);
    let psp = JsonView::Object(seq![("base64"@, JsonView::Str(proof))]);
    let block_entries = seq![("stateHashField"@, JsonView::Str(state_hash)), ("protocolStateProof"@, psp)];
    let block = JsonView::Object(block_entries);
    let blocks = seq![block] + later;
    let data_entries = seq![("blockchainVerificationKey"@, vk), ("bestChain"@, JsonView::Array(blocks))];
    let data = JsonView::Object(data_entries);
    let resp_entries = seq![("data"@, data)];
    assert(entries_get(resp_entries, "errors"@, 1) is None);
    assert(entries_get(resp_entries, "errors"@, 0) is None);
    assert(json_get(JsonView::Object(resp_entries), "data"@) == Some(data));
    assert(json_get(data, "blockchainVerificationKey"@) == Some(vk));
    assert(entries_get(data_entries, "bestChain"@, 1) == Some(JsonView::Array(blocks)));
    assert(json_get(data, "bestChain"@) == Some(JsonView::Array(blocks)));
    assert(blocks[0] == block);
    assert(get_str(block, "stateHashField"@) == Some(state_hash));
    assert(entries_get(block_entries, "protocolStateProof"@, 1) == Some(psp));
    assert(json_get(block, "protocolStateProof"@) == Some(psp));
    assert(get_str(psp, "base64"@) == Some(proof));
}

proof fn lemma_json_seq_view_index(items: Seq<JsonValue>)
    ensures
        json_seq_view(items).len() == items.len(),
        forall|i: int| 0 <= i < items.len() ==> #[trigger] json_seq_view(items)[i] == items[i]@,
    decreases items.len(),
{
    if items.len() > 0 {
        lemma_json_seq_view_index(items.drop_last());
    }
}

// ---------------------------------------------------------------------------
// The proof's base64
// ---------------------------------------------------------------------------

/// The daemon's proof base64: URL-safe (alphabet with `-` and `_`), padded
/// or not; standard base64 is accepted too.
pub open spec fn state_proof_base64(text: Seq<char>) -> Option<Seq<u8>> {
    match base64_url_safe(text) {
        Some(b) => Some(b),
        None => match base64_url_safe_no_pad(text) {
            Some(b) => Some(b),
            None => base64_standard(text),
        },
    }
}

/// Decodes the daemon's proof base64, trying URL-safe, URL-safe without
/// padding, then standard; the error is the standard engine's.
pub fn decode_state_proof(text: &str) -> (r: Result<Vec<u8>, base64::DecodeError>)
    ensures
        match (r, state_proof_base64(text@)) {
            (Ok(b), Some(v)) => b@ == v,
            (Err(_), None) => true,
            _ => false,
        },
{
    match decode_url_safe(text) {
        Ok(b) => Ok(b),
        Err(_) => match decode_url_safe_no_pad(text) {
            Ok(b) => Ok(b),
            Err(_) => decode_standard(text),
        },
    }
}

} // verus!
