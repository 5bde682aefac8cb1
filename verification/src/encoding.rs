//! Base64 decoding of proof and key payloads, through the `base64` crate.
//!
//! What an engine decodes a text to is given a name ([`base64_standard`],
//! [`base64_url_safe`], [`base64_url_safe_no_pad`]): `None` where the engine
//! rejects the text. The fallback orders the payload readers use are
//! verified over those names.
use vstd::prelude::*;
use base64::Engine;

verus! {

/// `base64::DecodeError`, carried through as the reason a text was refused.
#[verifier::external_type_specification]
#[verifier::external_body]
pub struct ExDecodeError(base64::DecodeError);

/// What `base64::engine::general_purpose::STANDARD` (standard alphabet,
/// canonical padding required) decodes the text to.
pub uninterp spec fn base64_standard(text: Seq<char>) -> Option<Seq<u8>>;

/// What `base64::engine::general_purpose::URL_SAFE` (URL-safe alphabet,
/// canonical padding required) decodes the text to.
pub uninterp spec fn base64_url_safe(text: Seq<char>) -> Option<Seq<u8>>;

/// What `base64::engine::general_purpose::URL_SAFE_NO_PAD` (URL-safe
/// alphabet, no padding allowed) decodes the text to.
pub uninterp spec fn base64_url_safe_no_pad(text: Seq<char>) -> Option<Seq<u8>>;

/// Calls `Engine::decode` of `base64::engine::general_purpose::STANDARD`.
/// Claimed: the bytes are the engine's decoding of the text, and an error
/// comes exactly when the engine refuses it; which `DecodeError` comes is
/// left unsaid.
#[verifier::external_body]
pub(crate) fn decode_standard(text: &str) -> (r: Result<Vec<u8>, base64::DecodeError>)
    ensures
        match (r, base64_standard(text@)) {
            (Ok(b), Some(v)) => b@ == v,
            (Err(_), None) => true,
            _ => false,
        },
{
    base64::engine::general_purpose::STANDARD.decode(text)
}

/// Calls `Engine::decode` of `base64::engine::general_purpose::URL_SAFE`.
/// Claimed: the bytes are the engine's decoding of the text, and an error
/// comes exactly when the engine refuses it; which `DecodeError` comes is
/// left unsaid.
#[verifier::external_body]
pub(crate) fn decode_url_safe(text: &str) -> (r: Result<Vec<u8>, base64::DecodeError>)
    ensures
        match (r, base64_url_safe(text@)) {
            (Ok(b), Some(v)) => b@ == v,
            (Err(_), None) => true,
            _ => false,
        },
{
    base64::engine::general_purpose::URL_SAFE.decode(text)
}

/// Calls `Engine::decode` of `base64::engine::general_purpose::URL_SAFE_NO_PAD`.
/// Claimed: the bytes are the engine's decoding of the text, and an error
/// comes exactly when the engine refuses it; which `DecodeError` comes is
/// left unsaid.
#[verifier::external_body]
pub(crate) fn decode_url_safe_no_pad(text: &str) -> (r: Result<Vec<u8>, base64::DecodeError>)
    ensures
        match (r, base64_url_safe_no_pad(text@)) {
            (Ok(b), Some(v)) => b@ == v,
            (Err(_), None) => true,
            _ => false,
        },
{
    base64::engine::general_purpose::URL_SAFE_NO_PAD.decode(text)
}

/// Renders a `base64::DecodeError` through its `Display` impl. Nothing is
/// claimed of the text.
#[verifier::external_body]
pub(crate) fn decode_error_text(e: &base64::DecodeError) -> String {
    format!("{}", e)
}

/// A payload in standard base64, or else in URL-safe base64.
pub open spec fn standard_or_url_safe(text: Seq<char>) -> Option<Seq<u8>> {
    match base64_standard(text) {
        Some(b) => Some(b),
        None => base64_url_safe(text),
    }
}

/// Decodes a payload written in standard base64, or else in URL-safe
/// base64; the error is the URL-safe engine's.
pub fn decode_standard_or_url_safe(text: &str) -> (r: Result<Vec<u8>, base64::DecodeError>)
    ensures
        match (r, standard_or_url_safe(text@)) {
            (Ok(b), Some(v)) => b@ == v,
            (Err(_), None) => true,
            _ => false,
        },
{
    match decode_standard(text) {
        Ok(b) => Ok(b),
        Err(_) => decode_url_safe(text),
    }
}

} // verus!
