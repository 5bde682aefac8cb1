//! The o1js `Proof.toJSON()` envelope:
//!
//! ```json
//! {
//!   "publicInput":  ["0x...", ...],
//!   "publicOutput": ["0x...", ...],
//!   "maxProofsVerified": 0 | 1 | 2,
//!   "proof": "<base64 of OCaml Pickles.Proof.t bin_prot>"
//! }
//! ```
//!
//! The `proof` string is the same OCaml bin_prot encoding the Mina daemon
//! serves for blockchain state proofs; [`proof_bytes`] decodes it.
use vstd::prelude::*;
use crate::encoding::{decode_error_text, decode_standard_or_url_safe, standard_or_url_safe};
use crate::text::join;

verus! {

/// The envelope's fields; only the bin_prot blob and the public
/// input/output field strings are read. `max_proofs_verified` is
/// informational: the record already carries the proofs-verified mask.
pub struct O1jsProofJson {
    pub public_input: Vec<String>,
    pub public_output: Vec<String>,
    pub max_proofs_verified: u8,
    pub proof: String,
}

/// Why an envelope could not be read.
#[derive(Debug, PartialEq, Eq)]
pub enum ParseError {
    /// The JSON text, with the JSON reader's message.
    Json(String),
    /// The `proof` string is neither standard nor URL-safe base64.
    Base64(base64::DecodeError),
    /// The decoded bytes are not a bin_prot proof record.
    BinProt(String),
}

impl ParseError {
    /// The error's text.
    pub fn message(&self) -> (r: String)
        ensures
            self matches ParseError::Json(e) ==> r@ == "o1js JSON parse: "@ + e@,
            self matches ParseError::BinProt(e) ==> r@ == "o1js inner bin_prot decode: "@ + e@,
            self is Base64 ==> r@.len() >= "o1js base64 decode: "@.len() && r@.take(
                "o1js base64 decode: "@.len() as int,
            ) == "o1js base64 decode: "@,
    {
        match self {
            ParseError::Json(e) => join("o1js JSON parse: ", e.as_str()),
            ParseError::Base64(e) => {
                let t = decode_error_text(e);
                let r = join("o1js base64 decode: ", t.as_str());
                assert(r@.take("o1js base64 decode: "@.len() as int) =~= "o1js base64 decode: "@);
                r
            },
            ParseError::BinProt(e) => join("o1js inner bin_prot decode: ", e.as_str()),
        }
    }
}

/// The bin_prot bytes of the envelope's proof: its `proof` string decoded
/// as standard base64, or else as URL-safe base64.
pub fn proof_bytes(envelope: &O1jsProofJson) -> (r: Result<Vec<u8>, ParseError>)
    ensures
        match (r, standard_or_url_safe(envelope.proof@)) {
            (Ok(b), Some(v)) => b@ == v,
            (Err(e), None) => e is Base64,
            _ => false,
        },
{
    match decode_standard_or_url_safe(envelope.proof.as_str()) {
        Ok(b) => Ok(b),
        Err(e) => Err(ParseError::Base64(e)),
    }
}

} // verus!
