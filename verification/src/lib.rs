//! Verified core of the out-of-circuit Pickles verifier tooling: the OCaml
//! S-expression reader used to ingest o1js proofs, the decoders that turn its
//! records into proof fields, and the verifier blob format.
use vstd::prelude::*;

pub mod ingest;
pub mod serialize;
pub mod fetch;
pub mod hex;
pub mod encoding;
pub mod batch;
pub mod field;
pub mod zkvm;
mod text;
pub mod types;

verus! {
} // verus!
