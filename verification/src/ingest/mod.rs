//! Ingestion of external proof formats.
use vstd::prelude::*;

pub mod sexpr;
pub mod o1js_sexpr;
pub mod bin_prot;
pub mod o1js;
pub mod o1js_vk;

verus! {
} // verus!
