//! Kubernetes CEL extension functions: the verified core.
use vstd::prelude::*;

pub mod text;
pub mod quantity;
pub mod bytes;
pub mod named_format;
pub mod validation;
pub mod duration;
pub mod json;
pub mod cel_bridge;
pub mod compilation;
pub mod walk;
pub mod walk_errors;
pub mod validation_defaults;
pub mod defaults;
pub mod vap;
pub mod analysis;
pub mod strings;
pub mod format;
pub mod semver_funcs;
pub mod ip;
pub mod urls;
pub mod math;
pub mod jsonpatch;
pub mod escaping;
pub mod encoders;

verus! {

} // verus!
