//! Lattice security domain: canonical parameter values, problem and analysis
//! models, semantic validation, slow-attack applicability rules, estimation
//! planning decisions, canonical identities and display formatting.

pub mod text;
pub mod numbers;
pub mod domain;
pub mod validation;
pub mod formats;
pub mod applicability;
pub mod service;
pub mod view;
pub mod error;
pub mod canonical;
pub mod approximation;
pub mod upstream;
pub mod scheduler;
pub mod database;
pub mod sweep;
pub mod cli;
pub mod api;



use vstd::prelude::*;

verus! {

/// Canonicalization rules used for cache and request identities.
pub const CANONICALIZATION_VERSION: u32 = 1;

/// Current parameter-set and security-report major format version.
pub const FILE_FORMAT_VERSION: u32 = 1;

} // verus!
