//! Treasury: a content-addressed asset pipeline.
//!
//! Sources (URLs) are imported by pluggable importers into artifact files,
//! addressed by the SHA-256 of their content, with per-source metadata and
//! monotonic 64-bit asset identifiers.

use vstd::prelude::*;

pub mod abi;
pub mod config;
pub mod engine;
pub mod hash;
pub mod hex;
pub mod id;
pub mod meta;
pub mod placement;
pub mod registry;
pub mod scan;
pub mod sources;
pub mod urls;
pub mod wire;

verus! {

/// Name of the treasury configuration file at the base directory.
pub fn treasury_meta_name() -> (r: &'static str)
    ensures
        r@ == "Treasury.toml"@,
{
    "Treasury.toml"
}

} // verus!
