//! Bounded, deterministic planning: plans and their dependency graphs,
//! immutable evidence observations, deterministic closure assessment,
//! guarded closure records, provider normalization and bounded projections.
use vstd::prelude::*;

pub mod bounds;
pub mod text;
pub mod json;
pub mod digest;
pub mod identity;
pub mod text_map;
pub mod sort;
pub mod model;
pub mod graph;
pub mod evidence;
pub mod assessment;
pub mod schema;
pub mod closure;
pub mod projection;
pub mod spi;
pub mod markdown_text;
pub mod markdown;
pub mod markdown_render;
pub mod compat;
pub mod eggwork;
pub mod eggsearch;
pub mod ledger;
pub mod worktree;
pub mod cli;
pub mod mutation;
pub mod policy;
pub mod check;
pub mod verification;
pub mod report;

verus! {

/// Current plan schema version.
pub const SCHEMA_VERSION: u32 = 2;

} // verus!
