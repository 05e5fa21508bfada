//! Regeneration-safe generation of client-library sources: a generic AST,
//! the lowering passes from a specification, a writer that merges rendered
//! text with hand-written regions, and the reclaimer of stale outputs.
use vstd::prelude::*;

pub mod text;
pub mod writer;
pub mod reclaim;
pub mod mir;
pub mod render;
pub mod hir;
pub mod lower;
pub mod entry;
pub mod generate;
pub mod provider;

verus! {

} // verus!
