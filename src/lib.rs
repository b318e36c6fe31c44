//! An incremental-computation runtime: a root function is run once per
//! revision, and values computed at each call site are kept across revisions,
//! keyed by the call site's position in the call tree.
use vstd::prelude::*;

pub mod address;
pub mod children;
pub mod env;
pub mod laws;
pub mod memo;
pub mod runtime;
pub mod state;

verus! {

} // verus!
