//! A verified core for a layered configuration templating tool: ordered
//! data-source layers merged into one snapshot, templates rendered against
//! it, change-gated writes with backup collision protection, and reload
//! notification planning.
pub mod diff;
pub mod engine;
pub mod error;
pub mod filters;
pub mod jsontext;
pub mod notify;
pub mod parse;
pub mod plan;
pub mod reload;
pub mod source;
pub mod strutil;
pub mod value;

use vstd::prelude::*;

verus! {

} // verus!
