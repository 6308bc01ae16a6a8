//! Process-wide logging bridge: filter directives, record routing and the
//! install-once logger slot.

use vstd::prelude::*;

pub mod level;
pub mod text;
pub mod filter;
pub mod logger;
pub mod fault;

verus! {

/// Shutting down does nothing: the logger stays installed until the process
/// ends.
#[allow(non_snake_case)]
pub fn GkRust_Shutdown() {
}

} // verus!
