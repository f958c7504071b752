//! JSON-RPC error codes.

use vstd::prelude::*;

verus! {

/// The caller's parameters were not acceptable.
pub const INVALID_PARAMS: i32 = -32602;

/// The server failed on parameters that were acceptable.
pub const INTERNAL_ERROR: i32 = -32603;

} // verus!
