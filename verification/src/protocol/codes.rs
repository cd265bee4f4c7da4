//! Predefined JSON-RPC 2.0 error codes.
//!
//! The range `-32768..=-32000` is reserved; `-32099..=-32000` of it is for
//! implementation-defined server errors.

use vstd::prelude::*;

verus! {

/// Invalid JSON was received by the server.
pub const PARSE_ERROR: i64 = -32700;

/// The JSON sent is not a valid Request object.
pub const INVALID_REQUEST: i64 = -32600;

/// The method does not exist or is not available.
pub const METHOD_NOT_FOUND: i64 = -32601;

/// Invalid method parameters.
pub const INVALID_PARAMS: i64 = -32602;

/// Internal JSON-RPC error.
pub const INTERNAL_ERROR: i64 = -32603;

/// Inclusive lower bound of the implementation-defined server error range.
pub const SERVER_ERROR_MIN: i64 = -32099;

/// Inclusive upper bound of the implementation-defined server error range.
pub const SERVER_ERROR_MAX: i64 = -32000;

} // verus!
