//! The standard error codes of JSON-RPC 2.0.

use vstd::prelude::*;

verus! {

pub const PARSE_ERROR: i64 = -32700;

pub const INVALID_REQUEST: i64 = -32600;

pub const METHOD_NOT_FOUND: i64 = -32601;

pub const INVALID_PARAMS: i64 = -32602;

pub const INTERNAL_ERROR: i64 = -32603;

/// The codes are those that JSON-RPC 2.0 reserves.
pub proof fn codes_are_those_of_the_protocol()
    ensures
        PARSE_ERROR == -32700,
        INVALID_REQUEST == -32600,
        METHOD_NOT_FOUND == -32601,
        INVALID_PARAMS == -32602,
        INTERNAL_ERROR == -32603,
{
}

} // verus!
