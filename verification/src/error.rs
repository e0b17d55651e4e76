//! The errors of the engine.

use vstd::prelude::*;
use crate::text::joined;

verus! {

/// Unified error type for the state-sync engine. Each variant carries the text of what
/// went wrong.
#[derive(Debug)]
pub enum EngineError {
    Io(String),
    Serialization(String),
    Json(String),
    Peer(String),
    MethodNotFound(String),
    InvalidParams(String),
    Internal(String),
}

impl EngineError {
    /// What an error of this kind is announced with.
    pub open spec fn heading(&self) -> Seq<char> {
        match self {
            EngineError::Io(_) => "I/O error: "@,
            EngineError::Serialization(_) => "Serialization error: "@,
            EngineError::Json(_) => "JSON parse error: "@,
            EngineError::Peer(_) => "Gossip peer error: "@,
            EngineError::MethodNotFound(_) => "RPC method not found: "@,
            EngineError::InvalidParams(_) => "Invalid RPC params: "@,
            EngineError::Internal(_) => "Internal engine error: "@,
        }
    }

    /// The text of what went wrong.
    pub open spec fn detail(&self) -> Seq<char> {
        match self {
            EngineError::Io(t) => t@,
            EngineError::Serialization(t) => t@,
            EngineError::Json(t) => t@,
            EngineError::Peer(t) => t@,
            EngineError::MethodNotFound(t) => t@,
            EngineError::InvalidParams(t) => t@,
            EngineError::Internal(t) => t@,
        }
    }

    /// The error as a line of text: its kind, then what went wrong.
    pub fn message(&self) -> (r: String)
        ensures
            r@ == self.heading() + self.detail(),
    {
        match self {
            EngineError::Io(t) => joined("I/O error: ", t.as_str()),
            EngineError::Serialization(t) => joined("Serialization error: ", t.as_str()),
            EngineError::Json(t) => joined("JSON parse error: ", t.as_str()),
            EngineError::Peer(t) => joined("Gossip peer error: ", t.as_str()),
            EngineError::MethodNotFound(t) => joined("RPC method not found: ", t.as_str()),
            EngineError::InvalidParams(t) => joined("Invalid RPC params: ", t.as_str()),
            EngineError::Internal(t) => joined("Internal engine error: ", t.as_str()),
        }
    }
}

/// An error is told by what kind it is and what went wrong.
pub proof fn messages_tell_the_kind_and_the_cause(t: String)
    ensures
        EngineError::Io(t).heading() + EngineError::Io(t).detail() == "I/O error: "@ + t@,
        EngineError::Serialization(t).heading() + EngineError::Serialization(t).detail()
            == "Serialization error: "@ + t@,
        EngineError::Json(t).heading() + EngineError::Json(t).detail() == "JSON parse error: "@
            + t@,
        EngineError::Peer(t).heading() + EngineError::Peer(t).detail() == "Gossip peer error: "@
            + t@,
        EngineError::MethodNotFound(t).heading() + EngineError::MethodNotFound(t).detail()
            == "RPC method not found: "@ + t@,
        EngineError::InvalidParams(t).heading() + EngineError::InvalidParams(t).detail()
            == "Invalid RPC params: "@ + t@,
        EngineError::Internal(t).heading() + EngineError::Internal(t).detail()
            == "Internal engine error: "@ + t@,
{
}

/// The message of an error is its kind in words and what went wrong, whole.
pub proof fn messages_hold_what_went_wrong(e: &EngineError, r: String)
    requires
        call_ensures(EngineError::message, (e,), r),
    ensures
        match e {
            EngineError::Io(t) => r@ == "I/O error: "@ + t@,
            EngineError::Serialization(t) => r@ == "Serialization error: "@ + t@,
            EngineError::Json(t) => r@ == "JSON parse error: "@ + t@,
            EngineError::Peer(t) => r@ == "Gossip peer error: "@ + t@,
            EngineError::MethodNotFound(t) => r@ == "RPC method not found: "@ + t@,
            EngineError::InvalidParams(t) => r@ == "Invalid RPC params: "@ + t@,
            EngineError::Internal(t) => r@ == "Internal engine error: "@ + t@,
        },
{
}

} // verus!
