//! Requests, responses and notifications of JSON-RPC 2.0.

use vstd::prelude::*;
use crate::rpc::json::{member, members_view, object_json, text_json, Json, JsonView};
use crate::state::crdt::{Lww, LwwValue};

pub use crate::rpc::error_codes;

verus! {

// ── Incoming ───────────────────────────────────────────────────────────────

/// A JSON-RPC 2.0 request.
#[derive(Debug)]
pub struct RpcRequest {
    pub jsonrpc: String,
    pub method: String,
    /// `null` where the request has none.
    pub params: Json,
    /// Absent in a notification, which is not answered. An `id` of `null` is not absent.
    pub id: Option<Json>,
}

// ── Outgoing ───────────────────────────────────────────────────────────────

/// A successful response.
#[derive(Debug)]
pub struct RpcResponse {
    pub jsonrpc: &'static str,
    pub result: Json,
    pub id: Json,
}

/// An error response.
#[derive(Debug)]
pub struct RpcError {
    pub jsonrpc: &'static str,
    pub error: RpcErrorBody,
    pub id: Json,
}

/// What went wrong.
#[derive(Debug)]
pub struct RpcErrorBody {
    pub code: i64,
    pub message: String,
    /// Left out of the encoding where it is absent.
    pub data: Option<Json>,
}

/// A message that the server sends of its own accord.
#[derive(Debug)]
pub struct RpcNotification {
    pub jsonrpc: &'static str,
    pub method: &'static str,
    pub params: Json,
}

/// The answer to a request.
#[derive(Debug)]
pub enum Reply {
    Success(RpcResponse),
    Failure(RpcError),
}

/// An answer as a value.
pub ghost enum Answer {
    Success { jsonrpc: Seq<char>, result: JsonView, id: JsonView },
    Failure { jsonrpc: Seq<char>, code: i64, message: Seq<char>, data: Option<JsonView>, id: JsonView },
}

impl View for Reply {
    type V = Answer;

    open spec fn view(&self) -> Answer {
        match self {
            Reply::Success(r) => Answer::Success {
                jsonrpc: r.jsonrpc@,
                result: r.result@,
                id: r.id@,
            },
            Reply::Failure(e) => Answer::Failure {
                jsonrpc: e.jsonrpc@,
                code: e.error.code,
                message: e.error.message@,
                data: match e.error.data {
                    Some(d) => Some(d@),
                    None => None,
                },
                id: e.id@,
            },
        }
    }
}

/// The answer that carries `result`.
pub open spec fn success(result: JsonView, id: JsonView) -> Answer {
    Answer::Success { jsonrpc: "2.0"@, result, id }
}

/// The answer that carries an error.
pub open spec fn failure(code: i64, message: Seq<char>, id: JsonView) -> Answer {
    Answer::Failure { jsonrpc: "2.0"@, code, message, data: None, id }
}

/// A key with its register state.
pub open spec fn entry_json(key: Seq<char>, v: Lww) -> JsonView {
    JsonView::Object(
        seq![
            ("key"@, JsonView::Str(key)),
            ("value"@, JsonView::Str(v.value)),
            ("timestamp"@, JsonView::PosInt(v.timestamp)),
            ("node_id"@, JsonView::Str(v.node_id)),
        ],
    )
}

/// A key with its register state.
pub fn entry_to_json(key: &str, v: &LwwValue) -> (r: Json)
    ensures
        r@ == entry_json(key@, v@),
{
    let mut m: Vec<(String, Json)> = Vec::new();
    m.push(member("key", text_json(key)));
    m.push(member("value", text_json(v.value.as_str())));
    m.push(member("timestamp", Json::PosInt(v.timestamp)));
    m.push(member("node_id", text_json(v.node_id.as_str())));
    assert(members_view(m@) =~= entry_json(key@, v@)->Object_0);
    object_json(m)
}

/// How many events a subscriber missed.
pub open spec fn lag_json(dropped: u64) -> JsonView {
    JsonView::Object(seq![("dropped"@, JsonView::PosInt(dropped))])
}

impl RpcResponse {
    /// The response that carries `result`.
    pub fn ok(result: Json, id: Json) -> (r: Self)
        ensures
            r.jsonrpc@ == "2.0"@,
            r.result == result,
            r.id == id,
    {
        RpcResponse { jsonrpc: "2.0", result, id }
    }
}

impl RpcError {
    /// The response that carries an error without further data.
    pub fn new(code: i64, message: String, id: Json) -> (r: Self)
        ensures
            r.jsonrpc@ == "2.0"@,
            r.error.code == code,
            r.error.message == message,
            r.error.data is None,
            r.id == id,
    {
        RpcError { jsonrpc: "2.0", error: RpcErrorBody { code, message, data: None }, id }
    }
}

impl RpcNotification {
    /// Tells a subscriber of a state change.
    pub fn state_update(key: &str, val: &LwwValue) -> (r: Self)
        ensures
            r.jsonrpc@ == "2.0"@,
            r.method@ == "state.update"@,
            r.params@ == entry_json(key@, val@),
    {
        RpcNotification {
            jsonrpc: "2.0",
            method: "state.update",
            params: entry_to_json(key, val),
        }
    }

    /// Tells a slow subscriber that it missed `dropped` events.
    pub fn lag(dropped: u64) -> (r: Self)
        ensures
            r.jsonrpc@ == "2.0"@,
            r.method@ == "state.lag"@,
            r.params@ == lag_json(dropped),
    {
        let mut m: Vec<(String, Json)> = Vec::new();
        m.push(member("dropped", Json::PosInt(dropped)));
        assert(members_view(m@) =~= lag_json(dropped)->Object_0);
        RpcNotification { jsonrpc: "2.0", method: "state.lag", params: object_json(m) }
    }
}

} // verus!
