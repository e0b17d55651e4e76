//! Dispatch of JSON-RPC methods against the state store and the peer table.

use std::time::{Instant, SystemTime};
use tokio::sync::broadcast;
use vstd::prelude::*;
use vstd::string::StringExecFns;
use crate::clock::{is_read, micros_at};
use crate::gossip::peer::{Peer, PeerInfo};
use crate::gossip::table::{entries_view, PeerTable};
use crate::listing::lists;
use crate::rpc::error_codes;
use crate::rpc::json::{
    array_json, member, members_view, object_json, text_json, Json, JsonView,
};
use crate::rpc::types::{
    entry_json, entry_to_json, failure, success, Answer, Reply, RpcError, RpcRequest, RpcResponse,
};
use crate::state::crdt::{now_micros, Lww};
use crate::state::store::{
    delta_view, events_before, is_max_timestamp, newer_than, put, StateEvent, StateStore,
};
use crate::text::{joined, same_text};

verus! {

/// A request as a value.
pub ghost struct Request {
    pub method: Seq<char>,
    pub params: JsonView,
    pub id: Option<JsonView>,
}

impl View for RpcRequest {
    type V = Request;

    open spec fn view(&self) -> Request {
        Request {
            method: self.method@,
            params: self.params@,
            id: match self.id {
                Some(id) => Some(id@),
                None => None,
            },
        }
    }
}

impl Request {
    /// The id that an answer carries: that of the request, or `null`.
    pub open spec fn answer_id(self) -> JsonView {
        match self.id {
            Some(id) => id,
            None => JsonView::Null,
        }
    }

    /// The request writes: it is `state.set` with both its parameters.
    pub open spec fn is_write(self) -> bool {
        &&& self.method == "state.set"@
        &&& self.params.text_member("key"@) is Some
        &&& self.params.text_member("value"@) is Some
    }

    /// The entry that the request writes at time `stamp` on the node `node_id`: only
    /// `state.set` does, and only with both its parameters.
    pub open spec fn written(self, stamp: u64, node_id: Seq<char>) -> Option<(Seq<char>, Lww)> {
        if self.method == "state.set"@ {
            match (self.params.text_member("key"@), self.params.text_member("value"@)) {
                (Some(k), Some(v)) => Some((k, Lww { value: v, timestamp: stamp, node_id })),
                _ => None,
            }
        } else {
            None
        }
    }
}

/// The state after a write, or the state as it was.
pub open spec fn state_after(
    m: Map<Seq<char>, Lww>,
    written: Option<(Seq<char>, Lww)>,
) -> Map<Seq<char>, Lww> {
    match written {
        Some((k, v)) => put(m, k, v),
        None => m,
    }
}

/// The events sent after a write, or those sent before.
pub open spec fn sent_after(
    sent: Seq<(Seq<char>, Lww)>,
    m: Map<Seq<char>, Lww>,
    written: Option<(Seq<char>, Lww)>,
) -> Seq<(Seq<char>, Lww)> {
    match written {
        Some((k, v)) => sent.push((k, put(m, k, v)[k])),
        None => sent,
    }
}

// ── Results of the methods ─────────────────────────────────────────────────

/// The result of `state.get`: the entry, or `null` where there is none.
pub open spec fn get_json(m: Map<Seq<char>, Lww>, key: Seq<char>) -> JsonView {
    if m.contains_key(key) {
        entry_json(key, m[key])
    } else {
        JsonView::Null
    }
}

/// The result of `state.set`: the stamp of the register state that the key now has.
pub open spec fn stamp_json(v: Lww) -> JsonView {
    JsonView::Object(
        seq![
            ("timestamp"@, JsonView::PosInt(v.timestamp)),
            ("node_id"@, JsonView::Str(v.node_id)),
        ],
    )
}

/// The result of `state.subscribe`.
pub open spec fn subscribed_json(prefix: Option<Seq<char>>) -> JsonView {
    JsonView::Object(
        seq![
            ("status"@, JsonView::Str("subscribed"@)),
            (
                "prefix"@,
                match prefix {
                    Some(p) => JsonView::Str(p),
                    None => JsonView::Null,
                },
            ),
        ],
    )
}

/// The result of `state.keys` for the entries `list`.
pub open spec fn keys_json(list: Seq<(Seq<char>, Lww)>) -> JsonView {
    JsonView::Object(
        seq![
            (
                "keys"@,
                JsonView::Array(list.map_values(|e: (Seq<char>, Lww)| JsonView::Str(e.0))),
            ),
            ("count"@, JsonView::PosInt(list.len() as u64)),
        ],
    )
}

/// One peer in the result of `node.peers`, asked for at `now`.
pub open spec fn peer_json(id: Seq<char>, peer: Peer, now: Instant) -> JsonView {
    JsonView::Object(
        seq![
            ("id"@, JsonView::Str(id)),
            ("addr"@, JsonView::Str(peer.gossip_addr)),
            ("last_seen_secs"@, JsonView::PosInt(peer.idle_secs(now))),
            ("exchange_count"@, JsonView::PosInt(peer.exchange_count)),
            ("last_sync_ts"@, JsonView::PosInt(peer.last_sync_ts)),
        ],
    )
}

/// The result of `node.peers` for the peers `list`, asked for at `now`.
pub open spec fn peers_json(list: Seq<(Seq<char>, Peer)>, now: Instant) -> JsonView {
    JsonView::Object(
        seq![
            (
                "peers"@,
                JsonView::Array(
                    list.map_values(|e: (Seq<char>, Peer)| peer_json(e.0, e.1, now)),
                ),
            ),
            ("count"@, JsonView::PosInt(list.len() as u64)),
        ],
    )
}

/// The result of `sync.status`.
pub open spec fn status_json(
    node_id: Seq<char>,
    state_size: nat,
    max_timestamp: u64,
    peer_count: nat,
) -> JsonView {
    JsonView::Object(
        seq![
            ("node_id"@, JsonView::Str(node_id)),
            ("state_size"@, JsonView::PosInt(state_size as u64)),
            ("max_timestamp"@, JsonView::PosInt(max_timestamp)),
            ("peer_count"@, JsonView::PosInt(peer_count as u64)),
        ],
    )
}

/// The result of `sync.delta` for the entries `list`.
pub open spec fn delta_json(list: Seq<(Seq<char>, Lww)>) -> JsonView {
    JsonView::Object(
        seq![
            (
                "entries"@,
                JsonView::Array(list.map_values(|e: (Seq<char>, Lww)| entry_json(e.0, e.1))),
            ),
            ("count"@, JsonView::PosInt(list.len() as u64)),
        ],
    )
}

/// The timestamp `ts` lies after the parameter `since`, which is 0 where it is absent or no
/// number.
pub open spec fn after_since(params: JsonView, ts: u64) -> bool {
    match params.member("since"@) {
        Some(since) => since.lies_below(ts),
        None => ts > 0,
    }
}

/// The entries that `sync.delta` gives: those with a timestamp after the parameter `since`.
pub open spec fn entries_after(m: Map<Seq<char>, Lww>, params: JsonView) -> Map<
    Seq<char>,
    Lww,
> {
    m.restrict(m.dom().filter(|k: Seq<char>| after_since(params, m[k].timestamp)))
}

/// The method that writes is not one of the others.
pub proof fn only_one_method_writes()
    ensures
        "state.set"@ != "state.subscribe"@,
        "state.set"@ != "state.get"@,
        "state.set"@ != "state.keys"@,
        "state.set"@ != "node.peers"@,
        "state.set"@ != "sync.status"@,
        "state.set"@ != "sync.delta"@,
{
    reveal_strlit("state.set");
    reveal_strlit("state.subscribe");
    reveal_strlit("state.get");
    reveal_strlit("state.keys");
    reveal_strlit("node.peers");
    reveal_strlit("sync.status");
    reveal_strlit("sync.delta");
    assert("state.set"@.len() == 9);
    assert("state.set"@[6] == 's');
    assert("state.get"@[6] == 'g');
}

/// What is said where the parameter `field` is missing or is no string.
pub open spec fn missing_text(field: Seq<char>) -> Seq<char> {
    "Missing required param: \""@ + field + "\""@
}

/// The answer to a request that lacks the parameter `field`.
pub open spec fn missing(field: Seq<char>, id: JsonView) -> Answer {
    failure(error_codes::INVALID_PARAMS, missing_text(field), id)
}

/// `answer` is what `request` (any but `state.subscribe`) is answered by the node `node_id`
/// with the state `m` and the peers `peers`, at the times `stamp` and `now`. Listings may come
/// in any order.
pub open spec fn is_answer(
    answer: Answer,
    request: Request,
    m: Map<Seq<char>, Lww>,
    peers: Map<Seq<char>, Peer>,
    node_id: Seq<char>,
    stamp: u64,
    now: Instant,
) -> bool {
    let id = request.answer_id();
    let params = request.params;
    if request.method == "state.get"@ {
        match params.text_member("key"@) {
            Some(k) => answer == success(get_json(m, k), id),
            None => answer == missing("key"@, id),
        }
    } else if request.method == "state.set"@ {
        match (params.text_member("key"@), params.text_member("value"@)) {
            (None, _) => answer == missing("key"@, id),
            (Some(_), None) => answer == missing("value"@, id),
            (Some(k), Some(_)) => answer == success(
                stamp_json(state_after(m, request.written(stamp, node_id))[k]),
                id,
            ),
        }
    } else if request.method == "state.keys"@ {
        exists|list: Seq<(Seq<char>, Lww)>| #[trigger]
            lists(list, m) && answer == success(keys_json(list), id)
    } else if request.method == "node.peers"@ {
        exists|list: Seq<(Seq<char>, Peer)>| #[trigger]
            lists(list, peers) && answer == success(peers_json(list, now), id)
    } else if request.method == "sync.status"@ {
        exists|ts: u64| #[trigger]
            is_max_timestamp(m, ts) && answer == success(
                status_json(node_id, m.len(), ts, peers.len()),
                id,
            )
    } else if request.method == "sync.delta"@ {
        exists|list: Seq<(Seq<char>, Lww)>| #[trigger]
            lists(list, entries_after(m, params)) && answer == success(delta_json(list), id)
    } else {
        answer == failure(
            error_codes::METHOD_NOT_FOUND,
            "Method not found: "@ + request.method,
            id,
        )
    }
}

// ── The handler ────────────────────────────────────────────────────────────

/// Dispatches JSON-RPC 2.0 method calls against the state store and peer table.
pub struct RpcHandler {
    pub store: StateStore,
    pub peers: PeerTable,
}

/// What the server should do after dispatching a request.
pub enum DispatchResult {
    /// Send this answer, then wait for the next request.
    Response(Reply),
    /// The client called `state.subscribe`: send `initial_response` first, then forward
    /// events from `receiver` as notifications.
    Subscribed {
        initial_response: Reply,
        receiver: broadcast::Receiver<StateEvent>,
        /// If `Some`, only forward events whose key starts with this prefix.
        prefix: Option<String>,
    },
    /// The request was a notification; no answer is due.
    Notification,
}

/// `outcome` and `after` are what dispatching `request` on `before` leads to at the times
/// `stamp` and `now`.
pub open spec fn dispatched(
    before: RpcHandler,
    after: RpcHandler,
    request: Result<RpcRequest, String>,
    stamp: u64,
    now: Instant,
    outcome: DispatchResult,
) -> bool {
    &&& after.store.wf()
    &&& after.store.id() == before.store.id()
    &&& after.store.capacity() == before.store.capacity()
    &&& after.peers@ == before.peers@
    &&& match request {
        Err(text) => {
            &&& after.store@ == before.store@
            &&& after.store.sent() == before.store.sent()
            &&& outcome matches DispatchResult::Response(reply) && reply@ == failure(
                error_codes::PARSE_ERROR,
                text@,
                JsonView::Null,
            )
        },
        Ok(req) => {
            let written = req@.written(stamp, before.store.id());
            &&& after.store@ == state_after(before.store@, written)
            &&& after.store.sent() == sent_after(before.store.sent(), before.store@, written)
            &&& if req@.method == "state.subscribe"@ {
                outcome matches DispatchResult::Subscribed { initial_response, receiver, prefix }
                    && initial_response@ == success(
                    subscribed_json(req@.params.text_member("prefix"@)),
                    req@.answer_id(),
                ) && events_before(receiver) == before.store.sent() && prefix_view(prefix)
                    == req@.params.text_member("prefix"@)
            } else if req@.id is None {
                outcome is Notification
            } else {
                outcome matches DispatchResult::Response(reply) && is_answer(
                    reply@,
                    req@,
                    before.store@,
                    before.peers@,
                    before.store.id(),
                    stamp,
                    now,
                )
            }
        },
    }
}

/// The request has to be stamped: it writes.
pub open spec fn needs_stamp(request: Result<RpcRequest, String>) -> bool {
    request matches Ok(req) && req@.is_write()
}

/// `outcome` and `after` are what dispatching `request` on `before` leads to at the instant
/// `now`, when the wall clock reads `stamp`: nothing at all, where it cannot stamp a write.
pub open spec fn served(
    before: RpcHandler,
    after: RpcHandler,
    request: Result<RpcRequest, String>,
    stamp: Option<u64>,
    now: Instant,
    outcome: Option<DispatchResult>,
) -> bool {
    match stamp {
        Some(ts) => outcome matches Some(o) && dispatched(before, after, request, ts, now, o),
        None => if needs_stamp(request) {
            outcome is None && after == before
        } else {
            outcome matches Some(o) && dispatched(before, after, request, 0, now, o)
        },
    }
}

/// An optional text as a value.
pub open spec fn prefix_view(prefix: Option<String>) -> Option<Seq<char>> {
    match prefix {
        Some(p) => Some(p@),
        None => None,
    }
}

fn reply_ok(result: Json, id: Json) -> (r: Reply)
    ensures
        r@ == success(result@, id@),
{
    Reply::Success(RpcResponse::ok(result, id))
}

fn reply_error(code: i64, message: String, id: Json) -> (r: Reply)
    ensures
        r@ == failure(code, message@, id@),
{
    Reply::Failure(RpcError::new(code, message, id))
}

/// What is said where the parameter `field` is missing or is no string.
fn missing_param(field: &str) -> (r: String)
    ensures
        r@ == missing_text(field@),
{
    let mut text: String = joined("Missing required param: \"", field);
    text.append("\"");
    text
}

/// The text of the parameter `field`, or what is said where there is none.
pub fn required_str<'a>(params: &'a Json, field: &str) -> (r: Result<&'a str, String>)
    ensures
        match r {
            Ok(s) => params@.text_member(field@) == Some(s@),
            Err(text) => params@.text_member(field@) is None && text@ == missing_text(field@),
        },
{
    match params.text_member(field) {
        Some(s) => Ok(s),
        None => Err(missing_param(field)),
    }
}

/// The line to send for an encoded answer, or, where the encoder failed, a fixed line that
/// says so.
pub fn to_json(encoded: Result<String, String>) -> (r: String)
    ensures
        match encoded {
            Ok(text) => r == text,
            Err(_) => r@
                == "{\"jsonrpc\":\"2.0\",\"error\":{\"code\":-32603,\"message\":\"Internal serialization error\"},\"id\":null}"@,
        },
{
    match encoded {
        Ok(text) => text,
        Err(_) =>
            "{\"jsonrpc\":\"2.0\",\"error\":{\"code\":-32603,\"message\":\"Internal serialization error\"},\"id\":null}".to_string(),
    }
}

impl RpcHandler {
    /// A handler of the store and peer table.
    pub fn new(store: StateStore, peers: PeerTable) -> (r: Self)
        ensures
            r.store == store,
            r.peers == peers,
    {
        RpcHandler { store, peers }
    }

    /// Dispatches a request, or what the parser said where the line was none. Where the wall
    /// clock is set to a time before the UNIX epoch, a write is not carried out and has no
    /// outcome.
    pub fn dispatch(&mut self, request: Result<RpcRequest, String>) -> (r: Option<DispatchResult>)
        requires
            old(self).store.wf(),
        ensures
            exists|t: SystemTime, now: Instant|
                is_read(now) && #[trigger] served(
                    *old(self),
                    *final(self),
                    request,
                    micros_at(t),
                    now,
                    r,
                ),
    {
        let stamp: Option<u64> = now_micros();
        let now: Instant = Instant::now();
        let ghost t = choose|t: SystemTime| stamp == #[trigger] micros_at(t);
        let r = match stamp {
            Some(ts) => Some(self.dispatch_at(request, ts, now)),
            None => {
                let writes: bool = match &request {
                    Ok(req) => req.writes(),
                    Err(_) => false,
                };
                if writes {
                    None
                } else {
                    Some(self.dispatch_read_at(request, now))
                }
            },
        };
        assert(served(*old(self), *self, request, micros_at(t), now, r));
        r
    }

    /// Dispatches a request at the wall-clock time `stamp` and the instant `now`.
    pub fn dispatch_at(
        &mut self,
        request: Result<RpcRequest, String>,
        stamp: u64,
        now: Instant,
    ) -> (r: DispatchResult)
        requires
            old(self).store.wf(),
        ensures
            dispatched(*old(self), *final(self), request, stamp, now, r),
    {
        match request {
            Ok(req) => if req.writes() {
                proof {
                    only_one_method_writes();
                }
                let is_notification: bool = req.id.is_none();
                let id = match req.id {
                    Some(id) => id,
                    None => Json::Null,
                };
                let reply = self.handle_state_set_at(&req.params, id, stamp);
                if is_notification {
                    DispatchResult::Notification
                } else {
                    DispatchResult::Response(reply)
                }
            } else {
                self.dispatch_read_at(Ok(req), now)
            },
            Err(text) => self.dispatch_read_at(Err(text), now),
        }
    }

    /// Dispatches a request that does not write.
    pub fn dispatch_read(&self, request: Result<RpcRequest, String>) -> (r: DispatchResult)
        requires
            self.store.wf(),
            !needs_stamp(request),
        ensures
            exists|now: Instant|
                is_read(now) && #[trigger] dispatched(*self, *self, request, 0, now, r),
    {
        let now: Instant = Instant::now();
        let r = self.dispatch_read_at(request, now);
        assert(dispatched(*self, *self, request, 0, now, r));
        r
    }

    /// Dispatches a request that does not write, at the instant `now`. The wall clock does
    /// not matter.
    pub fn dispatch_read_at(&self, request: Result<RpcRequest, String>, now: Instant) -> (r:
        DispatchResult)
        requires
            self.store.wf(),
            !needs_stamp(request),
        ensures
            forall|stamp: u64| #[trigger] dispatched(*self, *self, request, stamp, now, r),
    {
        let req = match request {
            Ok(req) => req,
            Err(text) => {
                return DispatchResult::Response(
                    reply_error(error_codes::PARSE_ERROR, text, Json::Null),
                );
            },
        };
        proof {
            only_one_method_writes();
        }
        let is_notification: bool = req.id.is_none();
        let id = match req.id {
            Some(id) => id,
            None => Json::Null,
        };
        let method = req.method.as_str();
        if same_text(method, "state.subscribe") {
            return self.handle_subscribe(&req.params, id);
        }
        let reply = if same_text(method, "state.get") {
            self.handle_state_get(&req.params, id)
        } else if same_text(method, "state.set") {
            handle_incomplete_set(&req.params, id)
        } else if same_text(method, "state.keys") {
            self.handle_state_keys(id)
        } else if same_text(method, "node.peers") {
            self.handle_node_peers_at(id, now)
        } else if same_text(method, "sync.status") {
            self.handle_sync_status(id)
        } else if same_text(method, "sync.delta") {
            self.handle_sync_delta(&req.params, id)
        } else {
            reply_error(error_codes::METHOD_NOT_FOUND, joined("Method not found: ", method), id)
        };
        if is_notification {
            DispatchResult::Notification
        } else {
            DispatchResult::Response(reply)
        }
    }

    // ── Method handlers ────────────────────────────────────────────────────

    /// `state.get`, with the parameter `key`.
    fn handle_state_get(&self, params: &Json, id: Json) -> (r: Reply)
        requires
            self.store.wf(),
        ensures
            match params@.text_member("key"@) {
                Some(k) => r@ == success(get_json(self.store@, k), id@),
                None => r@ == missing("key"@, id@),
            },
    {
        match required_str(params, "key") {
            Ok(key) => {
                let result = match self.store.get(key) {
                    Some(v) => entry_to_json(key, &v),
                    None => Json::Null,
                };
                reply_ok(result, id)
            },
            Err(text) => reply_error(error_codes::INVALID_PARAMS, text, id),
        }
    }

    /// `state.set`, with the parameters `key` and `value`, at the time `stamp`.
    fn handle_state_set_at(&mut self, params: &Json, id: Json, stamp: u64) -> (r: Reply)
        requires
            old(self).store.wf(),
        ensures
            final(self).store.wf(),
            final(self).store.id() == old(self).store.id(),
            final(self).store.capacity() == old(self).store.capacity(),
            final(self).peers == old(self).peers,
            match (params@.text_member("key"@), params@.text_member("value"@)) {
                (Some(k), Some(v)) => {
                    let entry = Lww { value: v, timestamp: stamp, node_id: old(self).store.id() };
                    &&& final(self).store@ == put(old(self).store@, k, entry)
                    &&& final(self).store.sent() == old(self).store.sent().push(
                        (k, put(old(self).store@, k, entry)[k]),
                    )
                    &&& r@ == success(stamp_json(put(old(self).store@, k, entry)[k]), id@)
                },
                (None, _) => *final(self) == *old(self) && r@ == missing("key"@, id@),
                (Some(_), None) => *final(self) == *old(self) && r@ == missing("value"@, id@),
            },
    {
        match (params.text_member("key"), params.text_member("value")) {
            (Some(key), Some(value)) => {
                let lww = self.store.set_at(key.to_string(), value.to_string(), stamp);
                let mut m: Vec<(String, Json)> = Vec::new();
                m.push(member("timestamp", Json::PosInt(lww.timestamp)));
                m.push(member("node_id", text_json(lww.node_id.as_str())));
                assert(members_view(m@) =~= stamp_json(lww@)->Object_0);
                reply_ok(object_json(m), id)
            },
            _ => handle_incomplete_set(params, id),
        }
    }

    /// `state.subscribe`, with the optional parameter `prefix`.
    fn handle_subscribe(&self, params: &Json, id: Json) -> (r: DispatchResult)
        ensures
            r matches DispatchResult::Subscribed { initial_response, receiver, prefix }
                && initial_response@ == success(
                subscribed_json(params@.text_member("prefix"@)),
                id@,
            ) && events_before(receiver) == self.store.sent() && prefix_view(prefix)
                == params@.text_member("prefix"@),
    {
        let prefix: Option<String> = match params.text_member("prefix") {
            Some(p) => Some(p.to_string()),
            None => None,
        };
        let receiver = self.store.subscribe();
        let mut m: Vec<(String, Json)> = Vec::new();
        m.push(member("status", text_json("subscribed")));
        m.push(
            member(
                "prefix",
                match &prefix {
                    Some(p) => text_json(p.as_str()),
                    None => Json::Null,
                },
            ),
        );
        assert(members_view(m@) =~= subscribed_json(params@.text_member("prefix"@))->Object_0);
        let initial_response = reply_ok(object_json(m), id);
        DispatchResult::Subscribed { initial_response, receiver, prefix }
    }

    /// `state.keys`.
    fn handle_state_keys(&self, id: Json) -> (r: Reply)
        requires
            self.store.wf(),
        ensures
            exists|list: Seq<(Seq<char>, Lww)>| #[trigger]
                lists(list, self.store@) && r@ == success(keys_json(list), id@),
    {
        let snapshot = self.store.snapshot();
        let ghost list = delta_view(snapshot@);
        let mut keys: Vec<Json> = Vec::new();
        let mut i: usize = 0;
        while i < snapshot.len()
            invariant
                0 <= i <= snapshot@.len(),
                list == delta_view(snapshot@),
                keys@.len() == i,
                forall|j: int| 0 <= j < i ==> (#[trigger] keys@[j])@ == JsonView::Str(list[j].0),
            decreases snapshot@.len() - i,
        {
            keys.push(text_json(snapshot[i].0.as_str()));
            i = i + 1;
        }
        assert(keys@.map_values(|k: Json| k@) =~= list.map_values(
            |e: (Seq<char>, Lww)| JsonView::Str(e.0),
        ));
        let n: u64 = keys.len() as u64;
        let mut m: Vec<(String, Json)> = Vec::new();
        m.push(member("keys", array_json(keys)));
        m.push(member("count", Json::PosInt(n)));
        assert(members_view(m@) =~= keys_json(list)->Object_0);
        reply_ok(object_json(m), id)
    }

    /// `node.peers`, at `now`.
    fn handle_node_peers_at(&self, id: Json, now: Instant) -> (r: Reply)
        ensures
            exists|list: Seq<(Seq<char>, Peer)>| #[trigger]
                lists(list, self.peers@) && r@ == success(peers_json(list, now), id@),
    {
        let entries = self.peers.entries();
        let ghost list = entries_view(entries@);
        let mut peers: Vec<Json> = Vec::new();
        let mut i: usize = 0;
        while i < entries.len()
            invariant
                0 <= i <= entries@.len(),
                list == entries_view(entries@),
                peers@.len() == i,
                forall|j: int|
                    0 <= j < i ==> (#[trigger] peers@[j])@ == peer_json(list[j].0, list[j].1, now),
            decreases entries@.len() - i,
        {
            assert(list[i as int] == (entries@[i as int].0@, entries@[i as int].1@));
            peers.push(peer_to_json(entries[i].0.as_str(), &entries[i].1, now));
            i = i + 1;
        }
        assert(peers@.map_values(|p: Json| p@) =~= list.map_values(
            |e: (Seq<char>, Peer)| peer_json(e.0, e.1, now),
        ));
        let n: u64 = peers.len() as u64;
        let mut m: Vec<(String, Json)> = Vec::new();
        m.push(member("peers", array_json(peers)));
        m.push(member("count", Json::PosInt(n)));
        assert(members_view(m@) =~= peers_json(list, now)->Object_0);
        reply_ok(object_json(m), id)
    }

    /// `sync.status`.
    fn handle_sync_status(&self, id: Json) -> (r: Reply)
        requires
            self.store.wf(),
        ensures
            exists|ts: u64| #[trigger]
                is_max_timestamp(self.store@, ts) && r@ == success(
                    status_json(self.store.id(), self.store@.len(), ts, self.peers@.len()),
                    id@,
                ),
    {
        let max_timestamp: u64 = self.store.max_timestamp();
        let mut m: Vec<(String, Json)> = Vec::new();
        m.push(member("node_id", text_json(self.store.node_id())));
        m.push(member("state_size", Json::PosInt(self.store.len() as u64)));
        m.push(member("max_timestamp", Json::PosInt(max_timestamp)));
        m.push(member("peer_count", Json::PosInt(self.peers.len() as u64)));
        assert(members_view(m@) =~= status_json(
            self.store.id(),
            self.store@.len(),
            max_timestamp,
            self.peers@.len(),
        )->Object_0);
        reply_ok(object_json(m), id)
    }

    /// `sync.delta`, with the optional parameter `since`.
    fn handle_sync_delta(&self, params: &Json, id: Json) -> (r: Reply)
        requires
            self.store.wf(),
        ensures
            exists|list: Seq<(Seq<char>, Lww)>| #[trigger]
                lists(list, entries_after(self.store@, params@)) && r@ == success(
                    delta_json(list),
                    id@,
                ),
    {
        let bound: Option<u64> = match params.get("since") {
            Some(since) => since.bound(),
            None => Some(0),
        };
        let delta = match bound {
            Some(since) => {
                assert(newer_than(self.store@, since) =~= entries_after(self.store@, params@));
                self.store.delta_since(since)
            },
            None => {
                assert(self.store@ =~= entries_after(self.store@, params@));
                self.store.snapshot()
            },
        };
        let ghost list = delta_view(delta@);
        assert(lists(list, entries_after(self.store@, params@)));
        let mut entries: Vec<Json> = Vec::new();
        let mut i: usize = 0;
        while i < delta.len()
            invariant
                0 <= i <= delta@.len(),
                list == delta_view(delta@),
                entries@.len() == i,
                forall|j: int|
                    0 <= j < i ==> (#[trigger] entries@[j])@ == entry_json(list[j].0, list[j].1),
            decreases delta@.len() - i,
        {
            assert(list[i as int] == (delta@[i as int].0@, delta@[i as int].1@));
            entries.push(entry_to_json(delta[i].0.as_str(), &delta[i].1));
            i = i + 1;
        }
        assert(entries@.map_values(|e: Json| e@) =~= list.map_values(
            |e: (Seq<char>, Lww)| entry_json(e.0, e.1),
        ));
        let n: u64 = entries.len() as u64;
        let mut m: Vec<(String, Json)> = Vec::new();
        m.push(member("entries", array_json(entries)));
        m.push(member("count", Json::PosInt(n)));
        assert(members_view(m@) =~= delta_json(list)->Object_0);
        reply_ok(object_json(m), id)
    }
}

impl RpcRequest {
    /// Tells whether the request writes: `state.set` with both its parameters.
    pub fn writes(&self) -> (r: bool)
        ensures
            r == self@.is_write(),
    {
        same_text(self.method.as_str(), "state.set") && self.params.text_member("key").is_some()
            && self.params.text_member("value").is_some()
    }
}

/// The answer to a `state.set` that lacks a parameter.
fn handle_incomplete_set(params: &Json, id: Json) -> (r: Reply)
    requires
        params@.text_member("key"@) is None || params@.text_member("value"@) is None,
    ensures
        params@.text_member("key"@) is None ==> r@ == missing("key"@, id@),
        params@.text_member("key"@) is Some ==> r@ == missing("value"@, id@),
{
    let text: String = match required_str(params, "key") {
        Ok(_) => missing_param("value"),
        Err(text) => text,
    };
    reply_error(error_codes::INVALID_PARAMS, text, id)
}

/// One peer in the result of `node.peers`, asked for at `now`.
fn peer_to_json(id: &str, info: &PeerInfo, now: Instant) -> (r: Json)
    ensures
        r@ == peer_json(id@, info@, now),
{
    let mut m: Vec<(String, Json)> = Vec::new();
    m.push(member("id", text_json(id)));
    m.push(member("addr", text_json(info.gossip_addr.as_str())));
    m.push(member("last_seen_secs", Json::PosInt(info.idle_secs_at(now))));
    m.push(member("exchange_count", Json::PosInt(info.exchange_count)));
    m.push(member("last_sync_ts", Json::PosInt(info.last_sync_ts)));
    assert(members_view(m@) =~= peer_json(id@, info@, now)->Object_0);
    object_json(m)
}

} // verus!
