//! What calls of this module's functions come to, and how two calls relate.

use std::time::{Instant, SystemTime};
use tokio::sync::broadcast;
use vstd::arithmetic::power2::pow2;
use vstd::prelude::*;
use crate::clock::{is_read, micros_at};
use crate::gossip::table::PeerTable;
use crate::rpc::answers::{
    a_complete_set_writes, anything_else_only_reads, entries_are_read_whole, get_gives_the_entry,
    lag_warnings_are_read_whole, no_request_does_nothing, only_writes_wait_for_the_clock,
};
use crate::rpc::handler::{
    dispatched, required_str, served, to_json, DispatchResult, RpcHandler,
};
use crate::rpc::json::{
    array_json, lookups_find_no_other_member, lookups_find_the_first_member, member,
    members_are_seen_whole, object_json, text_json, Json, JsonView,
};
use crate::rpc::number::{doubles_stand_for_their_fields, numbers_stand_for_themselves};
use crate::rpc::server::{
    events_pass_by_the_beginning_of_their_key, Connection, ConnectionAction, ConnectionEvent,
};
use crate::rpc::types::{
    entry_to_json, Reply, RpcError, RpcNotification, RpcRequest, RpcResponse,
};
use crate::state::crdt::LwwValue;
use crate::state::store::{StateEvent, StateStore};
use crate::text::{trimming_takes_white_space_at_the_ends, whitespace};

verus! {

// ── JSON values ────────────────────────────────────────────────────────────

/// Texts, arrays, objects and members are built of what they are given, whole and in its order.
pub proof fn values_hold_what_they_are_built_of(
    s: &str,
    text: Json,
    items: Vec<Json>,
    array: Json,
    members: Vec<(String, Json)>,
    object: Json,
    name: &str,
    value: Json,
    named: (String, Json),
)
    requires
        call_ensures(text_json, (s,), text),
        call_ensures(array_json, (items,), array),
        call_ensures(object_json, (members,), object),
        call_ensures(member, (name, value), named),
    ensures
        text@ == JsonView::Str(s@),
        array@ is Array,
        array@->Array_0.len() == items@.len(),
        forall|i: int| 0 <= i < items@.len() ==> #[trigger] array@->Array_0[i] == items@[i]@,
        object@ is Object,
        object@->Object_0.len() == members@.len(),
        forall|i: int|
            0 <= i < members@.len() ==> #[trigger] object@->Object_0[i] == (
                members@[i].0@,
                members@[i].1@,
            ),
        named.0@ == name@,
        named.1 == value,
{
    members_are_seen_whole(members@);
}

/// Of an object, `get` gives the first member of the name, and nothing where no member has it;
/// of anything else it gives nothing.
pub proof fn get_finds_the_first_member(j: &Json, name: &str, r: Option<&Json>, i: int)
    requires
        call_ensures(Json::get, (j, name), r),
    ensures
        match j@ {
            JsonView::Object(members) => {
                &&& 0 <= i < members.len() && members[i].0 == name@ && (forall|k: int|
                    0 <= k < i ==> (#[trigger] members[k]).0 != name@) ==> r is Some && r->0@
                    == members[i].1
                &&& (forall|k: int| 0 <= k < members.len() ==> (#[trigger] members[k]).0 != name@)
                    ==> r is None
            },
            _ => r is None,
        },
{
    if let JsonView::Object(members) = j@ {
        if 0 <= i < members.len() && members[i].0 == name@ && (forall|k: int|
            0 <= k < i ==> (#[trigger] members[k]).0 != name@) {
            lookups_find_the_first_member(members, name@, i);
        }
        if forall|k: int| 0 <= k < members.len() ==> (#[trigger] members[k]).0 != name@ {
            lookups_find_no_other_member(members, name@);
        }
    }
}

/// Only a string is read as a text, and only an integer of at least 0 as a count; both are read
/// as they are.
pub proof fn values_are_read_by_their_kind(j: &Json, s: Option<&str>, n: Option<u64>)
    requires
        call_ensures(Json::as_str, (j,), s),
        call_ensures(Json::as_u64, (j,), n),
    ensures
        j@ is Str <==> s is Some,
        s is Some ==> s->0@ == j@->Str_0,
        j@ is PosInt <==> n is Some,
        n is Some ==> n->0 == j@->PosInt_0,
{
}

/// A member is read as a text or a count just as the value is that `get` finds.
pub proof fn members_are_read_as_values(
    j: &Json,
    name: &str,
    found: Option<&Json>,
    s: Option<&str>,
    n: Option<u64>,
)
    requires
        call_ensures(Json::get, (j, name), found),
        call_ensures(Json::text_member, (j, name), s),
        call_ensures(Json::count_member, (j, name), n),
    ensures
        s is Some <==> found is Some && found->0@ is Str,
        s is Some ==> s->0@ == found->0@->Str_0,
        n is Some <==> found is Some && found->0@ is PosInt,
        n is Some ==> n->0 == found->0@->PosInt_0,
{
}

/// A timestamp is above the bound of a number exactly where it is greater than the number: an
/// integer by itself, a double by its fields, and 0 for what is no number. Without a bound
/// every timestamp is.
pub proof fn bounds_part_the_timestamps(
    j: &Json,
    r: Option<u64>,
    ts: u64,
    exponent: nat,
    fraction: nat,
)
    requires
        call_ensures(Json::bound, (j,), r),
        exponent < 0x7ff,
        fraction < 0x10_0000_0000_0000,
    ensures
        ({
            let above = r is None || ts > r->0;
            match j@ {
                JsonView::PosInt(n) => above <==> ts > n,
                JsonView::NegInt(n) => above <==> ts as int > n as int,
                JsonView::Float(bits) => {
                    &&& bits == exponent * 0x10_0000_0000_0000 + fraction && exponent > 0 ==> (
                    above <==> ts * pow2(1075) > (0x10_0000_0000_0000 + fraction) * pow2(exponent))
                    &&& bits == fraction ==> (above <==> ts * pow2(1074) > fraction)
                    &&& bits == 0x8000_0000_0000_0000 + exponent * 0x10_0000_0000_0000 + fraction
                        && (exponent > 0 || fraction > 0) ==> above
                },
                _ => above <==> ts > 0,
            }
        }),
{
    assert(j@.lies_below(ts) <==> r is None || ts > r->0);
    match j@ {
        JsonView::PosInt(n) => numbers_stand_for_themselves(ts, n, 0, 0, j@),
        JsonView::NegInt(n) => numbers_stand_for_themselves(ts, 0, n, 0, j@),
        JsonView::Float(bits) => {
            numbers_stand_for_themselves(ts, 0, 0, bits, j@);
            doubles_stand_for_their_fields(ts, exponent, fraction, bits);
        },
        _ => numbers_stand_for_themselves(ts, 0, 0, 0, j@),
    }
}

/// A parameter is given as the text that it is, or else its absence is told by its name.
pub proof fn required_parameters_are_given_or_missed(
    params: &Json,
    field: &str,
    r: Result<&str, String>,
    found: Option<&str>,
)
    requires
        call_ensures(required_str, (params, field), r),
        call_ensures(Json::text_member, (params, field), found),
    ensures
        found is Some ==> r is Ok && r->Ok_0@ == found->0@,
        found is None ==> r is Err && r->Err_0@ == "Missing required param: \""@ + field@ + "\""@,
{
}

/// What was encoded is sent as it is; where nothing was, the client is told of an internal
/// error.
pub proof fn encoded_answers_are_sent(encoded: Result<String, String>, r: String)
    requires
        call_ensures(to_json, (encoded,), r),
    ensures
        encoded is Ok ==> r@ == encoded->Ok_0@,
        encoded is Err ==> r@
            == "{\"jsonrpc\":\"2.0\",\"error\":{\"code\":-32603,\"message\":\"Internal serialization error\"},\"id\":null}"@,
{
}

// ── Messages ───────────────────────────────────────────────────────────────

/// An answer carries the version, the result or the error it is given, and the id.
pub proof fn answers_carry_what_they_are_given(
    result: Json,
    id: Json,
    ok: RpcResponse,
    code: i64,
    message: String,
    error: RpcError,
)
    requires
        call_ensures(RpcResponse::ok, (result, id), ok),
        call_ensures(RpcError::new, (code, message, id), error),
    ensures
        ok.jsonrpc@ == "2.0"@,
        ok.result == result,
        ok.id == id,
        error.jsonrpc@ == "2.0"@,
        error.error.code == code,
        error.error.message@ == message@,
        error.error.data is None,
        error.id == id,
{
}

/// An entry is written out with its key, value, timestamp and writer, each of them whole.
pub proof fn entries_are_written_whole(key: &str, v: &LwwValue, r: Json)
    requires
        call_ensures(entry_to_json, (key, v), r),
    ensures
        r@ is Object,
        r@->Object_0.len() == 4,
        r@.text_member("key"@) == Some(key@),
        r@.text_member("value"@) == Some(v.value@),
        r@.count_member("timestamp"@) == Some(v.timestamp),
        r@.text_member("node_id"@) == Some(v.node_id@),
{
    entries_are_read_whole(key@, v@);
}

/// A subscriber is told of a change with the whole entry, and of lost events with their number.
pub proof fn subscribers_are_told_everything(
    key: &str,
    v: &LwwValue,
    update: RpcNotification,
    dropped: u64,
    lag: RpcNotification,
)
    requires
        call_ensures(RpcNotification::state_update, (key, v), update),
        call_ensures(RpcNotification::lag, (dropped,), lag),
    ensures
        update.jsonrpc@ == "2.0"@,
        update.method@ == "state.update"@,
        update.params@.text_member("key"@) == Some(key@),
        update.params@.text_member("value"@) == Some(v.value@),
        update.params@.count_member("timestamp"@) == Some(v.timestamp),
        update.params@.text_member("node_id"@) == Some(v.node_id@),
        lag.jsonrpc@ == "2.0"@,
        lag.method@ == "state.lag"@,
        lag.params@.count_member("dropped"@) == Some(dropped),
{
    entries_are_read_whole(key@, v@);
    lag_warnings_are_read_whole(dropped);
}

// ── Connections ────────────────────────────────────────────────────────────

/// A new connection has no subscription.
pub proof fn new_connections_have_no_subscription(c: Connection)
    requires
        call_ensures(Connection::new, (), c),
    ensures
        !c.subscribed,
        c.prefix is None,
{
}

/// A change is forwarded, whole, exactly where its key begins with the prefix asked for, or
/// where none was.
pub proof fn updates_are_forwarded_by_prefix(
    c: &mut Connection,
    ev: StateEvent,
    r: ConnectionAction,
    rest: Seq<char>,
    i: int,
)
    requires
        call_ensures(Connection::on_event, (c, ConnectionEvent::Update(ev)), r),
    ensures
        final(c).subscribed == old(c).subscribed,
        final(c).prefix == old(c).prefix,
        r is Wait || r is Notify,
        old(c).prefix is None ==> r is Notify,
        old(c).prefix matches Some(p) && ev.key@ == p@ + rest ==> r is Notify,
        old(c).prefix matches Some(p) && 0 <= i < p@.len() && (i >= ev.key@.len() || ev.key@[i]
            != p@[i]) ==> r is Wait,
        r matches ConnectionAction::Notify(n) ==> {
            &&& n.jsonrpc@ == "2.0"@
            &&& n.method@ == "state.update"@
            &&& n.params@.text_member("key"@) == Some(ev.key@)
            &&& n.params@.text_member("value"@) == Some(ev.value.value@)
            &&& n.params@.count_member("timestamp"@) == Some(ev.value.timestamp)
            &&& n.params@.text_member("node_id"@) == Some(ev.value.node_id@)
        },
{
    entries_are_read_whole(ev.key@, ev.value@);
    if let Some(p) = old(c).prefix {
        events_pass_by_the_beginning_of_their_key(p@, rest, ev.key@, i);
    }
}

/// A line is dispatched without the white space at its ends, and not at all where it holds
/// nothing else.
pub proof fn lines_are_dispatched_trimmed(
    c: &mut Connection,
    line: String,
    r: ConnectionAction,
) -> (ends: (int, int))
    requires
        call_ensures(Connection::on_event, (c, ConnectionEvent::Line(line)), r),
    ensures
        *final(c) == *old(c),
        0 <= ends.0 <= ends.1 <= line@.len(),
        forall|i: int| 0 <= i < ends.0 || ends.1 <= i < line@.len() ==> whitespace(
            #[trigger] line@[i],
        ),
        ends.0 < ends.1 ==> !whitespace(line@[ends.0]) && !whitespace(line@[ends.1 - 1]) && (
        r matches ConnectionAction::Dispatch(request) && request@ == line@.subrange(
            ends.0,
            ends.1,
        )),
        ends.0 == ends.1 ==> r is Wait,
{
    trimming_takes_white_space_at_the_ends(line@)
}

/// A connection ends with the client, with a failure to read, and with the server; it outlives
/// its subscription, which ends when the store is gone.
pub proof fn connections_end_with_the_client_or_the_server(
    c: &mut Connection,
    event: ConnectionEvent,
    r: ConnectionAction,
)
    requires
        call_ensures(Connection::on_event, (c, event), r),
    ensures
        r is Close <==> event is Eof || event is ReadFailed || event is Cancelled,
        event is SubscriptionClosed ==> r is Wait && !final(c).subscribed,
        !(event is SubscriptionClosed) ==> final(c).subscribed == old(c).subscribed,
        final(c).prefix == old(c).prefix,
        event matches ConnectionEvent::Lagged(dropped) ==> r is Notify && r->Notify_0.jsonrpc@
            == "2.0"@ && r->Notify_0.method@
            == "state.lag"@ && r->Notify_0.params@.count_member("dropped"@) == Some(dropped),
{
    if let ConnectionEvent::Lagged(dropped) = event {
        lag_warnings_are_read_whole(dropped);
    }
}

/// What a dispatched request comes to is sent, where it is anything; a subscription is taken
/// over with its prefix and its receiver, and nothing else changes the one there is.
pub proof fn outcomes_are_sent(
    c: &mut Connection,
    outcome: DispatchResult,
    r: (Option<Reply>, Option<broadcast::Receiver<StateEvent>>),
)
    requires
        call_ensures(Connection::on_dispatched, (c, outcome), r),
    ensures
        match outcome {
            DispatchResult::Response(reply) => *final(c) == *old(c) && r.0 == Some(reply)
                && r.1 is None,
            DispatchResult::Subscribed { initial_response, receiver, prefix } =>
                final(c).subscribed && final(c).prefix == prefix && r.0 == Some(initial_response)
                    && r.1 == Some(receiver),
            DispatchResult::Notification => *final(c) == *old(c) && r.0 is None && r.1 is None,
        },
{
}

// ── Dispatch ───────────────────────────────────────────────────────────────

/// A new handler serves the store and the peers it is given.
pub proof fn new_handlers_serve_what_they_are_given(
    store: StateStore,
    peers: PeerTable,
    h: RpcHandler,
)
    requires
        call_ensures(RpcHandler::new, (store, peers), h),
    ensures
        h.store == store,
        h.peers == peers,
{
}

/// A request writes where it is `state.set` with a text for the key and one for the value.
pub proof fn complete_sets_are_writes(
    request: &RpcRequest,
    r: bool,
    key_name: &str,
    key: Option<&str>,
    value_name: &str,
    value: Option<&str>,
)
    requires
        call_ensures(RpcRequest::writes, (request,), r),
        key_name@ == "key"@,
        call_ensures(Json::text_member, (&request.params, key_name), key),
        value_name@ == "value"@,
        call_ensures(Json::text_member, (&request.params, value_name), value),
    ensures
        r <==> request.method@ == "state.set"@ && key is Some && value is Some,
{
}

/// Dispatching at given times does what dispatching is to do then; a request that does not
/// write has the same outcome whatever the wall clock says, and leaves everything as it was.
pub proof fn dispatching_at_given_times(
    h: &mut RpcHandler,
    request: Result<RpcRequest, String>,
    stamp: u64,
    now: Instant,
    outcome: DispatchResult,
    reader: &RpcHandler,
    read_outcome: DispatchResult,
    any: u64,
)
    requires
        call_ensures(RpcHandler::dispatch_at, (h, request, stamp, now), outcome),
        call_ensures(RpcHandler::dispatch_read_at, (reader, request, now), read_outcome),
    ensures
        dispatched(*old(h), *final(h), request, stamp, now, outcome),
        dispatched(*reader, *reader, request, any, now, read_outcome),
{
    lemma_read(reader, request, now, read_outcome, any);
}

/// What a call of `dispatch_read_at` comes to, at any time.
proof fn lemma_read(
    h: &RpcHandler,
    request: Result<RpcRequest, String>,
    now: Instant,
    outcome: DispatchResult,
    stamp: u64,
)
    requires
        call_ensures(RpcHandler::dispatch_read_at, (h, request, now), outcome),
    ensures
        dispatched(*h, *h, request, stamp, now, outcome),
{
    let args = (h, request, now);
    assert(call_ensures(RpcHandler::dispatch_read_at, args, outcome));
    assert(dispatched(*args.0, *args.0, args.1, stamp, args.2, outcome));
}

/// Dispatching now stamps writes with a reading of the wall clock, and measures the idle time
/// of peers from a reading of the monotonic clock. Without a stamp a write does nothing.
pub proof fn dispatching_now(
    h: &mut RpcHandler,
    request: Result<RpcRequest, String>,
    outcome: Option<DispatchResult>,
    reader: &RpcHandler,
    read_outcome: DispatchResult,
)
    requires
        call_ensures(RpcHandler::dispatch, (h, request), outcome),
        call_ensures(RpcHandler::dispatch_read, (reader, request), read_outcome),
    ensures
        exists|t: SystemTime, now: Instant|
            is_read(now) && #[trigger] served(
                *old(h),
                *final(h),
                request,
                micros_at(t),
                now,
                outcome,
            ),
        outcome is None ==> *final(h) == *old(h) && request is Ok && request->Ok_0.method@
            == "state.set"@,
        final(h).peers@ == old(h).peers@,
        final(h).store.wf() || *final(h) == *old(h),
        exists|now: Instant|
            is_read(now) && #[trigger] dispatched(*reader, *reader, request, 0, now, read_outcome),
{
    let (t, now) = choose|t: SystemTime, now: Instant|
        is_read(now) && #[trigger] served(
            *old(h),
            *final(h),
            request,
            micros_at(t),
            now,
            outcome,
        );
    only_writes_wait_for_the_clock(*old(h), *final(h), request, micros_at(t), now, outcome);
}

/// What one call writes for a client, the next reads back for it: the value whole, with the
/// stamp of the write and the node as its writer, where the key had nothing as late.
pub proof fn a_call_reads_what_a_call_wrote(
    h: &mut RpcHandler,
    set: RpcRequest,
    stamp: u64,
    then: Instant,
    written: DispatchResult,
    reader: &RpcHandler,
    get: RpcRequest,
    now: Instant,
    outcome: DispatchResult,
    key: Seq<char>,
    value: Seq<char>,
)
    requires
        call_ensures(
            RpcHandler::dispatch_at,
            (h, Ok::<RpcRequest, String>(set), stamp, then),
            written,
        ),
        *reader == *final(h),
        call_ensures(
            RpcHandler::dispatch_read_at,
            (reader, Ok::<RpcRequest, String>(get), now),
            outcome,
        ),
        set.method@ == "state.set"@,
        set.params@.text_member("key"@) == Some(key),
        set.params@.text_member("value"@) == Some(value),
        !old(h).store@.contains_key(key) || old(h).store@[key].timestamp < stamp,
        get.method@ == "state.get"@,
        get.params@.text_member("key"@) == Some(key),
        get.id is Some,
    ensures
        outcome is Response,
        outcome->Response_0@ is Success,
        outcome->Response_0@->Success_result.text_member("key"@) == Some(key),
        outcome->Response_0@->Success_result.text_member("value"@) == Some(value),
        outcome->Response_0@->Success_result.count_member("timestamp"@) == Some(stamp),
        outcome->Response_0@->Success_result.text_member("node_id"@) == Some(old(h).store.id()),
        outcome->Response_0@->Success_id == get.id->0@,
{
    a_complete_set_writes(*old(h), *final(h), set, stamp, then, written, key, value);
    lemma_read(reader, Ok::<RpcRequest, String>(get), now, outcome, 0);
    reveal_strlit("state.get");
    reveal_strlit("state.subscribe");
    assert("state.get"@.len() == 9 && "state.subscribe"@.len() == 15);
    get_gives_the_entry(
        outcome->Response_0@,
        get@,
        reader.store@,
        reader.peers@,
        reader.store.id(),
        0,
        now,
    );
}

/// Dispatching what is no request, or a request that does not write, changes nothing.
pub proof fn reading_changes_nothing(
    h: &mut RpcHandler,
    request: Result<RpcRequest, String>,
    stamp: u64,
    now: Instant,
    outcome: DispatchResult,
)
    requires
        call_ensures(RpcHandler::dispatch_at, (h, request, stamp, now), outcome),
        request matches Ok(req) ==> req.method@ != "state.set"@ || req.params@.text_member(
            "key"@,
        ) is None || req.params@.text_member("value"@) is None,
    ensures
        final(h).store@ == old(h).store@,
        final(h).store.sent() == old(h).store.sent(),
        final(h).store.id() == old(h).store.id(),
        final(h).peers@ == old(h).peers@,
{
    match request {
        Ok(req) => anything_else_only_reads(*old(h), *final(h), req, stamp, now, outcome),
        Err(text) => no_request_does_nothing(*old(h), *final(h), text, stamp, now, outcome),
    }
}

// ── What the functions ask for ─────────────────────────────────────────────

/// Every request can be dispatched, and so can what is none; only a write cannot be dispatched
/// as a mere reader.
pub proof fn every_request_can_be_dispatched(
    h: &mut RpcHandler,
    reader: &RpcHandler,
    request: Result<RpcRequest, String>,
    stamp: u64,
    now: Instant,
)
    requires
        old(h).store.wf(),
        reader.store.wf(),
    ensures
        call_requires(RpcHandler::dispatch, (h, request)),
        call_requires(RpcHandler::dispatch_at, (h, request, stamp, now)),
        (request matches Ok(req) ==> req.method@ != "state.set"@ || req.params@.text_member(
            "key"@,
        ) is None || req.params@.text_member("value"@) is None) ==> call_requires(
            RpcHandler::dispatch_read,
            (reader, request),
        ) && call_requires(RpcHandler::dispatch_read_at, (reader, request, now)),
{
}

/// Anything can happen on a connection, and every outcome can be dealt with.
pub proof fn anything_can_happen_on_a_connection(
    c: &mut Connection,
    event: ConnectionEvent,
    outcome: DispatchResult,
)
    ensures
        call_requires(Connection::on_event, (c, event)),
        call_requires(Connection::on_dispatched, (c, outcome)),
{
}

} // verus!
