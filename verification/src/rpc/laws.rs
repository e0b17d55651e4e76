//! What holds of the JSON-RPC layer as a whole.

use std::time::Instant;
use vstd::prelude::*;
use crate::gossip::peer::Peer;
use crate::listing::{listing_length, lists};
use crate::rpc::error_codes;
use crate::rpc::handler::{
    delta_json, dispatched, get_json, is_answer, keys_json, only_one_method_writes, peers_json,
    sent_after, state_after, DispatchResult, Request, RpcHandler,
};
use crate::rpc::json::JsonView;
use crate::rpc::types::{entry_json, failure, Answer, RpcRequest};
use crate::state::crdt::{stamp_ge, stamp_order, Lww};
use crate::state::laws::{covers, write_then_read};

verus! {

/// The id that an answer carries.
pub open spec fn id_of(answer: Answer) -> JsonView {
    match answer {
        Answer::Success { id, .. } => id,
        Answer::Failure { id, .. } => id,
    }
}

/// The version that an answer states.
pub open spec fn version_of(answer: Answer) -> Seq<char> {
    match answer {
        Answer::Success { jsonrpc, .. } => jsonrpc,
        Answer::Failure { jsonrpc, .. } => jsonrpc,
    }
}

/// Every answer carries the id of its request, and states the version 2.0.
pub proof fn answers_carry_the_request_id(
    answer: Answer,
    request: Request,
    m: Map<Seq<char>, Lww>,
    peers: Map<Seq<char>, Peer>,
    node_id: Seq<char>,
    stamp: u64,
    now: Instant,
)
    requires
        is_answer(answer, request, m, peers, node_id, stamp, now),
    ensures
        id_of(answer) == request.answer_id(),
        version_of(answer) == "2.0"@,
{
}

/// A request that is refused changes nothing and sends nothing out.
pub proof fn refused_requests_change_nothing(
    answer: Answer,
    request: Request,
    m: Map<Seq<char>, Lww>,
    sent: Seq<(Seq<char>, Lww)>,
    peers: Map<Seq<char>, Peer>,
    node_id: Seq<char>,
    stamp: u64,
    now: Instant,
)
    requires
        is_answer(answer, request, m, peers, node_id, stamp, now),
        answer is Failure,
    ensures
        request.written(stamp, node_id) is None,
        state_after(m, request.written(stamp, node_id)) == m,
        sent_after(sent, m, request.written(stamp, node_id)) == sent,
{
    only_one_method_writes();
}

/// Only `state.set` writes.
pub proof fn other_methods_only_read(
    request: Request,
    m: Map<Seq<char>, Lww>,
    node_id: Seq<char>,
    stamp: u64,
)
    requires
        request.method != "state.set"@,
    ensures
        state_after(m, request.written(stamp, node_id)) == m,
{
}

/// No request takes the state back: every key stays, with a register state at least as new.
pub proof fn requests_never_regress_the_state(
    request: Request,
    m: Map<Seq<char>, Lww>,
    node_id: Seq<char>,
    stamp: u64,
)
    ensures
        covers(state_after(m, request.written(stamp, node_id)), m),
{
    let after = state_after(m, request.written(stamp, node_id));
    assert forall|k: Seq<char>| #[trigger] m.contains_key(k) implies after.contains_key(k)
        && stamp_ge(after[k], m[k]) by {
        stamp_order(m[k], m[k], m[k]);
        match request.written(stamp, node_id) {
            Some((key, v)) => {
                write_then_read(m, key, v);
                if k == key {
                    stamp_order(m[k], v, m[k]);
                }
            },
            None => {},
        }
    }
}

/// What `state.set` writes, `state.get` gives back, where no entry as new was there; and
/// otherwise it gives back the newer one.
pub proof fn set_then_get(
    set: Request,
    key: Seq<char>,
    value: Seq<char>,
    m: Map<Seq<char>, Lww>,
    node_id: Seq<char>,
    stamp: u64,
)
    requires
        set.method == "state.set"@,
        set.params.text_member("key"@) == Some(key),
        set.params.text_member("value"@) == Some(value),
    ensures
        ({
            let entry = Lww { value, timestamp: stamp, node_id };
            let after = state_after(m, set.written(stamp, node_id));
            get_json(after, key) == entry_json(
                key,
                if m.contains_key(key) && stamp_ge(m[key], entry) {
                    m[key]
                } else {
                    entry
                },
            )
        }),
{
    write_then_read(m, key, Lww { value, timestamp: stamp, node_id });
}

/// A line that is no request is answered with a parse error without an id, and changes nothing.
pub proof fn unparsable_lines_are_reported(
    before: RpcHandler,
    after: RpcHandler,
    text: String,
    stamp: u64,
    now: Instant,
    outcome: DispatchResult,
)
    requires
        dispatched(before, after, Err::<RpcRequest, String>(text), stamp, now, outcome),
    ensures
        outcome matches DispatchResult::Response(reply) && reply@ == failure(
            error_codes::PARSE_ERROR,
            text@,
            JsonView::Null,
        ),
        after.store@ == before.store@,
{
}

/// A request without an id is carried out and not answered, unless it subscribes.
pub proof fn notifications_are_not_answered(
    before: RpcHandler,
    after: RpcHandler,
    request: RpcRequest,
    stamp: u64,
    now: Instant,
    outcome: DispatchResult,
)
    requires
        dispatched(before, after, Ok::<RpcRequest, String>(request), stamp, now, outcome),
        request.id is None,
        request.method@ != "state.subscribe"@,
    ensures
        outcome is Notification,
        after.store@ == state_after(
            before.store@,
            request@.written(stamp, before.store.id()),
        ),
{
}

/// Listings are complete: the count that goes with one is the number of entries there are.
pub proof fn counts_are_complete(
    m: Map<Seq<char>, Lww>,
    peers: Map<Seq<char>, Peer>,
    entries: Seq<(Seq<char>, Lww)>,
    listed_peers: Seq<(Seq<char>, Peer)>,
    now: Instant,
)
    requires
        lists(entries, m),
        lists(listed_peers, peers),
    ensures
        keys_json(entries).count_member("count"@) == Some(m.len() as u64),
        delta_json(entries).count_member("count"@) == Some(m.len() as u64),
        peers_json(listed_peers, now).count_member("count"@) == Some(peers.len() as u64),
{
    listing_length(entries, m);
    listing_length(listed_peers, peers);
    reveal_strlit("count");
    reveal_strlit("keys");
    reveal_strlit("entries");
    reveal_strlit("peers");
    assert("count"@.len() == 5 && "keys"@.len() == 4 && "entries"@.len() == 7);
    assert("count"@[0] == 'c' && "peers"@[0] == 'p');
    reveal_with_fuel(crate::rpc::json::lookup, 3);
}

} // verus!
