//! What a client reads in the answers: for each method, the members of the result by their
//! names, in terms of the request and of the state that it met.

use std::time::Instant;
use vstd::prelude::*;
use crate::gossip::peer::Peer;
use crate::listing::{listings_say_what_the_map_says, lists};
use crate::rpc::handler::{
    after_since, delta_json, dispatched, entries_after, is_answer, keys_json, needs_stamp,
    peer_json, peers_json, prefix_view, served, stamp_json, state_after, status_json,
    subscribed_json, DispatchResult, Request, RpcHandler,
};
use crate::rpc::json::{lookups_find_the_first_member, JsonView};
use crate::rpc::number::numbers_stand_for_themselves;
use crate::rpc::types::{entry_json, failure, lag_json, success, Answer, Reply, RpcRequest};
use crate::state::crdt::{the_later_timestamp_wins, Lww};
use crate::state::store::{events_before, is_max_timestamp, newer_than, put};
use crate::text::str_le;

verus! {

// ── Objects that clients read ──────────────────────────────────────────────

/// The members of an object with members of different names are found by their names.
proof fn lemma_found(members: Seq<(Seq<char>, JsonView)>, i: int)
    requires
        0 <= i < members.len(),
        forall|j: int| 0 <= j < i ==> (#[trigger] members[j]).0 != members[i].0,
    ensures
        JsonView::Object(members).member(members[i].0) == Some(members[i].1),
{
    lookups_find_the_first_member(members, members[i].0, i);
}

/// An entry is read with its key, its value, its timestamp and its writer, whole.
pub proof fn entries_are_read_whole(k: Seq<char>, v: Lww)
    ensures
        entry_json(k, v).text_member("key"@) == Some(k),
        entry_json(k, v).text_member("value"@) == Some(v.value),
        entry_json(k, v).count_member("timestamp"@) == Some(v.timestamp),
        entry_json(k, v).text_member("node_id"@) == Some(v.node_id),
        entry_json(k, v) is Object,
        entry_json(k, v)->Object_0.len() == 4,
{
    reveal_strlit("key");
    reveal_strlit("value");
    reveal_strlit("timestamp");
    reveal_strlit("node_id");
    let members = entry_json(k, v)->Object_0;
    assert("key"@.len() == 3 && "value"@.len() == 5 && "timestamp"@.len() == 9 && "node_id"@.len()
        == 7);
    lemma_found(members, 0);
    lemma_found(members, 1);
    lemma_found(members, 2);
    lemma_found(members, 3);
}

/// The stamp of a write is read with its timestamp and its writer.
pub proof fn stamps_are_read_whole(v: Lww)
    ensures
        stamp_json(v).count_member("timestamp"@) == Some(v.timestamp),
        stamp_json(v).text_member("node_id"@) == Some(v.node_id),
        stamp_json(v) is Object,
        stamp_json(v)->Object_0.len() == 2,
{
    reveal_strlit("timestamp");
    reveal_strlit("node_id");
    let members = stamp_json(v)->Object_0;
    assert("timestamp"@.len() == 9 && "node_id"@.len() == 7);
    lemma_found(members, 0);
    lemma_found(members, 1);
}

/// The confirmation of a subscription is read with its status and the prefix, if there is one.
pub proof fn confirmations_are_read_whole(prefix: Option<Seq<char>>)
    ensures
        subscribed_json(prefix).text_member("status"@) == Some("subscribed"@),
        subscribed_json(prefix).text_member("prefix"@) == prefix,
        prefix is None ==> subscribed_json(prefix).member("prefix"@) == Some(JsonView::Null),
        subscribed_json(prefix) is Object,
        subscribed_json(prefix)->Object_0.len() == 2,
{
    reveal_strlit("status");
    reveal_strlit("prefix");
    let members = subscribed_json(prefix)->Object_0;
    assert("status"@[0] == 's' && "prefix"@[0] == 'p');
    lemma_found(members, 0);
    lemma_found(members, 1);
}

/// A lag warning is read with the number of events that were missed.
pub proof fn lag_warnings_are_read_whole(dropped: u64)
    ensures
        lag_json(dropped).count_member("dropped"@) == Some(dropped),
        lag_json(dropped) is Object,
        lag_json(dropped)->Object_0.len() == 1,
{
    lemma_found(lag_json(dropped)->Object_0, 0);
}

/// A peer is read with its identifier, its address, the seconds since it was last seen, the
/// number of exchanges and its sync timestamp.
pub proof fn peers_are_read_whole(id: Seq<char>, peer: Peer, now: Instant)
    ensures
        peer_json(id, peer, now).text_member("id"@) == Some(id),
        peer_json(id, peer, now).text_member("addr"@) == Some(peer.gossip_addr),
        peer_json(id, peer, now).count_member("last_seen_secs"@) == Some(peer.idle_secs(now)),
        peer_json(id, peer, now).count_member("exchange_count"@) == Some(peer.exchange_count),
        peer_json(id, peer, now).count_member("last_sync_ts"@) == Some(peer.last_sync_ts),
        peer_json(id, peer, now) is Object,
        peer_json(id, peer, now)->Object_0.len() == 5,
{
    reveal_strlit("id");
    reveal_strlit("addr");
    reveal_strlit("last_seen_secs");
    reveal_strlit("exchange_count");
    reveal_strlit("last_sync_ts");
    assert("id"@.len() == 2 && "addr"@.len() == 4 && "last_seen_secs"@.len() == 14
        && "exchange_count"@.len() == 14 && "last_sync_ts"@.len() == 12);
    assert("last_seen_secs"@[0] == 'l' && "exchange_count"@[0] == 'e');
    let members = peer_json(id, peer, now)->Object_0;
    lemma_found(members, 0);
    lemma_found(members, 1);
    lemma_found(members, 2);
    lemma_found(members, 3);
    lemma_found(members, 4);
}

/// A status is read with the node, the number of keys, the highest timestamp and the number of
/// peers.
pub proof fn statuses_are_read_whole(
    node_id: Seq<char>,
    state_size: nat,
    max_timestamp: u64,
    peer_count: nat,
)
    requires
        state_size <= u64::MAX,
        peer_count <= u64::MAX,
    ensures
        ({
            let j = status_json(node_id, state_size, max_timestamp, peer_count);
            &&& j.text_member("node_id"@) == Some(node_id)
            &&& j.count_member("state_size"@) is Some
            &&& j.count_member("state_size"@)->0 == state_size
            &&& j.count_member("max_timestamp"@) == Some(max_timestamp)
            &&& j.count_member("peer_count"@) is Some
            &&& j.count_member("peer_count"@)->0 == peer_count
            &&& j is Object
            &&& j->Object_0.len() == 4
        }),
{
    reveal_strlit("node_id");
    reveal_strlit("state_size");
    reveal_strlit("max_timestamp");
    reveal_strlit("peer_count");
    assert("node_id"@.len() == 7 && "state_size"@.len() == 10 && "max_timestamp"@.len() == 13
        && "peer_count"@.len() == 10);
    assert("state_size"@[0] == 's' && "peer_count"@[0] == 'p');
    let members = status_json(node_id, state_size, max_timestamp, peer_count)->Object_0;
    lemma_found(members, 0);
    lemma_found(members, 1);
    lemma_found(members, 2);
    lemma_found(members, 3);
}

/// A list of keys is read key by key, in the order of the list, with their number.
pub proof fn key_lists_are_read_whole(list: Seq<(Seq<char>, Lww)>)
    requires
        list.len() <= u64::MAX,
    ensures
        keys_json(list).member("keys"@) is Some,
        keys_json(list).member("keys"@)->0 is Array,
        keys_json(list).member("keys"@)->0->Array_0.len() == list.len(),
        forall|i: int|
            0 <= i < list.len() ==> #[trigger] keys_json(list).member("keys"@)->0->Array_0[i]
                == JsonView::Str(list[i].0),
        keys_json(list).count_member("count"@) is Some,
        keys_json(list).count_member("count"@)->0 == list.len(),
        keys_json(list) is Object,
        keys_json(list)->Object_0.len() == 2,
{
    reveal_strlit("keys");
    reveal_strlit("count");
    assert("keys"@.len() == 4 && "count"@.len() == 5);
    let members = keys_json(list)->Object_0;
    lemma_found(members, 0);
    lemma_found(members, 1);
}

/// A list of peers is read peer by peer, in the order of the list, with their number.
pub proof fn peer_lists_are_read_whole(list: Seq<(Seq<char>, Peer)>, now: Instant)
    requires
        list.len() <= u64::MAX,
    ensures
        peers_json(list, now).member("peers"@) is Some,
        peers_json(list, now).member("peers"@)->0 is Array,
        peers_json(list, now).member("peers"@)->0->Array_0.len() == list.len(),
        forall|i: int|
            0 <= i < list.len() ==> #[trigger] peers_json(list, now).member(
                "peers"@,
            )->0->Array_0[i] == peer_json(list[i].0, list[i].1, now),
        peers_json(list, now).count_member("count"@) is Some,
        peers_json(list, now).count_member("count"@)->0 == list.len(),
        peers_json(list, now) is Object,
        peers_json(list, now)->Object_0.len() == 2,
{
    reveal_strlit("peers");
    reveal_strlit("count");
    assert("peers"@[0] == 'p' && "count"@[0] == 'c');
    let members = peers_json(list, now)->Object_0;
    lemma_found(members, 0);
    lemma_found(members, 1);
}

/// A delta is read entry by entry, in the order of the list, with their number.
pub proof fn delta_lists_are_read_whole(list: Seq<(Seq<char>, Lww)>)
    requires
        list.len() <= u64::MAX,
    ensures
        delta_json(list).member("entries"@) is Some,
        delta_json(list).member("entries"@)->0 is Array,
        delta_json(list).member("entries"@)->0->Array_0.len() == list.len(),
        forall|i: int|
            0 <= i < list.len() ==> #[trigger] delta_json(list).member("entries"@)->0->Array_0[i]
                == entry_json(list[i].0, list[i].1),
        delta_json(list).count_member("count"@) is Some,
        delta_json(list).count_member("count"@)->0 == list.len(),
        delta_json(list) is Object,
        delta_json(list)->Object_0.len() == 2,
{
    reveal_strlit("entries");
    reveal_strlit("count");
    assert("entries"@.len() == 7 && "count"@.len() == 5);
    let members = delta_json(list)->Object_0;
    lemma_found(members, 0);
    lemma_found(members, 1);
}

// ── Answers ────────────────────────────────────────────────────────────────

/// An answer is a result or an error, under the version 2.0 and the id given; an error carries
/// its code, its message and nothing else.
pub proof fn answers_are_results_or_errors(
    result: JsonView,
    code: i64,
    message: Seq<char>,
    id: JsonView,
)
    ensures
        success(result, id) is Success,
        success(result, id)->Success_jsonrpc == "2.0"@,
        success(result, id)->Success_result == result,
        success(result, id)->Success_id == id,
        failure(code, message, id) is Failure,
        failure(code, message, id)->Failure_jsonrpc == "2.0"@,
        failure(code, message, id)->Failure_code == code,
        failure(code, message, id)->Failure_message == message,
        failure(code, message, id)->Failure_data is None,
        failure(code, message, id)->Failure_id == id,
{
}

/// A reply is seen whole.
pub proof fn replies_are_seen_whole(reply: Reply)
    ensures
        match reply {
            Reply::Success(r) => {
                &&& reply@ is Success
                &&& reply@->Success_jsonrpc == r.jsonrpc@
                &&& reply@->Success_result == r.result@
                &&& reply@->Success_id == r.id@
            },
            Reply::Failure(e) => {
                &&& reply@ is Failure
                &&& reply@->Failure_jsonrpc == e.jsonrpc@
                &&& reply@->Failure_code == e.error.code
                &&& reply@->Failure_message == e.error.message@
                &&& reply@->Failure_id == e.id@
                &&& reply@->Failure_data is None <==> e.error.data is None
                &&& e.error.data matches Some(d) ==> reply@->Failure_data == Some(d@)
            },
        },
{
}

/// A request is seen whole: method, parameters, id; the id of its answer is its own, and `null`
/// where it has none.
pub proof fn requests_are_seen_whole(r: RpcRequest)
    ensures
        r@.method == r.method@,
        r@.params == r.params@,
        r@.id is None <==> r.id is None,
        r.id matches Some(id) ==> r@.id == Some(id@) && r@.answer_id() == id@,
        r.id is None ==> r@.answer_id() == JsonView::Null,
{
}

/// `answer` is a result for the request.
pub open spec fn is_result(answer: Answer, request: Request) -> bool {
    &&& answer is Success
    &&& answer->Success_jsonrpc == "2.0"@
    &&& request.id matches Some(id) ==> answer->Success_id == id
    &&& request.id is None ==> answer->Success_id == JsonView::Null
}

/// `answer` is an error for the request.
pub open spec fn is_refusal(answer: Answer, request: Request, code: int, message: Seq<char>) -> bool {
    &&& answer is Failure
    &&& answer->Failure_jsonrpc == "2.0"@
    &&& answer->Failure_code == code
    &&& answer->Failure_message == message
    &&& answer->Failure_data is None
    &&& request.id matches Some(id) ==> answer->Failure_id == id
    &&& request.id is None ==> answer->Failure_id == JsonView::Null
}

/// `state.get` gives the entry of the key, whole, or `null` where there is none; without a key
/// it is refused as having invalid parameters.
pub proof fn get_gives_the_entry(
    answer: Answer,
    request: Request,
    m: Map<Seq<char>, Lww>,
    peers: Map<Seq<char>, Peer>,
    node_id: Seq<char>,
    stamp: u64,
    now: Instant,
)
    requires
        is_answer(answer, request, m, peers, node_id, stamp, now),
        request.method == "state.get"@,
    ensures
        request.params.text_member("key"@) matches Some(k) ==> is_result(answer, request) && (
        m.contains_key(k) ==> {
            &&& answer->Success_result.text_member("key"@) == Some(k)
            &&& answer->Success_result.text_member("value"@) == Some(m[k].value)
            &&& answer->Success_result.count_member("timestamp"@) == Some(m[k].timestamp)
            &&& answer->Success_result.text_member("node_id"@) == Some(m[k].node_id)
        }) && (!m.contains_key(k) ==> answer->Success_result == JsonView::Null),
        request.params.text_member("key"@) is None ==> is_refusal(
            answer,
            request,
            -32602,
            "Missing required param: \""@ + "key"@ + "\""@,
        ),
{
    if let Some(k) = request.params.text_member("key"@) {
        if m.contains_key(k) {
            entries_are_read_whole(k, m[k]);
        }
    }
}

/// `state.set` gives the stamp of the write, where the key had nothing as late, and the stamp
/// of what the key has, where that is later, or as late and by a node that is not lower. Without
/// a key or a value it is refused as having invalid parameters.
pub proof fn set_gives_the_winning_stamp(
    answer: Answer,
    request: Request,
    m: Map<Seq<char>, Lww>,
    peers: Map<Seq<char>, Peer>,
    node_id: Seq<char>,
    stamp: u64,
    now: Instant,
)
    requires
        is_answer(answer, request, m, peers, node_id, stamp, now),
        request.method == "state.set"@,
    ensures
        request.params.text_member("key"@) matches Some(k) ==> (request.params.text_member(
            "value"@,
        ) matches Some(v) ==> is_result(answer, request) && {
            let r = answer->Success_result;
            &&& !m.contains_key(k) || m[k].timestamp < stamp ==> r.count_member("timestamp"@)
                == Some(stamp) && r.text_member("node_id"@) == Some(node_id)
            &&& m.contains_key(k) && m[k].timestamp > stamp ==> r.count_member("timestamp"@)
                == Some(m[k].timestamp) && r.text_member("node_id"@) == Some(m[k].node_id)
            &&& m.contains_key(k) && m[k].timestamp == stamp ==> r.count_member("timestamp"@)
                == Some(stamp) && r.text_member("node_id"@) == Some(
                if str_le(node_id, m[k].node_id) {
                    m[k].node_id
                } else {
                    node_id
                },
            )
        }),
        request.params.text_member("key"@) is None ==> is_refusal(
            answer,
            request,
            -32602,
            "Missing required param: \""@ + "key"@ + "\""@,
        ),
        request.params.text_member("key"@) is Some && request.params.text_member("value"@) is None
            ==> is_refusal(
            answer,
            request,
            -32602,
            "Missing required param: \""@ + "value"@ + "\""@,
        ),
{
    lemma_methods();
    if let Some(k) = request.params.text_member("key"@) {
        if let Some(v) = request.params.text_member("value"@) {
            let entry = Lww { value: v, timestamp: stamp, node_id };
            stamps_are_read_whole(put(m, k, entry)[k]);
            if m.contains_key(k) && m[k].timestamp < stamp {
                the_later_timestamp_wins(entry, m[k]);
            }
            if m.contains_key(k) && m[k].timestamp > stamp {
                the_later_timestamp_wins(m[k], entry);
            }
        }
    }
}

/// `state.keys` gives every key of the state once, and their number.
pub proof fn keys_gives_every_key(
    answer: Answer,
    request: Request,
    m: Map<Seq<char>, Lww>,
    peers: Map<Seq<char>, Peer>,
    node_id: Seq<char>,
    stamp: u64,
    now: Instant,
)
    requires
        is_answer(answer, request, m, peers, node_id, stamp, now),
        request.method == "state.keys"@,
        m.len() <= u64::MAX,
    ensures
        is_result(answer, request),
        ({
            let r = answer->Success_result;
            let keys = r.member("keys"@)->0->Array_0;
            &&& r.member("keys"@) is Some
            &&& r.member("keys"@)->0 is Array
            &&& forall|k: Seq<char>| #[trigger]
                m.contains_key(k) <==> keys.contains(JsonView::Str(k))
            &&& keys.no_duplicates()
            &&& keys.len() == m.len()
            &&& r.count_member("count"@) is Some
            &&& r.count_member("count"@)->0 == m.len()
        }),
{
    lemma_methods();
    let list = choose|list: Seq<(Seq<char>, Lww)>| #[trigger]
        lists(list, m) && answer == success(keys_json(list), request.answer_id());
    listings_say_what_the_map_says(list, m);
    key_lists_are_read_whole(list);
    let keys = answer->Success_result.member("keys"@)->0->Array_0;
    assert forall|k: Seq<char>| #[trigger] m.contains_key(k) <==> keys.contains(
        JsonView::Str(k),
    ) by {
        if m.contains_key(k) {
            let i = choose|i: int|
                0 <= i < list.len() && (#[trigger] list[i]).0 == k && list[i].1 == m[k];
            assert(keys[i] == JsonView::Str(k));
        }
        if keys.contains(JsonView::Str(k)) {
            let i = choose|i: int| 0 <= i < keys.len() && keys[i] == JsonView::Str(k);
            assert(keys[i] == JsonView::Str(list[i].0));
            assert(m.contains_key(list[i].0));
        }
    }
    assert forall|i: int, j: int| 0 <= i < keys.len() && 0 <= j < keys.len() && i != j implies keys[i]
        != keys[j] by {
        assert(keys[i] == JsonView::Str(list[i].0));
        assert(keys[j] == JsonView::Str(list[j].0));
    }
}

/// `node.peers` gives every peer of the table once, whole, and their number.
pub proof fn peers_gives_every_peer(
    answer: Answer,
    request: Request,
    m: Map<Seq<char>, Lww>,
    peers: Map<Seq<char>, Peer>,
    node_id: Seq<char>,
    stamp: u64,
    now: Instant,
)
    requires
        is_answer(answer, request, m, peers, node_id, stamp, now),
        request.method == "node.peers"@,
        peers.len() <= u64::MAX,
    ensures
        is_result(answer, request),
        ({
            let r = answer->Success_result;
            let all = r.member("peers"@)->0->Array_0;
            &&& r.member("peers"@) is Some
            &&& r.member("peers"@)->0 is Array
            &&& all.len() == peers.len()
            &&& forall|i: int|
                0 <= i < all.len() ==> {
                    let id = (#[trigger] all[i]).text_member("id"@)->0;
                    &&& all[i].text_member("id"@) is Some
                    &&& peers.contains_key(id)
                    &&& all[i].text_member("addr"@) == Some(peers[id].gossip_addr)
                    &&& all[i].count_member("last_seen_secs"@) == Some(peers[id].idle_secs(now))
                    &&& all[i].count_member("exchange_count"@) == Some(peers[id].exchange_count)
                    &&& all[i].count_member("last_sync_ts"@) == Some(peers[id].last_sync_ts)
                }
            &&& forall|id: Seq<char>| #[trigger]
                peers.contains_key(id) ==> exists|i: int|
                    0 <= i < all.len() && (#[trigger] all[i]).text_member("id"@) == Some(id)
            &&& r.count_member("count"@) is Some
            &&& r.count_member("count"@)->0 == peers.len()
        }),
{
    lemma_methods();
    let list = choose|list: Seq<(Seq<char>, Peer)>| #[trigger]
        lists(list, peers) && answer == success(peers_json(list, now), request.answer_id());
    listings_say_what_the_map_says(list, peers);
    peer_lists_are_read_whole(list, now);
    let all = answer->Success_result.member("peers"@)->0->Array_0;
    assert forall|i: int| 0 <= i < all.len() implies {
        let id = (#[trigger] all[i]).text_member("id"@)->0;
        &&& all[i].text_member("id"@) is Some
        &&& peers.contains_key(id)
        &&& all[i].text_member("addr"@) == Some(peers[id].gossip_addr)
        &&& all[i].count_member("last_seen_secs"@) == Some(peers[id].idle_secs(now))
        &&& all[i].count_member("exchange_count"@) == Some(peers[id].exchange_count)
        &&& all[i].count_member("last_sync_ts"@) == Some(peers[id].last_sync_ts)
    } by {
        assert(all[i] == peer_json(list[i].0, list[i].1, now));
        peers_are_read_whole(list[i].0, list[i].1, now);
        assert(peers.contains_key(list[i].0));
    }
    assert forall|id: Seq<char>| #[trigger] peers.contains_key(id) implies exists|i: int|
        0 <= i < all.len() && (#[trigger] all[i]).text_member("id"@) == Some(id) by {
        let i = choose|i: int|
            0 <= i < list.len() && (#[trigger] list[i]).0 == id && list[i].1 == peers[id];
        assert(all[i] == peer_json(list[i].0, list[i].1, now));
        peers_are_read_whole(list[i].0, list[i].1, now);
    }
}

/// `sync.status` gives the node, how many keys and peers there are, and the highest timestamp:
/// one that some entry has and no entry passes, or 0.
pub proof fn status_sums_the_node_up(
    answer: Answer,
    request: Request,
    m: Map<Seq<char>, Lww>,
    peers: Map<Seq<char>, Peer>,
    node_id: Seq<char>,
    stamp: u64,
    now: Instant,
)
    requires
        is_answer(answer, request, m, peers, node_id, stamp, now),
        request.method == "sync.status"@,
        m.len() <= u64::MAX,
        peers.len() <= u64::MAX,
    ensures
        is_result(answer, request),
        ({
            let r = answer->Success_result;
            let ts = r.count_member("max_timestamp"@)->0;
            &&& r.text_member("node_id"@) == Some(node_id)
            &&& r.count_member("state_size"@) is Some
            &&& r.count_member("state_size"@)->0 == m.len()
            &&& r.count_member("peer_count"@) is Some
            &&& r.count_member("peer_count"@)->0 == peers.len()
            &&& r.count_member("max_timestamp"@) is Some
            &&& forall|k: Seq<char>| #[trigger] m.contains_key(k) ==> m[k].timestamp <= ts
            &&& ts > 0 ==> exists|k: Seq<char>| #[trigger]
                m.contains_key(k) && m[k].timestamp == ts
        }),
{
    lemma_methods();
    let ts = choose|ts: u64| #[trigger]
        is_max_timestamp(m, ts) && answer == success(
            status_json(node_id, m.len(), ts, peers.len()),
            request.answer_id(),
        );
    statuses_are_read_whole(node_id, m.len(), ts, peers.len());
}

/// `sync.delta` gives every entry with a timestamp after `since` once, whole, and no other, and
/// their number.
pub proof fn delta_gives_the_later_entries(
    answer: Answer,
    request: Request,
    m: Map<Seq<char>, Lww>,
    peers: Map<Seq<char>, Peer>,
    node_id: Seq<char>,
    stamp: u64,
    now: Instant,
)
    requires
        is_answer(answer, request, m, peers, node_id, stamp, now),
        request.method == "sync.delta"@,
        entries_after(m, request.params).len() <= u64::MAX,
    ensures
        is_result(answer, request),
        ({
            let r = answer->Success_result;
            let all = r.member("entries"@)->0->Array_0;
            &&& r.member("entries"@) is Some
            &&& r.member("entries"@)->0 is Array
            &&& forall|i: int|
                0 <= i < all.len() ==> {
                    let k = (#[trigger] all[i]).text_member("key"@)->0;
                    &&& all[i].text_member("key"@) is Some
                    &&& m.contains_key(k)
                    &&& is_after(request.params, m[k].timestamp)
                    &&& all[i].text_member("value"@) == Some(m[k].value)
                    &&& all[i].count_member("timestamp"@) == Some(m[k].timestamp)
                    &&& all[i].text_member("node_id"@) == Some(m[k].node_id)
                }
            &&& forall|k: Seq<char>| #[trigger]
                m.contains_key(k) && is_after(request.params, m[k].timestamp) ==> exists|i: int|
                    0 <= i < all.len() && (#[trigger] all[i]).text_member("key"@) == Some(k)
            &&& forall|i: int, j: int|
                0 <= i < j < all.len() ==> (#[trigger] all[i]).text_member("key"@) != (
                #[trigger] all[j]).text_member("key"@)
            &&& r.count_member("count"@) is Some
            &&& r.count_member("count"@)->0 == all.len()
        }),
{
    lemma_methods();
    let wanted = entries_after(m, request.params);
    let list = choose|list: Seq<(Seq<char>, Lww)>| #[trigger]
        lists(list, wanted) && answer == success(delta_json(list), request.answer_id());
    listings_say_what_the_map_says(list, wanted);
    delta_lists_are_read_whole(list);
    let all = answer->Success_result.member("entries"@)->0->Array_0;
    assert forall|k: Seq<char>| #[trigger] wanted.contains_key(k) <==> m.contains_key(k)
        && is_after(request.params, m[k].timestamp) by {
        since_is_read_as_a_number(request.params, m[k].timestamp);
    }
    assert forall|i: int| 0 <= i < all.len() implies {
        let k = (#[trigger] all[i]).text_member("key"@)->0;
        &&& all[i].text_member("key"@) == Some(list[i].0)
        &&& m.contains_key(k)
        &&& is_after(request.params, m[k].timestamp)
        &&& all[i].text_member("value"@) == Some(m[k].value)
        &&& all[i].count_member("timestamp"@) == Some(m[k].timestamp)
        &&& all[i].text_member("node_id"@) == Some(m[k].node_id)
    } by {
        assert(all[i] == entry_json(list[i].0, list[i].1));
        entries_are_read_whole(list[i].0, list[i].1);
        assert(wanted.contains_key(list[i].0));
    }
    assert forall|k: Seq<char>| #[trigger]
        m.contains_key(k) && is_after(request.params, m[k].timestamp) implies exists|i: int|
        0 <= i < all.len() && (#[trigger] all[i]).text_member("key"@) == Some(k) by {
        assert(wanted.contains_key(k));
        let i = choose|i: int|
            0 <= i < list.len() && (#[trigger] list[i]).0 == k && list[i].1 == wanted[k];
        assert(all[i].text_member("key"@) == Some(list[i].0));
    }
    assert forall|i: int, j: int| 0 <= i < j < all.len() implies (#[trigger] all[i]).text_member(
        "key"@,
    ) != (#[trigger] all[j]).text_member("key"@) by {
        assert(all[i].text_member("key"@) == Some(list[i].0));
        assert(all[j].text_member("key"@) == Some(list[j].0));
        assert(list[i].0 != list[j].0);
    }
}

/// The timestamp `ts` is later than what the parameters name as `since`, for the cases in which
/// that is an integer, no number, or nothing at all; other numbers are compared as doubles.
pub open spec fn is_after(params: JsonView, ts: u64) -> bool {
    match params.member("since"@) {
        None => ts > 0,
        Some(JsonView::PosInt(n)) => ts > n,
        Some(JsonView::NegInt(n)) => ts as int > n as int,
        Some(JsonView::Float(bits)) => JsonView::Float(bits).lies_below(ts),
        Some(_) => ts > 0,
    }
}

/// A timestamp is held against `since` as a number: 0 where it is absent or no number at all.
pub proof fn since_is_read_as_a_number(params: JsonView, ts: u64)
    ensures
        after_since(params, ts) <==> is_after(params, ts),
        params.member("since"@) is None ==> (after_since(params, ts) <==> ts > 0),
        params.member("since"@) matches Some(JsonView::PosInt(n)) ==> (after_since(params, ts)
            <==> ts > n),
        params.member("since"@) matches Some(JsonView::NegInt(n)) ==> (after_since(params, ts)
            <==> ts as int > n as int),
        params.member("since"@) matches Some(JsonView::Str(s)) ==> (after_since(params, ts) <==> ts
            > 0),
{
    numbers_stand_for_themselves(ts, 0, 0, 0, JsonView::Null);
    if let Some(j) = params.member("since"@) {
        numbers_stand_for_themselves(ts, 0, 0, 0, j);
        match j {
            JsonView::PosInt(n) => numbers_stand_for_themselves(ts, n, 0, 0, j),
            JsonView::NegInt(n) => numbers_stand_for_themselves(ts, 0, n, 0, j),
            _ => {},
        }
    }
}

/// Without `since`, `sync.delta` gives everything later than 0, and so the whole state where
/// every entry is; with a whole number it gives what is later than that.
pub proof fn deltas_since_a_whole_number(m: Map<Seq<char>, Lww>, params: JsonView)
    ensures
        params.member("since"@) is None ==> entries_after(m, params) == newer_than(m, 0),
        params.member("since"@) is None && (forall|k: Seq<char>| #[trigger]
            m.contains_key(k) ==> m[k].timestamp > 0) ==> entries_after(m, params) == m,
        params.member("since"@) matches Some(JsonView::PosInt(n)) ==> entries_after(m, params)
            == newer_than(m, n),
        params.member("since"@) matches Some(JsonView::NegInt(n)) && n < 0 ==> entries_after(
            m,
            params,
        ) == m,
        forall|k: Seq<char>| #[trigger]
            entries_after(m, params).contains_key(k) ==> m.contains_key(k) && entries_after(
                m,
                params,
            )[k] == m[k],
{
    assert forall|k: Seq<char>| #[trigger] entries_after(m, params).contains_key(k)
        <==> m.contains_key(k) && is_after(params, m[k].timestamp) by {
        since_is_read_as_a_number(params, m[k].timestamp);
    }
    if params.member("since"@) is None {
        assert(entries_after(m, params) =~= newer_than(m, 0));
        if forall|k: Seq<char>| #[trigger] m.contains_key(k) ==> m[k].timestamp > 0 {
            assert(entries_after(m, params) =~= m);
        }
    }
    if let Some(JsonView::PosInt(n)) = params.member("since"@) {
        assert(entries_after(m, params) =~= newer_than(m, n));
    }
    if let Some(JsonView::NegInt(n)) = params.member("since"@) {
        if n < 0 {
            assert(entries_after(m, params) =~= m);
        }
    }
}

/// A method that there is not is refused by its name.
pub proof fn unknown_methods_are_refused(
    answer: Answer,
    request: Request,
    m: Map<Seq<char>, Lww>,
    peers: Map<Seq<char>, Peer>,
    node_id: Seq<char>,
    stamp: u64,
    now: Instant,
)
    requires
        is_answer(answer, request, m, peers, node_id, stamp, now),
        request.method != "state.get"@,
        request.method != "state.set"@,
        request.method != "state.keys"@,
        request.method != "node.peers"@,
        request.method != "sync.status"@,
        request.method != "sync.delta"@,
    ensures
        is_refusal(answer, request, -32601, "Method not found: "@ + request.method),
{
}

/// The names of the methods are different.
proof fn lemma_methods()
    ensures
        "state.get"@ != "state.set"@,
        "state.get"@ != "state.keys"@,
        "state.set"@ != "state.keys"@,
        "state.get"@ != "node.peers"@,
        "state.set"@ != "node.peers"@,
        "state.keys"@ != "node.peers"@,
        "state.get"@ != "sync.status"@,
        "state.set"@ != "sync.status"@,
        "state.keys"@ != "sync.status"@,
        "node.peers"@ != "sync.status"@,
        "state.get"@ != "sync.delta"@,
        "state.set"@ != "sync.delta"@,
        "state.keys"@ != "sync.delta"@,
        "node.peers"@ != "sync.delta"@,
        "sync.status"@ != "sync.delta"@,
        "state.subscribe"@ != "state.get"@,
        "state.subscribe"@ != "state.set"@,
{
    reveal_strlit("state.get");
    reveal_strlit("state.set");
    reveal_strlit("state.keys");
    reveal_strlit("state.subscribe");
    reveal_strlit("node.peers");
    reveal_strlit("sync.status");
    reveal_strlit("sync.delta");
    assert("state.get"@.len() == 9 && "state.set"@.len() == 9 && "state.keys"@.len() == 10
        && "node.peers"@.len() == 10 && "sync.status"@.len() == 11 && "sync.delta"@.len() == 10
        && "state.subscribe"@.len() == 15);
    assert("state.get"@[6] == 'g' && "state.set"@[6] == 's');
    assert("state.keys"@[1] == 't' && "node.peers"@[1] == 'o' && "sync.delta"@[1] == 'y');
}

// ── Requests and what they do ──────────────────────────────────────────────

/// A line that is no request is answered with a parse error that says why, without an id, and
/// does nothing.
pub proof fn no_request_does_nothing(
    before: RpcHandler,
    after: RpcHandler,
    text: String,
    stamp: u64,
    now: Instant,
    outcome: DispatchResult,
)
    requires
        dispatched(before, after, Err::<RpcRequest, String>(text), stamp, now, outcome),
    ensures
        outcome is Response,
        outcome->Response_0@ is Failure,
        outcome->Response_0@->Failure_jsonrpc == "2.0"@,
        outcome->Response_0@->Failure_code == -32700,
        outcome->Response_0@->Failure_message == text@,
        outcome->Response_0@->Failure_data is None,
        outcome->Response_0@->Failure_id == JsonView::Null,
        after.store@ == before.store@,
        after.store.sent() == before.store.sent(),
        after.peers@ == before.peers@,
{
}

/// A complete `state.set`, with an id or without, writes its value under its key with the stamp
/// and the node given: where the key had nothing as late the value is there afterwards, where
/// it had something later nothing changes; no other key is touched; and one event is sent, with
/// what the key then has.
pub proof fn a_complete_set_writes(
    before: RpcHandler,
    after: RpcHandler,
    request: RpcRequest,
    stamp: u64,
    now: Instant,
    outcome: DispatchResult,
    k: Seq<char>,
    v: Seq<char>,
)
    requires
        dispatched(before, after, Ok::<RpcRequest, String>(request), stamp, now, outcome),
        request.method@ == "state.set"@,
        request.params@.text_member("key"@) == Some(k),
        request.params@.text_member("value"@) == Some(v),
    ensures
        request@.is_write(),
        after.store@.contains_key(k),
        !before.store@.contains_key(k) || before.store@[k].timestamp < stamp ==> after.store@[k]
            == (Lww { value: v, timestamp: stamp, node_id: before.store.id() }),
        before.store@.contains_key(k) && before.store@[k].timestamp > stamp ==> after.store@
            == before.store@,
        forall|other: Seq<char>|
            other != k ==> (after.store@.contains_key(other) <==> #[trigger] before.store@.contains_key(
                other,
            )) && (before.store@.contains_key(other) ==> after.store@[other]
                == before.store@[other]),
        after.store.sent() == before.store.sent().push((k, after.store@[k])),
        after.peers@ == before.peers@,
        request.id is None ==> outcome is Notification,
        request.id is Some ==> outcome is Response,
{
    lemma_methods();
    let m = before.store@;
    let entry = Lww { value: v, timestamp: stamp, node_id: before.store.id() };
    if m.contains_key(k) && m[k].timestamp < stamp {
        the_later_timestamp_wins(entry, m[k]);
    }
    if m.contains_key(k) && m[k].timestamp > stamp {
        the_later_timestamp_wins(m[k], entry);
        assert(put(m, k, entry) =~= m);
    }
}

/// Anything else changes nothing and sends nothing out.
pub proof fn anything_else_only_reads(
    before: RpcHandler,
    after: RpcHandler,
    request: RpcRequest,
    stamp: u64,
    now: Instant,
    outcome: DispatchResult,
)
    requires
        dispatched(before, after, Ok::<RpcRequest, String>(request), stamp, now, outcome),
        request.method@ != "state.set"@ || request.params@.text_member("key"@) is None
            || request.params@.text_member("value"@) is None,
    ensures
        !request@.is_write(),
        after.store@ == before.store@,
        after.store.sent() == before.store.sent(),
        after.store.id() == before.store.id(),
        after.peers@ == before.peers@,
{
}

/// A subscription is confirmed under the id of its request with the prefix asked for, receives
/// what is sent from then on, and is narrowed to that prefix.
pub proof fn subscriptions_are_confirmed(
    before: RpcHandler,
    after: RpcHandler,
    request: RpcRequest,
    stamp: u64,
    now: Instant,
    outcome: DispatchResult,
)
    requires
        dispatched(before, after, Ok::<RpcRequest, String>(request), stamp, now, outcome),
        request.method@ == "state.subscribe"@,
    ensures
        outcome is Subscribed,
        is_result(outcome->initial_response@, request@),
        outcome->initial_response@->Success_result.text_member("status"@) == Some("subscribed"@),
        outcome->initial_response@->Success_result.text_member("prefix"@)
            == request.params@.text_member("prefix"@),
        outcome->prefix is Some <==> request.params@.text_member("prefix"@) is Some,
        outcome->prefix matches Some(p) ==> request.params@.text_member("prefix"@) == Some(p@),
        events_before(outcome->receiver) == before.store.sent(),
        after.store@ == before.store@,
        after.store.sent() == before.store.sent(),
{
    lemma_methods();
    confirmations_are_read_whole(request.params@.text_member("prefix"@));
}

/// Whoever asks with an id, and not for a subscription, is answered; whoever asks without one
/// is not.
pub proof fn who_is_answered(
    before: RpcHandler,
    after: RpcHandler,
    request: RpcRequest,
    stamp: u64,
    now: Instant,
    outcome: DispatchResult,
)
    requires
        dispatched(before, after, Ok::<RpcRequest, String>(request), stamp, now, outcome),
        request.method@ != "state.subscribe"@,
    ensures
        request.id is None ==> outcome is Notification,
        request.id is Some ==> outcome is Response && is_answer(
            outcome->Response_0@,
            request@,
            before.store@,
            before.peers@,
            before.store.id(),
            stamp,
            now,
        ),
{
}

/// Only a write waits for the clock: without a stamp it has no outcome and no effect, and
/// everything else has the outcome that it has at any time.
pub proof fn only_writes_wait_for_the_clock(
    before: RpcHandler,
    after: RpcHandler,
    request: Result<RpcRequest, String>,
    stamp: Option<u64>,
    now: Instant,
    outcome: Option<DispatchResult>,
)
    requires
        served(before, after, request, stamp, now, outcome),
    ensures
        stamp matches Some(ts) ==> outcome is Some && dispatched(
            before,
            after,
            request,
            ts,
            now,
            outcome->0,
        ),
        stamp is None && request is Err ==> outcome is Some,
        stamp is None && request is Ok && !request->Ok_0@.is_write() ==> outcome is Some
            && dispatched(before, after, request, 0, now, outcome->0),
        stamp is None && request is Ok && request->Ok_0@.is_write() ==> outcome is None && after
            == before,
        needs_stamp(request) <==> request is Ok && request->Ok_0@.is_write(),
{
}

/// What `state.set` wrote, `state.get` gives back to the client, whole, where the key had
/// nothing as late.
pub proof fn a_client_reads_what_it_wrote(
    set: Request,
    get: Request,
    answer: Answer,
    key: Seq<char>,
    value: Seq<char>,
    m: Map<Seq<char>, Lww>,
    peers: Map<Seq<char>, Peer>,
    node_id: Seq<char>,
    set_at: u64,
    get_at: u64,
    now: Instant,
)
    requires
        set.method == "state.set"@,
        set.params.text_member("key"@) == Some(key),
        set.params.text_member("value"@) == Some(value),
        !m.contains_key(key) || m[key].timestamp < set_at,
        get.method == "state.get"@,
        get.params.text_member("key"@) == Some(key),
        is_answer(
            answer,
            get,
            state_after(m, set.written(set_at, node_id)),
            peers,
            node_id,
            get_at,
            now,
        ),
    ensures
        answer is Success,
        answer->Success_result.text_member("key"@) == Some(key),
        answer->Success_result.text_member("value"@) == Some(value),
        answer->Success_result.count_member("timestamp"@) == Some(set_at),
        answer->Success_result.text_member("node_id"@) == Some(node_id),
{
    let entry = Lww { value, timestamp: set_at, node_id };
    let after = state_after(m, set.written(set_at, node_id));
    if m.contains_key(key) {
        the_later_timestamp_wins(entry, m[key]);
    }
    assert(after[key] == entry);
    get_gives_the_entry(answer, get, after, peers, node_id, get_at, now);
}

/// A prefix is handed on as the text that it is.
pub proof fn prefixes_are_seen_whole(prefix: Option<String>)
    ensures
        prefix matches Some(p) ==> prefix_view(prefix) == Some(p@),
        prefix is None ==> prefix_view(prefix) is None,
{
}

} // verus!
