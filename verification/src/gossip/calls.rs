//! What calls of this module's functions come to, and how two calls relate.

use std::time::Instant;
use vstd::prelude::*;
use crate::chance::is_draw;
use crate::clock::{instant_span, is_read, nanos_of};
use crate::config::{address, Config};
use crate::encoding::{ack_bytes, message_bytes, read_parts};
use crate::error::EngineError;
use crate::gossip::laws::{
    every_target_that_is_due_gets_its_push, pushes_carry_what_is_later,
    selections_are_as_wide_as_the_fanout, targets_come_out_of_a_draw, who_is_due_something,
};
use crate::gossip::manager::{
    are_drawn, are_pushes_to, due, handle_inbound, is_push_to, is_selection, push_acknowledged,
    GossipManager, Push,
};
use crate::gossip::peer::{idle_time_is_in_whole_seconds, Peer, PeerInfo};
use crate::gossip::protocol::{
    ack_from_decoded, decode_ack, decode_message, encode_ack, encode_message, frame, frame_length,
    framed, header_of, header_roundtrip, headers_are_big_endian, message_from_decoded, message_of,
    parts_of, payloads_are_read_by_their_beginning, GossipAck, GossipMessage, MessageParts,
};
use crate::gossip::table::{
    entries_view, peer_lists_are_seen_whole, seeded, seeds_are_registered, PeerTable,
};
use crate::listing::{lists, listings_say_what_the_map_says};
use crate::state::crdt::Lww;
use crate::state::laws::{
    changed_keys_are_those_that_differ, merge_makes_nothing_up, merge_never_regresses,
    merge_takes_up_entries, offers,
};
use crate::state::store::{changed_keys, delta_view, newer_than, texts, StateStore};
use crate::text::decimal;

verus! {

// ── Peers ──────────────────────────────────────────────────────────────────

/// A peer made at an instant has the address given, was seen at that instant, and has received
/// nothing.
pub proof fn new_peers_have_received_nothing(gossip_addr: String, now: Instant, p: PeerInfo)
    requires
        call_ensures(PeerInfo::new_at, (gossip_addr, now), p),
    ensures
        p.gossip_addr@ == gossip_addr@,
        p.last_seen == now,
        p.last_sync_ts == 0,
        p.exchange_count == 0,
{
}

/// As `new_peers_have_received_nothing`, at an instant that the clock gave.
pub proof fn new_peers_are_met_now(gossip_addr: String, p: PeerInfo)
    requires
        call_ensures(PeerInfo::new, (gossip_addr,), p),
    ensures
        p.gossip_addr@ == gossip_addr@,
        is_read(p.last_seen),
        p.last_sync_ts == 0,
        p.exchange_count == 0,
{
}

/// Recording an exchange counts it, dates it, keeps the address, and moves the sync timestamp
/// to the later one of what it was and what was sent.
pub proof fn exchanges_are_recorded(p: &mut PeerInfo, sync_ts: u64, now: Instant, r: ())
    requires
        call_ensures(PeerInfo::record_exchange_at, (p, sync_ts, now), r),
        old(p).exchange_count < u64::MAX,
    ensures
        final(p).gossip_addr@ == old(p).gossip_addr@,
        final(p).last_seen == now,
        final(p).exchange_count == old(p).exchange_count + 1,
        final(p).last_sync_ts == if old(p).last_sync_ts < sync_ts {
            sync_ts
        } else {
            old(p).last_sync_ts
        },
{
}

/// As `exchanges_are_recorded`, at an instant that the clock gave.
pub proof fn exchanges_are_recorded_now(p: &mut PeerInfo, sync_ts: u64, r: ())
    requires
        call_ensures(PeerInfo::record_exchange, (p, sync_ts), r),
        old(p).exchange_count < u64::MAX,
    ensures
        final(p).gossip_addr@ == old(p).gossip_addr@,
        is_read(final(p).last_seen),
        final(p).exchange_count == old(p).exchange_count + 1,
        final(p).last_sync_ts == if old(p).last_sync_ts < sync_ts {
            sync_ts
        } else {
            old(p).last_sync_ts
        },
{
}

/// Marking a peer as seen counts and dates it, and keeps address and sync timestamp.
pub proof fn sightings_are_recorded(p: &mut PeerInfo, now: Instant, r: ())
    requires
        call_ensures(PeerInfo::mark_seen_at, (p, now), r),
        old(p).exchange_count < u64::MAX,
    ensures
        final(p).gossip_addr@ == old(p).gossip_addr@,
        final(p).last_seen == now,
        final(p).exchange_count == old(p).exchange_count + 1,
        final(p).last_sync_ts == old(p).last_sync_ts,
{
}

/// As `sightings_are_recorded`, at an instant that the clock gave.
pub proof fn sightings_are_recorded_now(p: &mut PeerInfo, r: ())
    requires
        call_ensures(PeerInfo::mark_seen, (p,), r),
        old(p).exchange_count < u64::MAX,
    ensures
        final(p).gossip_addr@ == old(p).gossip_addr@,
        is_read(final(p).last_seen),
        final(p).exchange_count == old(p).exchange_count + 1,
        final(p).last_sync_ts == old(p).last_sync_ts,
{
}

/// A peer is stale once as many whole seconds have passed since it was last seen as the timeout
/// says, and not before.
pub proof fn peers_go_stale_with_the_timeout(
    p: &PeerInfo,
    timeout_secs: u64,
    now: Instant,
    secs: u64,
    stale: bool,
)
    requires
        call_ensures(PeerInfo::idle_secs_at, (p, now), secs),
        call_ensures(PeerInfo::is_stale_at, (p, timeout_secs, now), stale),
        nanos_of(instant_span(now, p.last_seen)) < 0x1_0000_0000_0000_0000 * 1_000_000_000,
    ensures
        secs * 1_000_000_000 <= nanos_of(instant_span(now, p.last_seen)) < (secs + 1)
            * 1_000_000_000,
        stale <==> nanos_of(instant_span(now, p.last_seen)) >= timeout_secs * 1_000_000_000,
{
    idle_time_is_in_whole_seconds(p@, now);
}

/// As `peers_go_stale_with_the_timeout`, at an instant that the clock gave.
pub proof fn peers_go_stale_by_the_clock(p: &PeerInfo, timeout_secs: u64, stale: bool)
    requires
        call_ensures(PeerInfo::is_stale, (p, timeout_secs), stale),
        forall|now: Instant| nanos_of(#[trigger] instant_span(now, p.last_seen))
            < 0x1_0000_0000_0000_0000 * 1_000_000_000,
    ensures
        exists|now: Instant|
            is_read(now) && (stale <==> nanos_of(#[trigger] instant_span(now, p.last_seen))
                >= timeout_secs * 1_000_000_000),
{
    let now = choose|now: Instant|
        is_read(now) && stale == (#[trigger] p@.idle_secs(now) >= timeout_secs);
    assert(nanos_of(instant_span(now, p.last_seen)) < 0x1_0000_0000_0000_0000 * 1_000_000_000);
    idle_time_is_in_whole_seconds(p@, now);
}

// ── The peer table ─────────────────────────────────────────────────────────

/// What is inserted is found again under its identifier, whole, and nobody else is touched.
pub proof fn inserted_peers_are_found(
    t: &mut PeerTable,
    id: String,
    info: PeerInfo,
    r: (),
    after: &PeerTable,
    key: &str,
    found: Option<PeerInfo>,
)
    requires
        call_ensures(PeerTable::insert, (t, id, info), r),
        *after == *final(t),
        call_ensures(PeerTable::get, (after, key), found),
    ensures
        key@ == id@ ==> found is Some && found->0@ == info@,
        key@ != id@ ==> (found is Some <==> old(t)@.contains_key(key@)) && (found is Some
            ==> found->0@ == old(t)@[key@]),
{
}

/// A new table is empty.
pub proof fn new_tables_are_empty(t: PeerTable, key: &str, found: Option<PeerInfo>, n: usize)
    requires
        call_ensures(PeerTable::new, (), t),
        call_ensures(PeerTable::get, (&t, key), found),
        call_ensures(PeerTable::len, (&t,), n),
    ensures
        found is None,
        n == 0,
{
}

/// The entries of a table are every peer once, whole; there are as many as its length says.
pub proof fn entries_are_every_peer(t: &PeerTable, r: Vec<(String, PeerInfo)>, n: usize)
    requires
        call_ensures(PeerTable::entries, (t,), r),
        call_ensures(PeerTable::len, (t,), n),
    ensures
        r@.len() == n,
        n == t@.len(),
        forall|i: int|
            0 <= i < r@.len() ==> {
                let id = (#[trigger] r@[i]).0@;
                &&& t@.contains_key(id)
                &&& r@[i].1.gossip_addr@ == t@[id].gossip_addr
                &&& r@[i].1.last_seen == t@[id].last_seen
                &&& r@[i].1.last_sync_ts == t@[id].last_sync_ts
                &&& r@[i].1.exchange_count == t@[id].exchange_count
            },
        forall|id: Seq<char>| #[trigger]
            t@.contains_key(id) ==> exists|i: int| 0 <= i < r@.len() && (#[trigger] r@[i]).0@ == id,
{
    let e = entries_view(r@);
    listings_say_what_the_map_says(e, t@);
    peer_lists_are_seen_whole(r@);
    assert forall|i: int| 0 <= i < r@.len() implies {
        let id = (#[trigger] r@[i]).0@;
        &&& t@.contains_key(id)
        &&& r@[i].1@ == t@[id]
    } by {
        assert(e[i] == (r@[i].0@, r@[i].1@));
        assert(e.contains((r@[i].0@, r@[i].1@)));
    }
    assert forall|id: Seq<char>| #[trigger] t@.contains_key(id) implies exists|i: int|
        0 <= i < r@.len() && (#[trigger] r@[i]).0@ == id by {
        let i = choose|i: int| 0 <= i < e.len() && (#[trigger] e[i]).0 == id && e[i].1 == t@[id];
        assert(r@[i].0@ == id);
    }
}

/// Registering seeds meets every address that is not empty and not known, and changes nothing
/// else.
pub proof fn seeds_are_met(t: &mut PeerTable, seeds: &Vec<String>, now: Instant, r: ())
    requires
        call_ensures(PeerTable::seed_at, (t, seeds, now), r),
    ensures
        forall|id: Seq<char>| #[trigger]
            old(t)@.contains_key(id) ==> final(t)@.contains_key(id) && final(t)@[id] == old(t)@[id],
        forall|i: int|
            0 <= i < seeds@.len() && (#[trigger] seeds@[i])@.len() > 0 ==> final(t)@.contains_key(
                seeds@[i]@,
            ) && (!old(t)@.contains_key(seeds@[i]@) ==> final(t)@[seeds@[i]@] == (Peer {
                gossip_addr: seeds@[i]@,
                last_seen: now,
                last_sync_ts: 0,
                exchange_count: 0,
            })),
        forall|id: Seq<char>| #[trigger]
            final(t)@.contains_key(id) && !old(t)@.contains_key(id) ==> id.len() > 0 && exists|i:
                int|
                0 <= i < seeds@.len() && (#[trigger] seeds@[i])@ == id,
{
    let all = texts(seeds@);
    seeds_are_registered(old(t)@, all, now);
    assert forall|i: int| 0 <= i < seeds@.len() implies all.contains((#[trigger] seeds@[i])@) by {
        assert(all[i] == seeds@[i]@);
    }
    assert forall|id: Seq<char>| #[trigger]
        final(t)@.contains_key(id) && !old(t)@.contains_key(id) implies id.len() > 0 && exists|
        i: int,
    | 0 <= i < seeds@.len() && (#[trigger] seeds@[i])@ == id by {
        assert(all.contains(id));
        let i = choose|i: int| 0 <= i < all.len() && all[i] == id;
        assert(seeds@[i]@ == id);
    }
}

/// Hearing from a node counts and dates it; one that is not known is met at its address. Nobody
/// else is touched.
pub proof fn hearing_from_a_node_is_recorded(
    t: &mut PeerTable,
    id: String,
    gossip_addr: String,
    now: Instant,
    r: (),
)
    requires
        call_ensures(PeerTable::heard_from_at, (t, id, gossip_addr, now), r),
        old(t)@.contains_key(id@) ==> old(t)@[id@].exchange_count < u64::MAX,
    ensures
        final(t)@.contains_key(id@),
        final(t)@[id@].last_seen == now,
        final(t)@[id@].exchange_count == 1 + if old(t)@.contains_key(id@) {
            old(t)@[id@].exchange_count as int
        } else {
            0
        },
        final(t)@[id@].last_sync_ts == if old(t)@.contains_key(id@) {
            old(t)@[id@].last_sync_ts
        } else {
            0
        },
        final(t)@[id@].gossip_addr == if old(t)@.contains_key(id@) {
            old(t)@[id@].gossip_addr
        } else {
            gossip_addr@
        },
        final(t)@.remove(id@) == old(t)@.remove(id@),
{
    assert(final(t)@.remove(id@) =~= old(t)@.remove(id@));
}

/// An acknowledgement counts and dates its node, and moves its sync timestamp to what was sent,
/// where that is later. Nobody else is touched.
pub proof fn an_acknowledged_push_is_recorded(
    t: &mut PeerTable,
    id: String,
    gossip_addr: String,
    sync_ts: u64,
    now: Instant,
    r: (),
)
    requires
        call_ensures(PeerTable::acknowledged_at, (t, id, gossip_addr, sync_ts, now), r),
        old(t)@.contains_key(id@) ==> old(t)@[id@].exchange_count < u64::MAX,
    ensures
        final(t)@.contains_key(id@),
        final(t)@[id@].last_seen == now,
        final(t)@[id@].exchange_count == 1 + if old(t)@.contains_key(id@) {
            old(t)@[id@].exchange_count as int
        } else {
            0
        },
        final(t)@[id@].last_sync_ts == if old(t)@.contains_key(id@) && old(t)@[id@].last_sync_ts
            > sync_ts {
            old(t)@[id@].last_sync_ts
        } else {
            sync_ts
        },
        final(t)@[id@].gossip_addr == if old(t)@.contains_key(id@) {
            old(t)@[id@].gossip_addr
        } else {
            gossip_addr@
        },
        final(t)@.remove(id@) == old(t)@.remove(id@),
{
    assert(final(t)@.remove(id@) =~= old(t)@.remove(id@));
}

// ── The wire ───────────────────────────────────────────────────────────────

/// A frame is four bytes that say, most significant first, how many follow (the low 32 bits of
/// their number), and then the payload. A receiver accepts what they say exactly where it is no
/// more than 16 MiB, and is told it.
pub proof fn frames_are_taken_apart_as_put_together(
    payload: &Vec<u8>,
    framed_bytes: Vec<u8>,
    header: [u8; 4],
    len: Result<usize, EngineError>,
)
    requires
        call_ensures(frame, (payload,), framed_bytes),
        call_ensures(frame_length, (header,), len),
    ensures
        framed_bytes@.len() == 4 + payload@.len(),
        framed_bytes@.skip(4) == payload@,
        framed_bytes@[0] * 16_777_216 + framed_bytes@[1] * 65_536 + framed_bytes@[2] * 256
            + framed_bytes@[3] == payload@.len() % 0x1_0000_0000,
        len is Ok <==> header@[0] * 16_777_216 + header@[1] * 65_536 + header@[2] * 256 + header@[3]
            <= 16_777_216,
        len is Ok ==> len->Ok_0 == header@[0] * 16_777_216 + header@[1] * 65_536 + header@[2] * 256
            + header@[3],
        len is Err ==> len->Err_0 is Peer && len->Err_0->Peer_0@ == "gossip message too large: "@
            + decimal(
            (header@[0] * 16_777_216 + header@[1] * 65_536 + header@[2] * 256 + header@[3]) as nat,
        ) + " bytes (max "@ + decimal(16_777_216) + ")"@,
{
    lemma_frame(payload@);
    headers_are_big_endian(0, header@);
}

/// The first four bytes of a frame tell how many follow, and the rest is the payload.
proof fn lemma_frame(payload: Seq<u8>)
    ensures
        framed(payload).len() == 4 + payload.len(),
        framed(payload).skip(4) == payload,
        framed(payload)[0] * 16_777_216 + framed(payload)[1] * 65_536 + framed(payload)[2] * 256
            + framed(payload)[3] == payload.len() % 0x1_0000_0000,
{
    let h = header_of(payload.len());
    header_roundtrip(payload.len());
    headers_are_big_endian(0, h);
    assert(framed(payload).skip(4) =~= payload);
}

/// A payload is decoded to a message exactly where it begins with what that message was encoded
/// to, behind the four bytes of the header.
pub proof fn messages_get_through(
    msg: &GossipMessage,
    bytes: Result<Vec<u8>, EngineError>,
    payload: &[u8],
    back: Result<GossipMessage, EngineError>,
)
    requires
        call_ensures(encode_message, (msg,), bytes),
        call_ensures(decode_message, (payload,), back),
    ensures
        bytes is Ok,
        bytes->Ok_0@.len() >= 4,
        bytes->Ok_0@[0] * 16_777_216 + bytes->Ok_0@[1] * 65_536 + bytes->Ok_0@[2] * 256
            + bytes->Ok_0@[3] == (bytes->Ok_0@.len() - 4) % 0x1_0000_0000,
        bytes->Ok_0@.skip(4).is_prefix_of(payload@) ==> {
            &&& back is Ok
            &&& back->Ok_0.from_node_id@ == msg.from_node_id@
            &&& back->Ok_0.from_gossip_addr@ == msg.from_gossip_addr@
            &&& back->Ok_0.generation == msg.generation
            &&& delta_view(back->Ok_0.deltas@) == delta_view(msg.deltas@)
        },
        back is Ok && back->Ok_0@ == msg@ ==> bytes->Ok_0@.skip(4).is_prefix_of(payload@),
        back is Err ==> back->Err_0 is Serialization,
{
    assert(payload.len() <= u64::MAX);
    payloads_are_read_by_their_beginning(payload@, msg@, (Seq::empty(), 0));
    let written = message_bytes(parts_of(msg@));
    lemma_frame(written);
    if written.is_prefix_of(payload@) {
        assert(back->Ok_0@ == msg@);
        assert(back->Ok_0@.deltas == msg@.deltas);
    }
}

/// A payload is decoded to an acknowledgement exactly where it begins with what that was encoded
/// to, behind the four bytes of the header.
pub proof fn acknowledgements_get_through(
    ack: &GossipAck,
    bytes: Result<Vec<u8>, EngineError>,
    payload: &[u8],
    back: Result<GossipAck, EngineError>,
)
    requires
        call_ensures(encode_ack, (ack,), bytes),
        call_ensures(decode_ack, (payload,), back),
    ensures
        bytes is Ok,
        bytes->Ok_0@.len() >= 4,
        bytes->Ok_0@[0] * 16_777_216 + bytes->Ok_0@[1] * 65_536 + bytes->Ok_0@[2] * 256
            + bytes->Ok_0@[3] == (bytes->Ok_0@.len() - 4) % 0x1_0000_0000,
        bytes->Ok_0@.skip(4).is_prefix_of(payload@) ==> {
            &&& back is Ok
            &&& back->Ok_0.from_node_id@ == ack.from_node_id@
            &&& back->Ok_0.merged_count == ack.merged_count
        },
        back is Ok && back->Ok_0@ == ack@ ==> bytes->Ok_0@.skip(4).is_prefix_of(payload@),
        back is Err ==> back->Err_0 is Serialization,
{
    assert(payload.len() <= u64::MAX);
    payloads_are_read_by_their_beginning(payload@, message_of(read_parts(payload@)->0), ack@);
    let written = ack_bytes(ack@);
    lemma_frame(written);
    if written.is_prefix_of(payload@) {
        assert(back->Ok_0@ == ack@);
    }
}

/// Parts that were decoded make up a message and an acknowledgement; an error in decoding is
/// passed on with what it was about.
pub proof fn decoded_parts_are_kept(
    parts: Result<MessageParts, String>,
    msg: Result<GossipMessage, EngineError>,
    ack_parts: Result<(String, usize), String>,
    ack: Result<GossipAck, EngineError>,
)
    requires
        call_ensures(message_from_decoded, (parts,), msg),
        call_ensures(ack_from_decoded, (ack_parts,), ack),
    ensures
        parts is Ok ==> {
            &&& msg is Ok
            &&& msg->Ok_0.from_node_id@ == parts->Ok_0.0@
            &&& msg->Ok_0.from_gossip_addr@ == parts->Ok_0.1@
            &&& msg->Ok_0.generation == parts->Ok_0.3
            &&& msg->Ok_0.deltas@.len() == parts->Ok_0.2@.len()
            &&& forall|i: int|
                0 <= i < msg->Ok_0.deltas@.len() ==> {
                    let e = #[trigger] msg->Ok_0.deltas@[i];
                    &&& e.0@ == parts->Ok_0.2@[i].0@
                    &&& e.1.value@ == parts->Ok_0.2@[i].1@
                    &&& e.1.timestamp == parts->Ok_0.2@[i].2
                    &&& e.1.node_id@ == parts->Ok_0.2@[i].3@
                }
        },
        parts is Err ==> msg is Err && msg->Err_0 is Serialization && msg->Err_0->Serialization_0@
            == "gossip decode: "@ + parts->Err_0@,
        ack_parts is Ok ==> ack is Ok && ack->Ok_0.from_node_id@ == ack_parts->Ok_0.0@
            && ack->Ok_0.merged_count == ack_parts->Ok_0.1,
        ack_parts is Err ==> ack is Err && ack->Err_0 is Serialization
            && ack->Err_0->Serialization_0@ == "gossip decode: "@ + ack_parts->Err_0@,
{
    if parts is Ok {
        let d = msg->Ok_0@.deltas;
        assert(d == delta_view(msg->Ok_0.deltas@));
        assert(d.len() == msg->Ok_0.deltas@.len());
        assert forall|i: int| 0 <= i < msg->Ok_0.deltas@.len() implies {
            let e = #[trigger] msg->Ok_0.deltas@[i];
            &&& e.0@ == parts->Ok_0.2@[i].0@
            &&& e.1.value@ == parts->Ok_0.2@[i].1@
            &&& e.1.timestamp == parts->Ok_0.2@[i].2
            &&& e.1.node_id@ == parts->Ok_0.2@[i].3@
        } by {
            assert(d[i] == (msg->Ok_0.deltas@[i].0@, msg->Ok_0.deltas@[i].1@));
        }
    }
}

// ── Rounds ─────────────────────────────────────────────────────────────────

/// A new manager keeps the configuration, has counted no round, and has registered the seeds.
pub proof fn new_managers_have_registered_the_seeds(
    config: Config,
    t: &mut PeerTable,
    r: GossipManager,
)
    requires
        call_ensures(GossipManager::new, (config, t), r),
    ensures
        r.config == config,
        r.generation == 0,
        forall|id: Seq<char>| #[trigger]
            old(t)@.contains_key(id) ==> final(t)@.contains_key(id) && final(t)@[id] == old(t)@[id],
        forall|i: int|
            0 <= i < config.seed_peers@.len() && (#[trigger] config.seed_peers@[i])@.len() > 0
                ==> final(t)@.contains_key(config.seed_peers@[i]@),
        forall|id: Seq<char>| #[trigger]
            final(t)@.contains_key(id) && !old(t)@.contains_key(id) ==> {
                &&& id.len() > 0
                &&& final(t)@[id].gossip_addr == id
                &&& is_read(final(t)@[id].last_seen)
                &&& final(t)@[id].last_sync_ts == 0
                &&& final(t)@[id].exchange_count == 0
                &&& exists|i: int|
                    0 <= i < config.seed_peers@.len() && (#[trigger] config.seed_peers@[i])@ == id
            },
{
    let all = texts(config.seed_peers@);
    let now = choose|now: Instant|
        is_read(now) && final(t)@ == #[trigger] seeded(old(t)@, all, now);
    seeds_are_registered(old(t)@, all, now);
    assert forall|i: int| 0 <= i < config.seed_peers@.len() implies all.contains(
        (#[trigger] config.seed_peers@[i])@,
    ) by {
        assert(all[i] == config.seed_peers@[i]@);
    }
    assert forall|id: Seq<char>| #[trigger]
        final(t)@.contains_key(id) && !old(t)@.contains_key(id) implies exists|i: int|
        0 <= i < config.seed_peers@.len() && (#[trigger] config.seed_peers@[i])@ == id by {
        assert(all.contains(id));
        let i = choose|i: int| 0 <= i < all.len() && all[i] == id;
        assert(config.seed_peers@[i]@ == id);
    }
}

/// What a push is to a target, field by field.
pub open spec fn is_for(
    push: Push,
    id: Seq<char>,
    info: Peer,
    own: Map<Seq<char>, Lww>,
    from_id: Seq<char>,
    host: Seq<char>,
    port: u16,
    generation: u64,
) -> bool {
    &&& push.peer_id@ == id
    &&& push.addr@ == info.gossip_addr
    &&& push.message.from_node_id@ == from_id
    &&& push.message.from_gossip_addr@ == address(host, port)
    &&& push.message.generation == generation
    &&& forall|k: Seq<char>, v: Lww| #[trigger]
        push.message@.deltas.contains((k, v)) <==> own.contains_key(k) && own[k] == v && v.timestamp
            > info.last_sync_ts
    &&& push.message@.deltas.no_duplicates()
    &&& forall|k: Seq<char>| #[trigger]
        own.contains_key(k) && own[k].timestamp > info.last_sync_ts ==> own[k].timestamp
            <= push.max_sent_ts
    &&& push.max_sent_ts > 0 ==> exists|k: Seq<char>| #[trigger]
        own.contains_key(k) && own[k].timestamp > info.last_sync_ts && own[k].timestamp
            == push.max_sent_ts
}

/// Given its targets, a round pushes to each of them that nothing was ever exchanged with or
/// that lacks something, what it lacks; to the others it pushes nothing. A round without
/// targets is not counted.
pub proof fn targets_are_pushed_what_they_lack(
    g: &mut GossipManager,
    targets: &Vec<(String, PeerInfo)>,
    store: &StateStore,
    r: Vec<Push>,
) -> (goes_to: Seq<int>)
    requires
        call_ensures(GossipManager::pushes_to, (g, targets, store), r),
    ensures
        final(g).config == old(g).config,
        targets@.len() == 0 ==> final(g).generation == old(g).generation,
        targets@.len() > 0 && old(g).generation < u64::MAX ==> final(g).generation == old(
            g,
        ).generation + 1,
        targets@.len() > 0 && old(g).generation == u64::MAX ==> final(g).generation == 0,
        goes_to.len() == r@.len(),
        forall|p: int|
            0 <= p < r@.len() ==> 0 <= #[trigger] goes_to[p] < targets@.len() && is_for(
                r@[p],
                targets@[goes_to[p]].0@,
                targets@[goes_to[p]].1@,
                store@,
                store.id(),
                old(g).config.host@,
                old(g).config.gossip_port,
                old(g).generation,
            ),
        forall|p: int, q: int|
            0 <= p < q < r@.len() ==> #[trigger] goes_to[p] < #[trigger] goes_to[q],
        forall|i: int|
            0 <= i < targets@.len() ==> (goes_to.contains(i) <==> (
            #[trigger] targets@[i]).1.exchange_count == 0 || exists|k: Seq<char>| #[trigger]
                store@.contains_key(k) && store@[k].timestamp > targets@[i].1.last_sync_ts),
{
    let t = entries_view(targets@);
    let addr = address(old(g).config.host@, old(g).config.gossip_port);
    let goes_to = every_target_that_is_due_gets_its_push(
        r@,
        t,
        store@,
        store.id(),
        addr,
        old(g).generation,
    );
    assert forall|p: int| 0 <= p < r@.len() implies 0 <= #[trigger] goes_to[p] < targets@.len()
        && is_for(
        r@[p],
        targets@[goes_to[p]].0@,
        targets@[goes_to[p]].1@,
        store@,
        store.id(),
        old(g).config.host@,
        old(g).config.gossip_port,
        old(g).generation,
    ) by {
        assert(t[goes_to[p]] == (targets@[goes_to[p]].0@, targets@[goes_to[p]].1@));
        pushes_carry_what_is_later(
            r@[p],
            t[goes_to[p]],
            store@,
            store.id(),
            addr,
            old(g).generation,
        );
        lemma_latest(r@[p], t[goes_to[p]], store@, store.id(), addr, old(g).generation);
    }
    assert forall|i: int| 0 <= i < targets@.len() implies (goes_to.contains(i) <==> (
    #[trigger] targets@[i]).1.exchange_count == 0 || exists|k: Seq<char>| #[trigger]
        store@.contains_key(k) && store@[k].timestamp > targets@[i].1.last_sync_ts) by {
        assert(t[i] == (targets@[i].0@, targets@[i].1@));
        who_is_due_something(t[i].1, store@);
        if goes_to.contains(i) {
            let p = choose|p: int| 0 <= p < goes_to.len() && goes_to[p] == i;
            assert(due(t[goes_to[p]].1, store@));
        }
    }
    goes_to
}

/// What a push holds to have been sent is the timestamp of an entry that it carries.
proof fn lemma_latest(
    push: Push,
    target: (Seq<char>, Peer),
    own: Map<Seq<char>, Lww>,
    from_id: Seq<char>,
    from_addr: Seq<char>,
    generation: u64,
)
    requires
        is_push_to(push, target, own, from_id, from_addr, generation),
    ensures
        push.max_sent_ts > 0 ==> exists|k: Seq<char>| #[trigger]
            own.contains_key(k) && own[k].timestamp > target.1.last_sync_ts && own[k].timestamp
                == push.max_sent_ts,
{
    let fresh = newer_than(own, target.1.last_sync_ts);
    if push.max_sent_ts > 0 {
        let k = choose|k: Seq<char>| #[trigger]
            fresh.contains_key(k) && fresh[k].timestamp == push.max_sent_ts;
        assert(own.contains_key(k) && own[k].timestamp > target.1.last_sync_ts);
    }
}

/// A round draws its targets: all peers of the table are drawn in a random order, and as many
/// of the first as the fanout says are contacted, all of them where there are no more. Each is
/// pushed what it lacks.
pub proof fn rounds_draw_their_targets(
    g: &mut GossipManager,
    store: &StateStore,
    peers: &PeerTable,
    r: Vec<Push>,
) -> (drawn: Seq<(Seq<char>, Peer)>)
    requires
        call_ensures(GossipManager::gossip_round, (g, store, peers), r),
    ensures
        final(g).config == old(g).config,
        exists|listed: Seq<(Seq<char>, Peer)>|
            lists(listed, peers@) && #[trigger] is_draw(listed, drawn),
        drawn.len() == peers@.len(),
        forall|id: Seq<char>| #[trigger]
            peers@.contains_key(id) ==> drawn.contains((id, peers@[id])),
        forall|i: int|
            0 <= i < drawn.len() && i < old(g).config.gossip_fanout && ((
            #[trigger] drawn[i]).1.exchange_count == 0 || exists|k: Seq<char>| #[trigger]
                store@.contains_key(k) && store@[k].timestamp > drawn[i].1.last_sync_ts)
                ==> exists|p: int|
                0 <= p < r@.len() && is_for(
                    #[trigger] r@[p],
                    drawn[i].0,
                    drawn[i].1,
                    store@,
                    store.id(),
                    old(g).config.host@,
                    old(g).config.gossip_port,
                    old(g).generation,
                ),
        forall|p: int|
            0 <= p < r@.len() ==> exists|i: int|
                0 <= i < drawn.len() && i < old(g).config.gossip_fanout && is_for(
                    #[trigger] r@[p],
                    (#[trigger] drawn[i]).0,
                    drawn[i].1,
                    store@,
                    store.id(),
                    old(g).config.host@,
                    old(g).config.gossip_port,
                    old(g).generation,
                ),
        r@.len() <= old(g).config.gossip_fanout,
        old(g).config.gossip_fanout == 0 || peers@.len() == 0 ==> final(g).generation == old(
            g,
        ).generation,
        old(g).config.gossip_fanout > 0 && peers@.len() > 0 && old(g).generation < u64::MAX
            ==> final(g).generation == old(g).generation + 1,
        old(g).config.gossip_fanout > 0 && peers@.len() > 0 && old(g).generation == u64::MAX
            ==> final(g).generation == 0,
{
    let fanout = old(g).config.gossip_fanout;
    let addr = address(old(g).config.host@, old(g).config.gossip_port);
    let t = choose|targets: Seq<(Seq<char>, Peer)>|
        is_selection(targets, peers@, fanout) && are_drawn(targets, peers@, fanout)
            && #[trigger] are_pushes_to(
            r@,
            targets,
            store@,
            store.id(),
            addr,
            old(g).generation,
        );
    let all = targets_come_out_of_a_draw(t, peers@, fanout);
    assert forall|i: int| 0 <= i < t.len() implies #[trigger] all[i] == t[i] by {
        assert(all.subrange(0, t.len() as int)[i] == all[i]);
    }
    selections_are_as_wide_as_the_fanout(t, peers@, fanout);
    let goes_to = every_target_that_is_due_gets_its_push(
        r@,
        t,
        store@,
        store.id(),
        addr,
        old(g).generation,
    );
    assert forall|p: int| 0 <= p < r@.len() implies 0 <= #[trigger] goes_to[p] < t.len() && is_for(
        r@[p],
        t[goes_to[p]].0,
        t[goes_to[p]].1,
        store@,
        store.id(),
        old(g).config.host@,
        old(g).config.gossip_port,
        old(g).generation,
    ) by {
        pushes_carry_what_is_later(
            r@[p],
            t[goes_to[p]],
            store@,
            store.id(),
            addr,
            old(g).generation,
        );
        lemma_latest(r@[p], t[goes_to[p]], store@, store.id(), addr, old(g).generation);
    }
    assert forall|i: int|
        0 <= i < all.len() && i < fanout && ((#[trigger] all[i]).1.exchange_count == 0 || exists|
            k: Seq<char>,
        | #[trigger]
            store@.contains_key(k) && store@[k].timestamp > all[i].1.last_sync_ts) implies exists|
        p: int,
    |
        0 <= p < r@.len() && is_for(
            #[trigger] r@[p],
            all[i].0,
            all[i].1,
            store@,
            store.id(),
            old(g).config.host@,
            old(g).config.gossip_port,
            old(g).generation,
        ) by {
        assert(all[i] == t[i]);
        who_is_due_something(t[i].1, store@);
        assert(goes_to.contains(i));
        let p = choose|p: int| 0 <= p < goes_to.len() && goes_to[p] == i;
        assert(0 <= goes_to[p] < t.len());
    }
    assert forall|p: int| 0 <= p < r@.len() implies exists|i: int|
        0 <= i < all.len() && i < fanout && is_for(
            #[trigger] r@[p],
            (#[trigger] all[i]).0,
            all[i].1,
            store@,
            store.id(),
            old(g).config.host@,
            old(g).config.gossip_port,
            old(g).generation,
        ) by {
        let i = goes_to[p];
        assert(all[i] == t[i]);
    }
    lemma_increasing(goes_to, t.len() as int);
    all
}

/// A sequence of increasing numbers from a range is no longer than the range.
proof fn lemma_increasing(s: Seq<int>, n: int)
    requires
        n >= 0,
        forall|p: int| 0 <= p < s.len() ==> 0 <= #[trigger] s[p] < n,
        forall|p: int, q: int| 0 <= p < q < s.len() ==> #[trigger] s[p] < #[trigger] s[q],
    ensures
        s.len() <= n,
    decreases s.len(),
{
    if s.len() > 0 {
        let shorter = s.drop_last();
        assert forall|p: int| 0 <= p < shorter.len() implies 0 <= #[trigger] shorter[p]
            < s.last() by {
            assert(s[p] < s[s.len() - 1]);
        }
        assert(0 <= s[s.len() - 1] < n);
        lemma_increasing(shorter, s.last());
    }
}

/// An acknowledgement moves the sync timestamp of the peer to what was sent to it, where that is
/// later, counts and dates the exchange, and touches nobody else. Who was not known is met at the
/// address that was pushed to.
pub proof fn acknowledgements_advance_the_peer(
    t: &mut PeerTable,
    peer_id: String,
    addr: String,
    max_sent_ts: u64,
    r: (),
)
    requires
        call_ensures(push_acknowledged, (t, peer_id, addr, max_sent_ts), r),
        old(t)@.contains_key(peer_id@) ==> old(t)@[peer_id@].exchange_count < u64::MAX,
    ensures
        final(t)@.contains_key(peer_id@),
        is_read(final(t)@[peer_id@].last_seen),
        ({
            let before = old(t)@;
            let after = final(t)@[peer_id@];
            let id = peer_id@;
            &&& before.contains_key(id) ==> after.gossip_addr == before[id].gossip_addr
                && after.exchange_count == before[id].exchange_count + 1 && after.last_sync_ts
                == if before[id].last_sync_ts > max_sent_ts {
                before[id].last_sync_ts
            } else {
                max_sent_ts
            }
            &&& !before.contains_key(id) ==> after.gossip_addr == addr@ && after.exchange_count == 1
                && after.last_sync_ts == max_sent_ts
        }),
        final(t)@.remove(peer_id@) == old(t)@.remove(peer_id@),
{
    assert(final(t)@.remove(peer_id@) =~= old(t)@.remove(peer_id@));
}

/// A message that comes in is merged entry by entry, its sender is known from then on and its
/// sync timestamp left alone, and it is told how many entries changed anything.
pub proof fn messages_are_merged_and_acknowledged(
    msg: GossipMessage,
    s: &mut StateStore,
    t: &mut PeerTable,
    ack: GossipAck,
)
    requires
        call_ensures(handle_inbound, (msg, s, t), ack),
        old(t)@.contains_key(msg.from_node_id@) ==> old(t)@[msg.from_node_id@].exchange_count
            < u64::MAX,
    ensures
        final(s).wf(),
        forall|i: int|
            0 <= i < msg.deltas@.len() ==> {
                let k = (#[trigger] msg.deltas@[i]).0@;
                &&& final(s)@.contains_key(k)
                &&& final(s)@[k].timestamp >= msg.deltas@[i].1.timestamp
            },
        forall|k: Seq<char>| #[trigger]
            old(s)@.contains_key(k) ==> final(s)@.contains_key(k) && final(s)@[k].timestamp >= old(
                s,
            )@[k].timestamp,
        forall|k: Seq<char>| #[trigger]
            final(s)@.contains_key(k) ==> (old(s)@.contains_key(k) && old(s)@[k] == final(s)@[k])
                || exists|i: int|
                0 <= i < msg.deltas@.len() && (#[trigger] msg.deltas@[i]).0@ == k
                    && msg.deltas@[i].1@ == final(s)@[k],
        forall|i: int|
            0 <= i < old(s).sent().len() ==> #[trigger] final(s).sent()[i] == old(s).sent()[i],
        forall|i: int|
            old(s).sent().len() <= i < final(s).sent().len() ==> {
                let (k, v) = #[trigger] final(s).sent()[i];
                &&& final(s)@.contains_key(k)
                &&& v == final(s)@[k]
                &&& !old(s)@.contains_key(k) || old(s)@[k] != v
            },
        forall|k: Seq<char>| #[trigger]
            final(s)@.contains_key(k) && (!old(s)@.contains_key(k) || old(s)@[k] != final(s)@[k])
                ==> final(s).sent().skip(old(s).sent().len() as int).contains((k, final(s)@[k])),
        ack.from_node_id@ == old(s).id(),
        ack.merged_count == final(s).sent().len() - old(s).sent().len(),
        ack.merged_count == 0 <==> final(s)@ == old(s)@,
        final(s).id() == old(s).id(),
        final(t)@.contains_key(msg.from_node_id@),
        is_read(final(t)@[msg.from_node_id@].last_seen),
        ({
            let before = old(t)@;
            let after = final(t)@[msg.from_node_id@];
            let id = msg.from_node_id@;
            &&& before.contains_key(id) ==> after.gossip_addr == before[id].gossip_addr
                && after.last_sync_ts == before[id].last_sync_ts && after.exchange_count
                == before[id].exchange_count + 1
            &&& !before.contains_key(id) ==> after.gossip_addr == msg.from_gossip_addr@
                && after.last_sync_ts == 0 && after.exchange_count == 1
        }),
        final(t)@.remove(msg.from_node_id@) == old(t)@.remove(msg.from_node_id@),
{
    let m = old(s)@;
    let d = delta_view(msg.deltas@);
    let after = final(s)@;
    assert(msg@.deltas == d);
    merge_takes_up_entries(m, d);
    merge_never_regresses(m, d);
    merge_makes_nothing_up(m, d);
    changed_keys_are_those_that_differ(m, d);
    assert forall|i: int| 0 <= i < msg.deltas@.len() implies {
        let k = (#[trigger] msg.deltas@[i]).0@;
        &&& after.contains_key(k)
        &&& after[k].timestamp >= msg.deltas@[i].1.timestamp
    } by {
        assert(d[i] == (msg.deltas@[i].0@, msg.deltas@[i].1@));
    }
    assert forall|k: Seq<char>| #[trigger] after.contains_key(k) implies (m.contains_key(k) && m[k]
        == after[k]) || exists|i: int|
        0 <= i < msg.deltas@.len() && (#[trigger] msg.deltas@[i]).0@ == k && msg.deltas@[i].1@
            == after[k] by {
        assert(offers(m, d, k, after[k]));
        if d.contains((k, after[k])) {
            let i = choose|i: int| 0 <= i < d.len() && d[i] == (k, after[k]);
            assert(msg.deltas@[i].0@ == k && msg.deltas@[i].1@ == after[k]);
        }
    }
    let changed = changed_keys(m, d);
    if changed.len() == 0 {
        assert forall|k: Seq<char>| after.contains_key(k) implies m.contains_key(k) && after[k]
            == m[k] by {
            if !m.contains_key(k) || after[k] != m[k] {
                assert(changed.contains(k));
            }
        }
        assert(after =~= m);
    } else {
        assert(changed.contains(changed[0]));
    }
    let news = changed.map_values(|k: Seq<char>| (k, after[k]));
    let n = old(s).sent().len() as int;
    assert(final(s).sent() == old(s).sent() + news);
    assert forall|i: int| n <= i < final(s).sent().len() implies {
        let (k, v) = #[trigger] final(s).sent()[i];
        &&& after.contains_key(k)
        &&& v == after[k]
        &&& !m.contains_key(k) || m[k] != v
    } by {
        assert(final(s).sent()[i] == news[i - n]);
        assert(changed.contains(changed[i - n]));
    }
    assert forall|k: Seq<char>| #[trigger] after.contains_key(k) && (!m.contains_key(k) || m[k]
        != after[k]) implies final(s).sent().skip(n).contains((k, after[k])) by {
        assert(changed.contains(k));
        let i = choose|i: int| 0 <= i < changed.len() && changed[i] == k;
        assert(final(s).sent().skip(n)[i] == (k, after[k]));
    }
    assert(final(t)@.remove(msg.from_node_id@) =~= old(t)@.remove(msg.from_node_id@));
}

// ── What the functions ask for ─────────────────────────────────────────────

/// An exchange can be recorded for every peer whose count has room for one more.
pub proof fn exchanges_can_be_counted(p: &mut PeerInfo, sync_ts: u64, now: Instant)
    requires
        old(p).exchange_count < u64::MAX,
    ensures
        call_requires(PeerInfo::record_exchange_at, (p, sync_ts, now)),
        call_requires(PeerInfo::record_exchange, (p, sync_ts)),
        call_requires(PeerInfo::mark_seen_at, (p, now)),
        call_requires(PeerInfo::mark_seen, (p,)),
{
}

/// Anyone can be heard from and can acknowledge: whoever is not known, and whoever is known and
/// has a count with room for one more. Nothing is asked of the address or of the timestamp.
pub proof fn anyone_can_be_heard_from(
    t: &mut PeerTable,
    id: String,
    gossip_addr: String,
    sync_ts: u64,
    now: Instant,
)
    requires
        old(t)@.contains_key(id@) ==> old(t)@[id@].exchange_count < u64::MAX,
    ensures
        call_requires(PeerTable::heard_from_at, (t, id, gossip_addr, now)),
        call_requires(PeerTable::acknowledged_at, (t, id, gossip_addr, sync_ts, now)),
        call_requires(push_acknowledged, (t, id, gossip_addr, sync_ts)),
{
}

/// Every message can be taken in, as long as the count of its sender has room for one more.
pub proof fn every_message_can_be_taken_in(
    msg: GossipMessage,
    s: &mut StateStore,
    t: &mut PeerTable,
)
    requires
        old(s).wf(),
        old(t)@.contains_key(msg.from_node_id@) ==> old(t)@[msg.from_node_id@].exchange_count
            < u64::MAX,
    ensures
        call_requires(handle_inbound, (msg, s, t)),
{
}

/// A round can be run at any time, whatever the fanout and the peers.
pub proof fn rounds_can_be_run_at_any_time(
    g: &mut GossipManager,
    targets: &Vec<(String, PeerInfo)>,
    store: &StateStore,
    peers: &PeerTable,
)
    requires
        store.wf(),
    ensures
        call_requires(GossipManager::gossip_round, (g, store, peers)),
        call_requires(GossipManager::pushes_to, (g, targets, store)),
{
}

/// Every payload can be framed, every header read, and all bytes can be looked at for a message.
pub proof fn all_bytes_can_be_looked_at(
    payload: &Vec<u8>,
    header: [u8; 4],
    bytes: &[u8],
    msg: &GossipMessage,
    ack: &GossipAck,
)
    ensures
        call_requires(frame, (payload,)),
        call_requires(frame_length, (header,)),
        call_requires(decode_message, (bytes,)),
        call_requires(decode_ack, (bytes,)),
        call_requires(encode_message, (msg,)),
        call_requires(encode_ack, (ack,)),
{
}

} // verus!
