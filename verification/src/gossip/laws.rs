//! What holds of gossip as a whole: an acknowledged push leaves the peer up to date, what is
//! confirmed stays confirmed, and an exchange in both directions ends in the same state.

use std::time::Instant;
use vstd::prelude::*;
use crate::chance::{draws_keep_everyone, is_draw};
use crate::gossip::manager::{
    are_drawn, are_pushes_to, due, is_push_to, is_selection, Push,
};
use crate::gossip::peer::Peer;
use crate::listing::{empty_listing, listings_say_what_the_map_says, lists};
use crate::state::crdt::{merge_dominates, stamp_ge, stamp_order, Lww};
use crate::state::laws::{
    agree, covers, delta_joins, join, join_associative, join_commutative, join_idempotent,
    merge_makes_nothing_up, merge_never_regresses, mutual_coverage_is_equality, offers,
};
use crate::state::store::{apply, newer_than};

verus! {

/// A peer with the state `peer` is up to date with the entries of `own` up to `ts`.
pub open spec fn confirmed(
    own: Map<Seq<char>, Lww>,
    peer: Map<Seq<char>, Lww>,
    ts: u64,
) -> bool {
    forall|k: Seq<char>| #[trigger]
        own.contains_key(k) && own[k].timestamp <= ts ==> peer.contains_key(k) && stamp_ge(
            peer[k],
            own[k],
        )
}

/// Nothing needs to be confirmed of a peer just met: its first push is the whole state, where
/// every entry carries a timestamp above 0.
pub proof fn new_peer_has_nothing_to_confirm(
    own: Map<Seq<char>, Lww>,
    peer: Map<Seq<char>, Lww>,
    gossip_addr: Seq<char>,
    now: Instant,
)
    requires
        forall|k: Seq<char>| #[trigger] own.contains_key(k) ==> own[k].timestamp > 0,
    ensures
        confirmed(own, peer, Peer::met(gossip_addr, now).last_sync_ts),
        due(Peer::met(gossip_addr, now), own),
{
}

/// A push that is merged and acknowledged leaves the peer up to date with everything that was
/// there when it was made, so its sync timestamp may advance to what was sent.
pub proof fn push_brings_up_to_date(
    own: Map<Seq<char>, Lww>,
    peer: Map<Seq<char>, Lww>,
    info: Peer,
    deltas: Seq<(Seq<char>, Lww)>,
    max_sent_ts: u64,
    now: Instant,
)
    requires
        confirmed(own, peer, info.last_sync_ts),
        lists(deltas, newer_than(own, info.last_sync_ts)),
    ensures
        covers(apply(peer, deltas), own),
        confirmed(own, apply(peer, deltas), info.exchanged(max_sent_ts, now).last_sync_ts),
{
    delta_joins(own, peer, info.last_sync_ts, deltas);
    assert forall|k: Seq<char>| #[trigger] own.contains_key(k) implies apply(
        peer,
        deltas,
    ).contains_key(k) && stamp_ge(apply(peer, deltas)[k], own[k]) by {
        stamp_order(own[k], own[k], own[k]);
        if peer.contains_key(k) {
            merge_dominates(peer[k], own[k]);
        }
    }
}

/// A known peer that a round leaves out is up to date with everything.
pub proof fn skipped_peer_is_up_to_date(
    own: Map<Seq<char>, Lww>,
    peer: Map<Seq<char>, Lww>,
    info: Peer,
)
    requires
        confirmed(own, peer, info.last_sync_ts),
        !due(info, own),
    ensures
        covers(peer, own),
{
    assert forall|k: Seq<char>| #[trigger] own.contains_key(k) implies peer.contains_key(k)
        && stamp_ge(peer[k], own[k]) by {
        if own[k].timestamp > info.last_sync_ts {
            assert(newer_than(own, info.last_sync_ts).contains_key(k));
        }
    }
}

/// What is confirmed stays confirmed whatever the peer merges.
pub proof fn peer_merges_keep_confirmation(
    own: Map<Seq<char>, Lww>,
    peer: Map<Seq<char>, Lww>,
    ts: u64,
    delta: Seq<(Seq<char>, Lww)>,
)
    requires
        confirmed(own, peer, ts),
    ensures
        confirmed(own, apply(peer, delta), ts),
{
    merge_never_regresses(peer, delta);
    assert forall|k: Seq<char>| #[trigger]
        own.contains_key(k) && own[k].timestamp <= ts implies apply(peer, delta).contains_key(k)
        && stamp_ge(apply(peer, delta)[k], own[k]) by {
        assert(peer.contains_key(k));
        stamp_order(apply(peer, delta)[k], peer[k], own[k]);
    }
}

/// What is confirmed stays confirmed when this node takes up entries that are later than the
/// sync timestamp, such as its own writes from then on.
pub proof fn later_writes_keep_confirmation(
    own: Map<Seq<char>, Lww>,
    peer: Map<Seq<char>, Lww>,
    ts: u64,
    delta: Seq<(Seq<char>, Lww)>,
)
    requires
        confirmed(own, peer, ts),
        forall|i: int| 0 <= i < delta.len() ==> (#[trigger] delta[i]).1.timestamp > ts,
    ensures
        confirmed(apply(own, delta), peer, ts),
{
    merge_makes_nothing_up(own, delta);
    let after = apply(own, delta);
    assert forall|k: Seq<char>| #[trigger]
        after.contains_key(k) && after[k].timestamp <= ts implies peer.contains_key(k)
        && stamp_ge(peer[k], after[k]) by {
        assert(offers(own, delta, k, after[k]));
        if delta.contains((k, after[k])) {
            let i = choose|i: int| 0 <= i < delta.len() && delta[i] == (k, after[k]);
            assert(delta[i].1.timestamp > ts);
        }
        assert(own.contains_key(k));
    }
}

/// What is confirmed stays confirmed when this node merges entries that the peer has, such as
/// those that the peer sent.
pub proof fn entries_of_the_peer_keep_confirmation(
    own: Map<Seq<char>, Lww>,
    peer: Map<Seq<char>, Lww>,
    ts: u64,
    delta: Seq<(Seq<char>, Lww)>,
)
    requires
        confirmed(own, peer, ts),
        forall|i: int|
            0 <= i < delta.len() ==> peer.contains_key((#[trigger] delta[i]).0) && stamp_ge(
                peer[delta[i].0],
                delta[i].1,
            ),
    ensures
        confirmed(apply(own, delta), peer, ts),
{
    merge_makes_nothing_up(own, delta);
    let after = apply(own, delta);
    assert forall|k: Seq<char>| #[trigger]
        after.contains_key(k) && after[k].timestamp <= ts implies peer.contains_key(k)
        && stamp_ge(peer[k], after[k]) by {
        assert(offers(own, delta, k, after[k]));
        if delta.contains((k, after[k])) {
            let i = choose|i: int| 0 <= i < delta.len() && delta[i] == (k, after[k]);
            assert(delta[i].0 == k);
        } else {
            assert(own.contains_key(k));
        }
    }
}

/// An entry with a timestamp at or below a peer's sync timestamp is not sent to that peer,
/// whether the peer has it or not; and where there are no other entries, a peer that something
/// was exchanged with is not even contacted.
pub proof fn late_entries_are_not_sent(own: Map<Seq<char>, Lww>, info: Peer, k: Seq<char>)
    requires
        own.contains_key(k),
        own[k].timestamp <= info.last_sync_ts,
    ensures
        !newer_than(own, info.last_sync_ts).contains_key(k),
        info.exchange_count > 0 && newer_than(own.remove(k), info.last_sync_ts) == Map::<
            Seq<char>,
            Lww,
        >::empty() ==> !due(info, own),
{
    let none = Map::<Seq<char>, Lww>::empty();
    if newer_than(own.remove(k), info.last_sync_ts) == none {
        assert forall|other: Seq<char>| !newer_than(own, info.last_sync_ts).contains_key(other) by {
            assert(!newer_than(own.remove(k), info.last_sync_ts).contains_key(other));
        }
        assert(newer_than(own, info.last_sync_ts) =~= none);
    }
}

/// An exchange in both directions, each side sending only what is later than its sync
/// timestamp, ends with both replicas in the same state.
pub proof fn two_way_exchange_converges(
    a: Map<Seq<char>, Lww>,
    b: Map<Seq<char>, Lww>,
    a_ts: u64,
    b_ts: u64,
    from_a: Seq<(Seq<char>, Lww)>,
    from_b: Seq<(Seq<char>, Lww)>,
)
    requires
        agree(a, b),
        confirmed(a, b, a_ts),
        confirmed(b, a, b_ts),
        lists(from_a, newer_than(a, a_ts)),
        lists(from_b, newer_than(apply(b, from_a), b_ts)),
    ensures
        apply(a, from_b) == apply(b, from_a),
        apply(a, from_b) == join(a, b),
{
    let b1 = apply(b, from_a);
    delta_joins(a, b, a_ts, from_a);
    assert(b1 == join(b, a));
    assert forall|k: Seq<char>| #[trigger]
        b1.contains_key(k) && b1[k].timestamp <= b_ts implies a.contains_key(k) && stamp_ge(
        a[k],
        b1[k],
    ) by {
        if a.contains_key(k) {
            stamp_order(a[k], a[k], a[k]);
        }
        if b.contains_key(k) && b1[k] == b[k] {
            assert(a.contains_key(k));
        }
    }
    delta_joins(b1, a, b_ts, from_b);
    join_commutative(a, b);
    join_associative(a, a, b);
    join_idempotent(a);
}

/// Two nodes that have nothing to send each other any more, and each of which is up to date
/// with what the other holds confirmed, are in the same state. (An entry that reaches a node
/// late can undo what is confirmed; `gossip::cluster` keeps account of such entries.)
pub proof fn quiet_pair_has_converged(
    a: Map<Seq<char>, Lww>,
    b: Map<Seq<char>, Lww>,
    a_of_b: Peer,
    b_of_a: Peer,
)
    requires
        agree(a, b),
        confirmed(a, b, a_of_b.last_sync_ts),
        confirmed(b, a, b_of_a.last_sync_ts),
        !due(a_of_b, a),
        !due(b_of_a, b),
    ensures
        a == b,
{
    skipped_peer_is_up_to_date(a, b, a_of_b);
    skipped_peer_is_up_to_date(b, a, b_of_a);
    mutual_coverage_is_equality(a, b);
}

/// A cluster in which no node has anything to send any more, and in which what is confirmed
/// holds, has converged: along any path of nodes that know each other, from one end to the
/// other, the state is the same. `ahead[i]` is what node `i` of the path knows of the next
/// one, and `back[i]` the other way round. (What is confirmed no longer holds of a peer that
/// lacks an entry which reached this node late; see `late_entries_are_not_sent`.)
pub proof fn quiet_cluster_has_converged(
    path: Seq<Map<Seq<char>, Lww>>,
    ahead: Seq<Peer>,
    back: Seq<Peer>,
)
    requires
        path.len() > 0,
        forall|i: int|
            #![trigger path[i]]
            0 <= i < path.len() - 1 ==> {
                &&& agree(path[i], path[i + 1])
                &&& confirmed(path[i], path[i + 1], ahead[i].last_sync_ts)
                &&& confirmed(path[i + 1], path[i], back[i].last_sync_ts)
                &&& !due(ahead[i], path[i])
                &&& !due(back[i], path[i + 1])
            },
    ensures
        path.last() == path[0],
    decreases path.len(),
{
    let n = path.len() - 1;
    if n > 0 {
        let shorter = path.drop_last();
        assert forall|i: int|
            #![trigger shorter[i]]
            0 <= i < shorter.len() - 1 implies {
            &&& agree(shorter[i], shorter[i + 1])
            &&& confirmed(shorter[i], shorter[i + 1], ahead[i].last_sync_ts)
            &&& confirmed(shorter[i + 1], shorter[i], back[i].last_sync_ts)
            &&& !due(ahead[i], shorter[i])
            &&& !due(back[i], shorter[i + 1])
        } by {
            assert(shorter[i] == path[i]);
            assert(shorter[i + 1] == path[i + 1]);
        }
        quiet_cluster_has_converged(shorter, ahead, back);
        assert(path[n - 1] == shorter.last());
        quiet_pair_has_converged(path[n - 1], path[n], ahead[n - 1], back[n - 1]);
    }
}

/// Acknowledgements that arrive in another order than the pushes leave the same sync
/// timestamp, and none moves it back.
pub proof fn late_acknowledgements_are_harmless(info: Peer, ts1: u64, ts2: u64, now: Instant)
    ensures
        info.exchanged(ts1, now).exchanged(ts2, now).last_sync_ts == info.exchanged(
            ts2,
            now,
        ).exchanged(ts1, now).last_sync_ts,
        info.exchanged(ts1, now).last_sync_ts >= info.last_sync_ts,
{
}

/// Hearing from a peer does not count as having sent it anything.
pub proof fn hearing_keeps_the_sync_timestamp(info: Peer, now: Instant)
    ensures
        info.heard(now).last_sync_ts == info.last_sync_ts,
        info.heard(now).gossip_addr == info.gossip_addr,
{
}

/// With a fanout of at least the number of peers, a round contacts every peer.
pub proof fn wide_fanout_reaches_everyone(
    targets: Seq<(Seq<char>, Peer)>,
    peers: Map<Seq<char>, Peer>,
    fanout: usize,
)
    requires
        peers.dom().finite(),
        is_selection(targets, peers, fanout),
        fanout >= peers.len(),
    ensures
        lists(targets, peers),
{
    let ids = targets.map_values(|e: (Seq<char>, Peer)| e.0);
    assert(ids.no_duplicates());
    ids.unique_seq_to_set();
    assert forall|id: Seq<char>| ids.to_set().contains(id) implies peers.dom().contains(id) by {
        let i = choose|i: int| 0 <= i < ids.len() && ids[i] == id;
        assert(targets[i].0 == id);
    }
    vstd::set_lib::lemma_subset_equality(ids.to_set(), peers.dom());
    assert forall|k: Seq<char>| #[trigger] peers.contains_key(k) implies exists|i: int|
        0 <= i < targets.len() && (#[trigger] targets[i]).0 == k by {
        assert(ids.to_set().contains(k));
        let i = choose|i: int| 0 <= i < ids.len() && ids[i] == k;
        assert(targets[i].0 == k);
    }
}

// ── Who is sent what ───────────────────────────────────────────────────────

/// Something is due to a peer that nothing was exchanged with, and to one that lacks an entry
/// with a timestamp after its sync timestamp; to nobody else.
pub proof fn who_is_due_something(info: Peer, own: Map<Seq<char>, Lww>)
    ensures
        due(info, own) <==> info.exchange_count == 0 || exists|k: Seq<char>| #[trigger]
            own.contains_key(k) && own[k].timestamp > info.last_sync_ts,
{
    let none = Map::<Seq<char>, Lww>::empty();
    let fresh = newer_than(own, info.last_sync_ts);
    if fresh != none {
        if forall|k: Seq<char>| !fresh.contains_key(k) {
            assert(fresh =~= none);
        }
        let k = choose|k: Seq<char>| fresh.contains_key(k);
        assert(own.contains_key(k) && own[k].timestamp > info.last_sync_ts);
    }
    if exists|k: Seq<char>| #[trigger]
        own.contains_key(k) && own[k].timestamp > info.last_sync_ts {
        let k = choose|k: Seq<char>| #[trigger]
            own.contains_key(k) && own[k].timestamp > info.last_sync_ts;
        assert(fresh.contains_key(k));
    }
}

/// A push goes to the address of its target, names its sender, and carries every entry of the
/// sender that is later than the target's sync timestamp, unchanged and once, and no other. What
/// it holds to have been sent is the latest timestamp among them.
pub proof fn pushes_carry_what_is_later(
    push: Push,
    target: (Seq<char>, Peer),
    own: Map<Seq<char>, Lww>,
    from_id: Seq<char>,
    from_addr: Seq<char>,
    generation: u64,
)
    requires
        is_push_to(push, target, own, from_id, from_addr, generation),
    ensures
        push.peer_id@ == target.0,
        push.addr@ == target.1.gossip_addr,
        push.message.from_node_id@ == from_id,
        push.message.from_gossip_addr@ == from_addr,
        push.message.generation == generation,
        forall|k: Seq<char>, v: Lww| #[trigger]
            push.message@.deltas.contains((k, v)) <==> own.contains_key(k) && own[k] == v
                && v.timestamp > target.1.last_sync_ts,
        push.message@.deltas.no_duplicates(),
        forall|k: Seq<char>| #[trigger]
            own.contains_key(k) ==> own[k].timestamp <= push.max_sent_ts || own[k].timestamp
                <= target.1.last_sync_ts,
        push.max_sent_ts > 0 ==> push.message@.deltas.len() > 0,
        push.message@.deltas.len() > 0 ==> push.max_sent_ts > target.1.last_sync_ts,
{
    let fresh = newer_than(own, target.1.last_sync_ts);
    let deltas = push.message@.deltas;
    listings_say_what_the_map_says(deltas, fresh);
    assert forall|k: Seq<char>, v: Lww| #[trigger] deltas.contains((k, v)) <==> own.contains_key(k)
        && own[k] == v && v.timestamp > target.1.last_sync_ts by {
        assert(deltas.contains((k, v)) <==> fresh.contains_key(k) && fresh[k] == v);
    }
    assert forall|k: Seq<char>| #[trigger] own.contains_key(k) implies own[k].timestamp
        <= push.max_sent_ts || own[k].timestamp <= target.1.last_sync_ts by {
        if own[k].timestamp > target.1.last_sync_ts {
            assert(fresh.contains_key(k));
        }
    }
    empty_listing(deltas, fresh);
    if deltas.len() > 0 {
        assert(fresh.contains_key(deltas[0].0));
    }
}

/// The pushes of a round are those to the targets that something is due to, one each and in
/// their order: there is a push for every such target, and none for anybody else.
pub proof fn every_target_that_is_due_gets_its_push(
    pushes: Seq<Push>,
    targets: Seq<(Seq<char>, Peer)>,
    own: Map<Seq<char>, Lww>,
    from_id: Seq<char>,
    from_addr: Seq<char>,
    generation: u64,
) -> (goes_to: Seq<int>)
    requires
        are_pushes_to(pushes, targets, own, from_id, from_addr, generation),
    ensures
        goes_to.len() == pushes.len(),
        forall|p: int|
            0 <= p < pushes.len() ==> 0 <= #[trigger] goes_to[p] < targets.len() && due(
                targets[goes_to[p]].1,
                own,
            ) && is_push_to(pushes[p], targets[goes_to[p]], own, from_id, from_addr, generation),
        forall|p: int, q: int|
            0 <= p < q < pushes.len() ==> #[trigger] goes_to[p] < #[trigger] goes_to[q],
        forall|i: int|
            0 <= i < targets.len() && due((#[trigger] targets[i]).1, own) ==> goes_to.contains(i),
    decreases targets.len(),
{
    if targets.len() == 0 {
        Seq::empty()
    } else {
        let shorter = targets.drop_last();
        let last = targets.len() - 1;
        if due(targets.last().1, own) {
            let before = every_target_that_is_due_gets_its_push(
                pushes.drop_last(),
                shorter,
                own,
                from_id,
                from_addr,
                generation,
            );
            let goes_to = before.push(last);
            assert forall|p: int| 0 <= p < pushes.len() implies 0 <= #[trigger] goes_to[p]
                < targets.len() && due(targets[goes_to[p]].1, own) && is_push_to(
                pushes[p],
                targets[goes_to[p]],
                own,
                from_id,
                from_addr,
                generation,
            ) by {
                if p < pushes.len() - 1 {
                    assert(0 <= before[p] < shorter.len());
                    assert(pushes.drop_last()[p] == pushes[p]);
                    assert(shorter[before[p]] == targets[before[p]]);
                }
            }
            assert forall|p: int, q: int| 0 <= p < q < pushes.len() implies #[trigger] goes_to[p]
                < #[trigger] goes_to[q] by {
                assert(0 <= before[p] < shorter.len());
                if q < pushes.len() - 1 {
                    assert(before[p] < before[q]);
                }
            }
            assert forall|i: int|
                0 <= i < targets.len() && due((#[trigger] targets[i]).1, own) implies
                goes_to.contains(i) by {
                if i < last {
                    assert(shorter[i] == targets[i]);
                    assert(before.contains(i));
                    let p = choose|p: int| 0 <= p < before.len() && before[p] == i;
                    assert(goes_to[p] == i);
                } else {
                    assert(goes_to[before.len() as int] == i);
                }
            }
            goes_to
        } else {
            let goes_to = every_target_that_is_due_gets_its_push(
                pushes,
                shorter,
                own,
                from_id,
                from_addr,
                generation,
            );
            assert forall|p: int| 0 <= p < pushes.len() implies 0 <= #[trigger] goes_to[p]
                < targets.len() && due(targets[goes_to[p]].1, own) && is_push_to(
                pushes[p],
                targets[goes_to[p]],
                own,
                from_id,
                from_addr,
                generation,
            ) by {
                assert(shorter[goes_to[p]] == targets[goes_to[p]]);
            }
            assert forall|i: int|
                0 <= i < targets.len() && due((#[trigger] targets[i]).1, own) implies
                goes_to.contains(i) by {
                assert(shorter[i] == targets[i]);
            }
            goes_to
        }
    }
}

/// The targets of a round are peers of the table, all different, and as many as the fanout
/// says, or all of them where there are no more.
pub proof fn selections_are_as_wide_as_the_fanout(
    targets: Seq<(Seq<char>, Peer)>,
    peers: Map<Seq<char>, Peer>,
    fanout: usize,
)
    requires
        is_selection(targets, peers, fanout),
    ensures
        targets.len() <= fanout,
        targets.len() <= peers.len(),
        targets.len() == fanout || targets.len() == peers.len(),
        targets.no_duplicates(),
        forall|e: (Seq<char>, Peer)| #[trigger]
            targets.contains(e) ==> peers.contains_key(e.0) && peers[e.0] == e.1,
{
    assert forall|i: int, j: int| 0 <= i < targets.len() && 0 <= j < targets.len() && i
        != j implies targets[i] != targets[j] by {
        if i < j {
            assert(targets[i].0 != targets[j].0);
        } else {
            assert(targets[j].0 != targets[i].0);
        }
    }
}

/// The targets of a round come out of a draw among all peers of the table: they are the first
/// of the order drawn, as many as the fanout says, whatever the number of peers and the fanout.
pub proof fn targets_come_out_of_a_draw(
    targets: Seq<(Seq<char>, Peer)>,
    peers: Map<Seq<char>, Peer>,
    fanout: usize,
) -> (drawn: Seq<(Seq<char>, Peer)>)
    requires
        are_drawn(targets, peers, fanout),
    ensures
        exists|listed: Seq<(Seq<char>, Peer)>| lists(listed, peers) && #[trigger] is_draw(
            listed,
            drawn,
        ),
        drawn.len() == peers.len(),
        forall|id: Seq<char>| #[trigger]
            peers.contains_key(id) ==> drawn.contains((id, peers[id])),
        targets.is_prefix_of(drawn),
        targets.len() == fanout || targets.len() == drawn.len(),
        targets.len() <= fanout,
{
    let (listed, drawn) = choose|
        listed: Seq<(Seq<char>, Peer)>,
        drawn: Seq<(Seq<char>, Peer)>,
    | #[trigger]
        is_draw(listed, drawn) && lists(listed, peers) && targets == drawn.take(
            if fanout < drawn.len() {
                fanout as int
            } else {
                drawn.len() as int
            },
        );
    draws_keep_everyone(listed, drawn);
    listings_say_what_the_map_says(listed, peers);
    assert forall|id: Seq<char>| #[trigger] peers.contains_key(id) implies drawn.contains(
        (id, peers[id]),
    ) by {
        assert(listed.contains((id, peers[id])));
    }
    assert(targets =~= drawn.subrange(0, targets.len() as int));
    drawn
}

} // verus!
