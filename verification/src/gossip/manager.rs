//! The rules of a gossip exchange: whom to contact, what to send, and what to make of what
//! comes back.

use rand::seq::SliceRandom;
use std::time::Instant;
use vstd::prelude::*;
use crate::chance::is_draw;
use crate::clock::is_read;
use crate::config::{address, Config};
use crate::gossip::peer::{Peer, PeerInfo};
use crate::gossip::protocol::{GossipAck, GossipMessage};
use crate::gossip::table::{countable, entries_view, known_or_met, seeded, PeerTable};
use crate::listing::{empty_listing, listing_length, lists};
use crate::state::crdt::{Lww, LwwValue};
use crate::state::store::{
    apply, changed_keys, delta_view, is_max_timestamp, newer_than, texts, StateStore,
};

verus! {

/// `SliceRandom::shuffle`, drawing on `rand::thread_rng`, reorders the list. The order is left
/// to chance; a system without a source of randomness is left unsaid.
#[verifier::external_body]
fn shuffle(list: &mut Vec<(String, PeerInfo)>)
    ensures
        final(list)@.to_multiset() == old(list)@.to_multiset(),
        is_draw(entries_view(old(list)@), entries_view(final(list)@)),
{
    list.shuffle(&mut rand::thread_rng());
}

/// One push that a gossip round calls for.
pub struct Push {
    /// The peer, as the peer table knows it.
    pub peer_id: String,
    /// Where to send the message.
    pub addr: String,
    /// What to send.
    pub message: GossipMessage,
    /// The highest timestamp among the entries of `message`, or 0 where it has none: how far
    /// the peer is known to be up to date once it acknowledges.
    pub max_sent_ts: u64,
}

/// A peer gets a message when there is something new for it, or when nothing was ever
/// exchanged with it: an empty message introduces this node.
pub open spec fn due(peer: Peer, state: Map<Seq<char>, Lww>) -> bool {
    peer.exchange_count == 0 || newer_than(state, peer.last_sync_ts) != Map::<
        Seq<char>,
        Lww,
    >::empty()
}

/// `push` is what the target (`id`, `peer`) gets from the node `from_id` at `from_addr` with
/// the state `state`, in round `generation`.
pub open spec fn is_push_to(
    push: Push,
    target: (Seq<char>, Peer),
    state: Map<Seq<char>, Lww>,
    from_id: Seq<char>,
    from_addr: Seq<char>,
    generation: u64,
) -> bool {
    &&& push.peer_id@ == target.0
    &&& push.addr@ == target.1.gossip_addr
    &&& push.message@.from_node_id == from_id
    &&& push.message@.from_gossip_addr == from_addr
    &&& push.message@.generation == generation
    &&& lists(push.message@.deltas, newer_than(state, target.1.last_sync_ts))
    &&& is_max_timestamp(newer_than(state, target.1.last_sync_ts), push.max_sent_ts)
}

/// `pushes` are what the targets get, in their order; those that nothing is due to are left
/// out.
pub open spec fn are_pushes_to(
    pushes: Seq<Push>,
    targets: Seq<(Seq<char>, Peer)>,
    state: Map<Seq<char>, Lww>,
    from_id: Seq<char>,
    from_addr: Seq<char>,
    generation: u64,
) -> bool
    decreases targets.len(),
{
    if targets.len() == 0 {
        pushes.len() == 0
    } else if due(targets.last().1, state) {
        &&& pushes.len() > 0
        &&& is_push_to(pushes.last(), targets.last(), state, from_id, from_addr, generation)
        &&& are_pushes_to(
            pushes.drop_last(),
            targets.drop_last(),
            state,
            from_id,
            from_addr,
            generation,
        )
    } else {
        are_pushes_to(pushes, targets.drop_last(), state, from_id, from_addr, generation)
    }
}

/// `targets` are as many different peers of the table as the fanout allows.
pub open spec fn is_selection(
    targets: Seq<(Seq<char>, Peer)>,
    peers: Map<Seq<char>, Peer>,
    fanout: usize,
) -> bool {
    &&& targets.len() == if fanout < peers.len() {
        fanout as nat
    } else {
        peers.len()
    }
    &&& forall|i: int|
        0 <= i < targets.len() ==> peers.contains_key((#[trigger] targets[i]).0)
            && peers[targets[i].0] == targets[i].1
    &&& forall|i: int, j: int|
        0 <= i < j < targets.len() ==> (#[trigger] targets[i]).0 != (#[trigger] targets[j]).0
}

/// `targets` are the first of the peers of the table, as many as the fanout allows, in an order
/// that was drawn at random.
pub open spec fn are_drawn(
    targets: Seq<(Seq<char>, Peer)>,
    peers: Map<Seq<char>, Peer>,
    fanout: usize,
) -> bool {
    exists|listed: Seq<(Seq<char>, Peer)>, drawn: Seq<(Seq<char>, Peer)>| #[trigger]
        is_draw(listed, drawn) && lists(listed, peers) && targets == drawn.take(
            if fanout < drawn.len() {
                fanout as int
            } else {
                drawn.len() as int
            },
        )
}

/// The highest timestamp among the entries of `delta`, or 0 where it has none.
fn highest_timestamp(delta: &Vec<(String, LwwValue)>) -> (r: u64)
    ensures
        forall|m: Map<Seq<char>, Lww>|
            lists(delta_view(delta@), m) ==> #[trigger] is_max_timestamp(m, r),
{
    let ghost d = delta_view(delta@);
    let mut r: u64 = 0;
    let mut i: usize = 0;
    while i < delta.len()
        invariant
            0 <= i <= delta@.len(),
            d == delta_view(delta@),
            forall|j: int| 0 <= j < i ==> (#[trigger] d[j]).1.timestamp <= r,
            r == 0 || exists|j: int| 0 <= j < i && (#[trigger] d[j]).1.timestamp == r,
        decreases delta@.len() - i,
    {
        assert(d[i as int].1.timestamp == delta@[i as int].1.timestamp);
        if delta[i].1.timestamp > r {
            r = delta[i].1.timestamp;
        }
        i = i + 1;
    }
    proof {
        assert forall|m: Map<Seq<char>, Lww>| lists(d, m) implies #[trigger] is_max_timestamp(
            m,
            r,
        ) by {
            assert forall|k: Seq<char>| #[trigger] m.contains_key(k) implies m[k].timestamp
                <= r by {
                let j = choose|j: int| 0 <= j < d.len() && (#[trigger] d[j]).0 == k;
                assert(d[j].1.timestamp <= r);
            }
            if r != 0 {
                let j = choose|j: int| 0 <= j < d.len() && (#[trigger] d[j]).1.timestamp == r;
                assert(m.contains_key(d[j].0));
            }
        }
    }
    r
}

/// A reordered listing, cut to the fanout, is a selection.
proof fn lemma_selection(
    listed: Seq<(String, PeerInfo)>,
    shuffled: Seq<(String, PeerInfo)>,
    peers: Map<Seq<char>, Peer>,
    fanout: usize,
)
    requires
        lists(entries_view(listed), peers),
        shuffled.to_multiset() == listed.to_multiset(),
    ensures
        is_selection(
            entries_view(
                shuffled.take(
                    if fanout < shuffled.len() {
                        fanout as int
                    } else {
                        shuffled.len() as int
                    },
                ),
            ),
            peers,
            fanout,
        ),
{
    broadcast use vstd::seq_lib::group_to_multiset_ensures;

    let before = entries_view(listed);
    let after = entries_view(shuffled);
    listing_length(before, peers);
    assert(shuffled.len() == shuffled.to_multiset().len());
    assert(listed.len() == listed.to_multiset().len());
    assert forall|i: int, j: int| 0 <= i < listed.len() && 0 <= j < listed.len() && i
        != j implies listed[i] != listed[j] by {
        if i < j {
            assert(before[i].0 != before[j].0);
        } else {
            assert(before[j].0 != before[i].0);
        }
    }
    listed.lemma_multiset_has_no_duplicates();
    shuffled.lemma_multiset_has_no_duplicates_conv();
    assert forall|i: int| 0 <= i < after.len() implies before.contains(#[trigger] after[i])
        && listed.contains(shuffled[i]) by {
        assert(shuffled.contains(shuffled[i]));
        assert(shuffled.to_multiset().count(shuffled[i]) > 0);
        assert(listed.contains(shuffled[i]));
        let p = choose|p: int| 0 <= p < listed.len() && listed[p] == shuffled[i];
        assert(before[p] == after[i]);
    }
    assert forall|i: int, j: int| 0 <= i < j < after.len() implies (#[trigger] after[i]).0 != (
    #[trigger] after[j]).0 by {
        assert(before.contains(after[i]) && before.contains(after[j]));
        assert(listed.contains(shuffled[i]) && listed.contains(shuffled[j]));
        let p = choose|p: int| 0 <= p < listed.len() && listed[p] == shuffled[i];
        let q = choose|q: int| 0 <= q < listed.len() && listed[q] == shuffled[j];
        assert(shuffled[i] != shuffled[j]);
        if p < q {
            assert(before[p].0 != before[q].0);
        } else {
            assert(before[q].0 != before[p].0);
        }
    }
    let cut: int = if fanout < shuffled.len() {
        fanout as int
    } else {
        shuffled.len() as int
    };
    let targets = entries_view(shuffled.take(cut));
    assert forall|i: int| 0 <= i < targets.len() implies #[trigger] targets[i] == after[i] by {}
    assert forall|i: int| 0 <= i < targets.len() implies peers.contains_key(
        (#[trigger] targets[i]).0,
    ) && peers[targets[i].0] == targets[i].1 by {
        assert(before.contains(after[i]));
        let p = choose|p: int| 0 <= p < before.len() && before[p] == after[i];
        assert(peers.contains_key(before[p].0));
    }
}

/// The gossip side of a node: its configuration and its count of rounds.
pub struct GossipManager {
    pub config: Config,
    pub generation: u64,
}

impl GossipManager {
    /// A manager before its first round. The seed peers of the configuration are registered
    /// in `peers`, so that the first round has someone to contact.
    pub fn new(config: Config, peers: &mut PeerTable) -> (r: Self)
        ensures
            r.config == config,
            r.generation == 0,
            exists|now: Instant|
                is_read(now) && final(peers)@ == #[trigger] seeded(
                    old(peers)@,
                    texts(config.seed_peers@),
                    now,
                ),
    {
        let now: Instant = Instant::now();
        peers.seed_at(&config.seed_peers, now);
        GossipManager { config, generation: 0 }
    }

    /// One gossip round: picks peers at random, as many as the fanout says, and says what
    /// each of them is to be sent.
    pub fn gossip_round(&mut self, store: &StateStore, peers: &PeerTable) -> (r: Vec<Push>)
        requires
            store.wf(),
        ensures
            final(self).config == old(self).config,
            final(self).generation == if old(self).config.gossip_fanout == 0 || peers@.len()
                == 0 {
                old(self).generation
            } else {
                old(self).generation.wrapping_add(1)
            },
            exists|targets: Seq<(Seq<char>, Peer)>|
                is_selection(targets, peers@, old(self).config.gossip_fanout) && are_drawn(
                    targets,
                    peers@,
                    old(self).config.gossip_fanout,
                ) && #[trigger] are_pushes_to(
                    r@,
                    targets,
                    store@,
                    store.id(),
                    address(old(self).config.host@, old(self).config.gossip_port),
                    old(self).generation,
                ),
    {
        let mut all = peers.entries();
        let ghost listed = all@;
        shuffle(&mut all);
        let ghost shuffled = all@;
        if self.config.gossip_fanout < all.len() {
            all.truncate(self.config.gossip_fanout);
        }
        proof {
            lemma_selection(listed, shuffled, peers@, self.config.gossip_fanout);
            let cut: int = if self.config.gossip_fanout < shuffled.len() {
                self.config.gossip_fanout as int
            } else {
                shuffled.len() as int
            };
            assert(all@ =~= shuffled.take(cut));
            let targets = entries_view(all@);
            assert(targets =~= entries_view(shuffled).take(cut));
            assert(is_draw(entries_view(listed), entries_view(shuffled)));
            assert(are_drawn(targets, peers@, self.config.gossip_fanout));
        }
        self.pushes_to(&all, store)
    }

    /// What the given targets are to be sent in this round. A round without targets is not
    /// counted.
    pub fn pushes_to(&mut self, targets: &Vec<(String, PeerInfo)>, store: &StateStore) -> (r: Vec<
        Push,
    >)
        requires
            store.wf(),
        ensures
            final(self).config == old(self).config,
            final(self).generation == if targets@.len() == 0 {
                old(self).generation
            } else {
                old(self).generation.wrapping_add(1)
            },
            are_pushes_to(
                r@,
                entries_view(targets@),
                store@,
                store.id(),
                address(old(self).config.host@, old(self).config.gossip_port),
                old(self).generation,
            ),
    {
        let ghost t = entries_view(targets@);
        let mut r: Vec<Push> = Vec::new();
        if targets.len() == 0 {
            return r;
        }
        let generation: u64 = self.generation;
        self.generation = generation.wrapping_add(1);
        let mut i: usize = 0;
        while i < targets.len()
            invariant
                store.wf(),
                0 <= i <= targets@.len(),
                t == entries_view(targets@),
                self.config == old(self).config,
                self.generation == old(self).generation.wrapping_add(1),
                generation == old(self).generation,
                are_pushes_to(
                    r@,
                    t.take(i as int),
                    store@,
                    store.id(),
                    address(self.config.host@, self.config.gossip_port),
                    generation,
                ),
            decreases targets@.len() - i,
        {
            let peer = &targets[i].1;
            assert(t.take(i + 1).drop_last() =~= t.take(i as int));
            assert(t.take(i + 1).last() == t[i as int]);
            let delta = store.delta_since(peer.last_sync_ts);
            proof {
                empty_listing(delta_view(delta@), newer_than(store@, peer.last_sync_ts));
            }
            if delta.len() > 0 || peer.exchange_count == 0 {
                let max_sent_ts: u64 = highest_timestamp(&delta);
                let ghost before = r@;
                r.push(
                    Push {
                        peer_id: targets[i].0.clone(),
                        addr: peer.gossip_addr.clone(),
                        message: GossipMessage {
                            from_node_id: store.node_id().to_string(),
                            from_gossip_addr: self.config.gossip_addr(),
                            deltas: delta,
                            generation,
                        },
                        max_sent_ts,
                    },
                );
                assert(r@.drop_last() =~= before);
            }
            i = i + 1;
        }
        assert(t.take(i as int) =~= t);
        r
    }
}

/// Records that the peer of a push has acknowledged it. Its sync timestamp advances to what
/// was sent, not to what this node holds by now.
pub fn push_acknowledged(peers: &mut PeerTable, peer_id: String, addr: String, max_sent_ts: u64)
    requires
        countable(old(peers)@, peer_id@),
    ensures
        exists|now: Instant|
            is_read(now) && final(peers)@ == old(peers)@.insert(
                peer_id@,
                (#[trigger] known_or_met(old(peers)@, peer_id@, addr@, now)).exchanged(
                    max_sent_ts,
                    now,
                ),
            ),
{
    let now: Instant = Instant::now();
    let ghost known = known_or_met(peers@, peer_id@, addr@, now);
    peers.acknowledged_at(peer_id, addr, max_sent_ts, now);
}

/// Takes in one gossip message: merges its entries, records that its sender was heard from,
/// and says what to answer. The sender's sync timestamp is not touched: this node has not
/// sent it anything.
pub fn handle_inbound(msg: GossipMessage, store: &mut StateStore, peers: &mut PeerTable) -> (ack:
    GossipAck)
    requires
        old(store).wf(),
        countable(old(peers)@, msg@.from_node_id),
    ensures
        final(store).wf(),
        final(store)@ == apply(old(store)@, msg@.deltas),
        final(store).sent() == old(store).sent() + changed_keys(
            old(store)@,
            msg@.deltas,
        ).map_values(|k: Seq<char>| (k, final(store)@[k])),
        final(store).id() == old(store).id(),
        final(store).capacity() == old(store).capacity(),
        exists|now: Instant|
            is_read(now) && final(peers)@ == old(peers)@.insert(
                msg@.from_node_id,
                (#[trigger] known_or_met(
                    old(peers)@,
                    msg@.from_node_id,
                    msg@.from_gossip_addr,
                    now,
                )).heard(now),
            ),
        ack.from_node_id@ == old(store).id(),
        ack.merged_count == changed_keys(old(store)@, msg@.deltas).len(),
{
    let ghost m = msg@;
    let now: Instant = Instant::now();
    let ghost known = known_or_met(peers@, m.from_node_id, m.from_gossip_addr, now);
    let changed = store.merge_delta(msg.deltas);
    let merged_count: usize = changed.len();
    assert(texts(changed@).len() == changed@.len());
    peers.heard_from_at(msg.from_node_id, msg.from_gossip_addr, now);
    GossipAck { from_node_id: store.node_id().to_string(), merged_count }
}

} // verus!
