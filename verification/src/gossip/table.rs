//! The table of known peers.

use dashmap::DashMap;
use std::time::Instant;
use vstd::prelude::*;
use crate::gossip::peer::{Peer, PeerInfo};
use crate::listing::lists;

verus! {

/// A sharded concurrent map.
#[verifier::external_type_specification]
#[verifier::external_body]
#[verifier::reject_recursive_types(K)]
#[verifier::reject_recursive_types(V)]
#[verifier::reject_recursive_types(S)]
pub struct ExDashMap<K, V, S>(DashMap<K, V, S>);

/// The peers that a map holds, under their identifiers.
pub uninterp spec fn peers_in(map: DashMap<String, PeerInfo>) -> Map<Seq<char>, Peer>;

/// The peer whose fields are `fields`.
pub open spec fn peer_of(fields: (String, Instant, u64, u64)) -> Peer {
    Peer {
        gossip_addr: fields.0@,
        last_seen: fields.1,
        last_sync_ts: fields.2,
        exchange_count: fields.3,
    }
}

/// No peers at all.
pub open spec fn no_peers() -> Map<Seq<char>, Peer> {
    Map::empty()
}

/// `DashMap::new` makes an empty map.
#[verifier::external_body]
fn empty_map() -> (r: DashMap<String, PeerInfo>)
    ensures
        peers_in(r) == no_peers(),
{
    DashMap::new()
}

/// `DashMap::get` finds the value of a key, here handed out field by field.
#[verifier::external_body]
fn find(map: &DashMap<String, PeerInfo>, id: &str) -> (r: Option<(String, Instant, u64, u64)>)
    ensures
        r matches Some(p) ==> peers_in(*map).contains_key(id@) && peer_of(p) == peers_in(
            *map,
        )[id@],
        r is None ==> !peers_in(*map).contains_key(id@),
{
    map.get(id).map(
        |e| (e.gossip_addr.clone(), e.last_seen, e.last_sync_ts, e.exchange_count),
    )
}

/// `DashMap::insert` gives a key a value, in place of the one it had. It takes `&self`; the
/// exclusive borrow here is what lets the contents change.
#[verifier::external_body]
fn store(map: &mut DashMap<String, PeerInfo>, id: String, info: PeerInfo)
    ensures
        peers_in(*final(map)) == peers_in(*old(map)).insert(id@, info@),
{
    map.insert(id, info);
}

/// `DashMap::len` counts the keys.
#[verifier::external_body]
fn count(map: &DashMap<String, PeerInfo>) -> (r: usize)
    ensures
        r == peers_in(*map).len(),
{
    map.len()
}

/// `DashMap::iter` visits every entry once, in an order that is left open; here each is
/// handed out field by field.
#[verifier::external_body]
fn rows(map: &DashMap<String, PeerInfo>) -> (r: Vec<(String, (String, Instant, u64, u64))>)
    ensures
        lists(
            r@.map_values(|row: (String, (String, Instant, u64, u64))| (row.0@, peer_of(row.1))),
            peers_in(*map),
        ),
{
    map.iter().map(
        |e|
            (
                e.key().clone(),
                (e.gossip_addr.clone(), e.last_seen, e.last_sync_ts, e.exchange_count),
            ),
    ).collect()
}

/// The peers a node knows, under their node identifiers (or, before the first handshake,
/// their gossip addresses).
pub struct PeerTable {
    map: DashMap<String, PeerInfo>,
}

impl View for PeerTable {
    type V = Map<Seq<char>, Peer>;

    closed spec fn view(&self) -> Map<Seq<char>, Peer> {
        peers_in(self.map)
    }
}

/// The entries of a peer list as values.
pub open spec fn entries_view(list: Seq<(String, PeerInfo)>) -> Seq<(Seq<char>, Peer)> {
    list.map_values(|e: (String, PeerInfo)| (e.0@, e.1@))
}

/// What the table holds for `id`, or, where it holds nothing, a peer met at `now`.
pub open spec fn known_or_met(
    m: Map<Seq<char>, Peer>,
    id: Seq<char>,
    gossip_addr: Seq<char>,
    now: Instant,
) -> Peer {
    if m.contains_key(id) {
        m[id]
    } else {
        Peer::met(gossip_addr, now)
    }
}

/// One more exchange with `id` can be counted.
pub open spec fn countable(m: Map<Seq<char>, Peer>, id: Seq<char>) -> bool {
    m.contains_key(id) ==> m[id].exchange_count < u64::MAX
}

/// The table after the seed addresses are registered: each that is not empty and not there
/// yet, under the address itself.
pub open spec fn seeded(
    m: Map<Seq<char>, Peer>,
    seeds: Seq<Seq<char>>,
    now: Instant,
) -> Map<Seq<char>, Peer>
    decreases seeds.len(),
{
    if seeds.len() == 0 {
        m
    } else {
        let before = seeded(m, seeds.drop_last(), now);
        let addr = seeds.last();
        if addr.len() == 0 || before.contains_key(addr) {
            before
        } else {
            before.insert(addr, Peer::met(addr, now))
        }
    }
}

impl PeerTable {
    /// A table without peers.
    pub fn new() -> (r: Self)
        ensures
            r@ == no_peers(),
    {
        PeerTable { map: empty_map() }
    }

    /// The peer known as `id`.
    pub fn get(&self, id: &str) -> (r: Option<PeerInfo>)
        ensures
            match r {
                Some(p) => self@.contains_key(id@) && p@ == self@[id@],
                None => !self@.contains_key(id@),
            },
    {
        match find(&self.map, id) {
            Some(f) => Some(
                PeerInfo {
                    gossip_addr: f.0,
                    last_seen: f.1,
                    last_sync_ts: f.2,
                    exchange_count: f.3,
                },
            ),
            None => None,
        }
    }

    /// Makes `info` what is known of `id`.
    pub fn insert(&mut self, id: String, info: PeerInfo)
        ensures
            final(self)@ == old(self)@.insert(id@, info@),
    {
        store(&mut self.map, id, info);
    }

    /// The number of peers.
    pub fn len(&self) -> (r: usize)
        ensures
            r == self@.len(),
    {
        count(&self.map)
    }

    /// Every peer with its identifier, in no particular order.
    pub fn entries(&self) -> (r: Vec<(String, PeerInfo)>)
        ensures
            lists(entries_view(r@), self@),
    {
        let mut source = rows(&self.map);
        let ghost all = source@;
        let mut r: Vec<(String, PeerInfo)> = Vec::new();
        while source.len() > 0
            invariant
                source@ == all.take(source@.len() as int),
                source@.len() + r@.len() == all.len(),
                forall|i: int|
                    0 <= i < r@.len() ==> (#[trigger] r@[i]).0@ == all[all.len() - 1 - i].0@
                        && r@[i].1@ == peer_of(all[all.len() - 1 - i].1),
            decreases source@.len(),
        {
            match source.pop() {
                Some((id, f)) => {
                    r.push(
                        (
                            id,
                            PeerInfo {
                                gossip_addr: f.0,
                                last_seen: f.1,
                                last_sync_ts: f.2,
                                exchange_count: f.3,
                            },
                        ),
                    );
                },
                None => {},
            }
        }
        proof {
            let listing = all.map_values(
                |row: (String, (String, Instant, u64, u64))| (row.0@, peer_of(row.1)),
            );
            let view = entries_view(r@);
            assert(view =~= listing.reverse());
            assert forall|k: Seq<char>| #[trigger] self@.contains_key(k) implies exists|i: int|
                0 <= i < view.len() && (#[trigger] view[i]).0 == k by {
                let i = choose|i: int| 0 <= i < listing.len() && (#[trigger] listing[i]).0 == k;
                assert(view[view.len() - 1 - i].0 == k);
            }
        }
        r
    }

    /// Registers the seed addresses, as peers met at `now`.
    pub fn seed_at(&mut self, seeds: &Vec<String>, now: Instant)
        ensures
            final(self)@ == seeded(old(self)@, crate::state::store::texts(seeds@), now),
    {
        let ghost all = crate::state::store::texts(seeds@);
        let mut i: usize = 0;
        assert(all.take(0) =~= Seq::empty());
        while i < seeds.len()
            invariant
                0 <= i <= seeds@.len(),
                all == crate::state::store::texts(seeds@),
                self@ == seeded(old(self)@, all.take(i as int), now),
            decreases seeds@.len() - i,
        {
            let addr = &seeds[i];
            assert(all.take(i + 1).drop_last() =~= all.take(i as int));
            assert(all.take(i + 1).last() == addr@);
            if !addr.as_str().is_empty() && self.get(addr.as_str()).is_none() {
                self.insert(addr.clone(), PeerInfo::new_at(addr.clone(), now));
            }
            i = i + 1;
        }
        assert(all.take(i as int) =~= all);
    }

    /// Records that `id`, whose gossip address is `gossip_addr`, was heard from at `now`.
    pub fn heard_from_at(&mut self, id: String, gossip_addr: String, now: Instant)
        requires
            countable(old(self)@, id@),
        ensures
            final(self)@ == old(self)@.insert(
                id@,
                known_or_met(old(self)@, id@, gossip_addr@, now).heard(now),
            ),
    {
        let mut info = match self.get(id.as_str()) {
            Some(known) => known,
            None => PeerInfo::new_at(gossip_addr, now),
        };
        info.mark_seen_at(now);
        self.insert(id, info);
    }

    /// Records that `id`, whose gossip address is `gossip_addr`, acknowledged at `now` a push
    /// of entries up to `sync_ts`.
    pub fn acknowledged_at(&mut self, id: String, gossip_addr: String, sync_ts: u64, now: Instant)
        requires
            countable(old(self)@, id@),
        ensures
            final(self)@ == old(self)@.insert(
                id@,
                known_or_met(old(self)@, id@, gossip_addr@, now).exchanged(sync_ts, now),
            ),
    {
        let mut info = match self.get(id.as_str()) {
            Some(known) => known,
            None => PeerInfo::new_at(gossip_addr, now),
        };
        info.record_exchange_at(sync_ts, now);
        self.insert(id, info);
    }
}

/// The fields of a peer make up the peer.
pub proof fn fields_make_up_the_peer(fields: (String, Instant, u64, u64))
    ensures
        peer_of(fields).gossip_addr == fields.0@,
        peer_of(fields).last_seen == fields.1,
        peer_of(fields).last_sync_ts == fields.2,
        peer_of(fields).exchange_count == fields.3,
{
}

/// A list of peers is seen one by one, each with its identifier and what is known of it.
pub proof fn peer_lists_are_seen_whole(list: Seq<(String, PeerInfo)>)
    ensures
        entries_view(list).len() == list.len(),
        forall|i: int|
            0 <= i < list.len() ==> {
                let seen = #[trigger] entries_view(list)[i];
                &&& seen.0 == list[i].0@
                &&& seen.1.gossip_addr == list[i].1.gossip_addr@
                &&& seen.1.last_seen == list[i].1.last_seen
                &&& seen.1.last_sync_ts == list[i].1.last_sync_ts
                &&& seen.1.exchange_count == list[i].1.exchange_count
            },
{
}

/// An empty table knows nobody.
pub proof fn an_empty_table_knows_nobody(id: Seq<char>)
    ensures
        !no_peers().contains_key(id),
        no_peers().len() == 0,
{
}

/// Whoever is known stays as known; whoever is not, is met at the address given.
pub proof fn the_known_stay_as_known(
    m: Map<Seq<char>, Peer>,
    id: Seq<char>,
    gossip_addr: Seq<char>,
    now: Instant,
)
    ensures
        m.contains_key(id) ==> known_or_met(m, id, gossip_addr, now) == m[id],
        !m.contains_key(id) ==> known_or_met(m, id, gossip_addr, now).gossip_addr == gossip_addr
            && known_or_met(m, id, gossip_addr, now).last_sync_ts == 0 && known_or_met(
            m,
            id,
            gossip_addr,
            now,
        ).exchange_count == 0,
        countable(m, id) <==> known_or_met(m, id, gossip_addr, now).exchange_count < u64::MAX,
{
}

/// Registering seeds adds every address that is not empty and not there yet, as a peer with
/// that address which nothing was exchanged with; it adds nobody else, and leaves those alone
/// who are there.
pub proof fn seeds_are_registered(m: Map<Seq<char>, Peer>, seeds: Seq<Seq<char>>, now: Instant)
    ensures
        forall|id: Seq<char>| #[trigger]
            seeded(m, seeds, now).contains_key(id) <==> m.contains_key(id) || (id.len() > 0
                && seeds.contains(id)),
        forall|id: Seq<char>| #[trigger]
            m.contains_key(id) ==> seeded(m, seeds, now)[id] == m[id],
        forall|id: Seq<char>| #[trigger]
            seeded(m, seeds, now).contains_key(id) && !m.contains_key(id) ==> seeded(
                m,
                seeds,
                now,
            )[id] == (Peer {
                gossip_addr: id,
                last_seen: now,
                last_sync_ts: 0,
                exchange_count: 0,
            }),
    decreases seeds.len(),
{
    if seeds.len() > 0 {
        let shorter = seeds.drop_last();
        let addr = seeds.last();
        seeds_are_registered(m, shorter, now);
        assert forall|id: Seq<char>| #[trigger] seeds.contains(id) <==> shorter.contains(id) || id
            == addr by {
            if seeds.contains(id) && id != addr {
                let i = choose|i: int| 0 <= i < seeds.len() && seeds[i] == id;
                assert(shorter[i] == id);
            }
            if shorter.contains(id) {
                let i = choose|i: int| 0 <= i < shorter.len() && shorter[i] == id;
                assert(seeds[i] == id);
            }
            assert(seeds[seeds.len() - 1] == addr);
        }
        assert forall|id: Seq<char>| #[trigger]
            seeded(m, seeds, now).contains_key(id) <==> m.contains_key(id) || (id.len() > 0
                && seeds.contains(id)) by {
            assert(seeded(m, shorter, now).contains_key(id) <==> m.contains_key(id) || (id.len()
                > 0 && shorter.contains(id)));
            assert(seeded(m, shorter, now).contains_key(addr) <==> m.contains_key(addr) || (
            addr.len() > 0 && shorter.contains(addr)));
        }
        assert forall|id: Seq<char>| #[trigger] m.contains_key(id) implies seeded(m, seeds, now)[id]
            == m[id] by {
            assert(seeded(m, shorter, now).contains_key(id));
        }
        assert forall|id: Seq<char>| #[trigger]
            seeded(m, seeds, now).contains_key(id) && !m.contains_key(id) implies seeded(
            m,
            seeds,
            now,
        )[id] == (Peer { gossip_addr: id, last_seen: now, last_sync_ts: 0, exchange_count: 0 }) by {
            assert(seeded(m, shorter, now).contains_key(id) || id == addr);
        }
    }
}

} // verus!
