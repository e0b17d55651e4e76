//! What a node knows of one remote peer.

use std::time::Instant;
use vstd::prelude::*;
use crate::clock::{instant_span, is_read, nanos_of};

verus! {

/// Everything known about a single remote peer.
#[derive(Debug)]
pub struct PeerInfo {
    /// Gossip TCP address of this peer (host:gossip_port).
    pub gossip_addr: String,
    /// When gossip was last exchanged with this peer.
    pub last_seen: Instant,
    /// The highest state timestamp that this peer is confirmed to have received. The next
    /// round sends it only entries with a later one.
    pub last_sync_ts: u64,
    /// How many exchanges with this peer have succeeded.
    pub exchange_count: u64,
}

/// The peer as a value.
pub ghost struct Peer {
    pub gossip_addr: Seq<char>,
    pub last_seen: Instant,
    pub last_sync_ts: u64,
    pub exchange_count: u64,
}

impl View for PeerInfo {
    type V = Peer;

    open spec fn view(&self) -> Peer {
        Peer {
            gossip_addr: self.gossip_addr@,
            last_seen: self.last_seen,
            last_sync_ts: self.last_sync_ts,
            exchange_count: self.exchange_count,
        }
    }
}

impl Clone for PeerInfo {
    fn clone(&self) -> (r: Self)
        ensures
            r == *self,
    {
        PeerInfo {
            gossip_addr: self.gossip_addr.clone(),
            last_seen: self.last_seen,
            last_sync_ts: self.last_sync_ts,
            exchange_count: self.exchange_count,
        }
    }
}

impl Peer {
    /// A peer first met at `now`: nothing sent to it yet.
    pub open spec fn met(gossip_addr: Seq<char>, now: Instant) -> Peer {
        Peer { gossip_addr, last_seen: now, last_sync_ts: 0, exchange_count: 0 }
    }

    /// The peer after it acknowledged, at `now`, entries up to `sync_ts`. An
    /// acknowledgement that arrives late never moves `last_sync_ts` back.
    pub open spec fn exchanged(self, sync_ts: u64, now: Instant) -> Peer {
        Peer {
            last_seen: now,
            last_sync_ts: if sync_ts > self.last_sync_ts {
                sync_ts
            } else {
                self.last_sync_ts
            },
            exchange_count: (self.exchange_count + 1) as u64,
            ..self
        }
    }

    /// The peer after it was heard from at `now`.
    pub open spec fn heard(self, now: Instant) -> Peer {
        Peer { last_seen: now, exchange_count: (self.exchange_count + 1) as u64, ..self }
    }

    /// Whole seconds from the last exchange to `now`.
    pub open spec fn idle_secs(self, now: Instant) -> u64 {
        (nanos_of(instant_span(now, self.last_seen)) / 1_000_000_000) as u64
    }
}

impl PeerInfo {
    /// A peer first met now.
    pub fn new(gossip_addr: String) -> (r: Self)
        ensures
            exists|now: Instant|
                is_read(now) && r@ == #[trigger] Peer::met(gossip_addr@, now),
    {
        let now: Instant = Instant::now();
        let r = PeerInfo::new_at(gossip_addr, now);
        assert(r@ == Peer::met(gossip_addr@, now));
        r
    }

    /// A peer first met at `now`.
    pub fn new_at(gossip_addr: String, now: Instant) -> (r: Self)
        ensures
            r@ == Peer::met(gossip_addr@, now),
    {
        PeerInfo { gossip_addr, last_seen: now, last_sync_ts: 0, exchange_count: 0 }
    }

    /// Records an acknowledged push of entries up to `sync_ts`.
    pub fn record_exchange(&mut self, sync_ts: u64)
        requires
            old(self).exchange_count < u64::MAX,
        ensures
            exists|now: Instant|
                is_read(now) && final(self)@ == #[trigger] old(self)@.exchanged(sync_ts, now),
    {
        let now: Instant = Instant::now();
        self.record_exchange_at(sync_ts, now);
        assert(self@ == old(self)@.exchanged(sync_ts, now));
    }

    /// Records a push of entries up to `sync_ts` that was acknowledged at `now`.
    pub fn record_exchange_at(&mut self, sync_ts: u64, now: Instant)
        requires
            old(self).exchange_count < u64::MAX,
        ensures
            final(self)@ == old(self)@.exchanged(sync_ts, now),
    {
        self.last_seen = now;
        if sync_ts > self.last_sync_ts {
            self.last_sync_ts = sync_ts;
        }
        self.exchange_count = self.exchange_count + 1;
    }

    /// Records that this peer was heard from, without touching `last_sync_ts`.
    pub fn mark_seen(&mut self)
        requires
            old(self).exchange_count < u64::MAX,
        ensures
            exists|now: Instant|
                is_read(now) && final(self)@ == #[trigger] old(self)@.heard(now),
    {
        let now: Instant = Instant::now();
        self.mark_seen_at(now);
        assert(self@ == old(self)@.heard(now));
    }

    /// Records that this peer was heard from at `now`, without touching `last_sync_ts`.
    pub fn mark_seen_at(&mut self, now: Instant)
        requires
            old(self).exchange_count < u64::MAX,
        ensures
            final(self)@ == old(self)@.heard(now),
    {
        self.last_seen = now;
        self.exchange_count = self.exchange_count + 1;
    }

    /// Has nothing been heard from this peer for `timeout_secs` seconds?
    pub fn is_stale(&self, timeout_secs: u64) -> (r: bool)
        ensures
            exists|now: Instant|
                is_read(now) && r == (#[trigger] self@.idle_secs(now) >= timeout_secs),
    {
        let now: Instant = Instant::now();
        let r = self.is_stale_at(timeout_secs, now);
        assert(r == (self@.idle_secs(now) >= timeout_secs));
        r
    }

    /// At `now`, has nothing been heard from this peer for `timeout_secs` seconds?
    pub fn is_stale_at(&self, timeout_secs: u64, now: Instant) -> (r: bool)
        ensures
            r == (self@.idle_secs(now) >= timeout_secs),
    {
        self.idle_secs_at(now) >= timeout_secs
    }

    /// Whole seconds from the last exchange to `now`.
    pub fn idle_secs_at(&self, now: Instant) -> (r: u64)
        ensures
            r == self@.idle_secs(now),
    {
        now.saturating_duration_since(self.last_seen).as_secs()
    }
}

/// What is known of a peer is seen whole.
pub proof fn peers_are_seen_whole(p: PeerInfo)
    ensures
        p@.gossip_addr == p.gossip_addr@,
        p@.last_seen == p.last_seen,
        p@.last_sync_ts == p.last_sync_ts,
        p@.exchange_count == p.exchange_count,
{
}

/// A peer just met is known by its address and the time; nothing was exchanged with it, and
/// nothing is held to have reached it.
pub proof fn a_peer_just_met_has_received_nothing(gossip_addr: Seq<char>, now: Instant)
    ensures
        Peer::met(gossip_addr, now).gossip_addr == gossip_addr,
        Peer::met(gossip_addr, now).last_seen == now,
        Peer::met(gossip_addr, now).last_sync_ts == 0,
        Peer::met(gossip_addr, now).exchange_count == 0,
{
}

/// An acknowledged push is counted, dated, and moves the sync timestamp to what was sent where
/// that is later. The address stays.
pub proof fn an_acknowledgement_is_recorded(p: Peer, sync_ts: u64, now: Instant)
    requires
        p.exchange_count < u64::MAX,
    ensures
        p.exchanged(sync_ts, now).exchange_count == p.exchange_count + 1,
        p.exchanged(sync_ts, now).last_seen == now,
        p.exchanged(sync_ts, now).gossip_addr == p.gossip_addr,
        p.exchanged(sync_ts, now).last_sync_ts >= sync_ts,
        p.exchanged(sync_ts, now).last_sync_ts >= p.last_sync_ts,
        p.exchanged(sync_ts, now).last_sync_ts == sync_ts || p.exchanged(sync_ts, now).last_sync_ts
            == p.last_sync_ts,
{
}

/// A message from a peer is counted and dated, and nothing else.
pub proof fn a_message_is_recorded(p: Peer, now: Instant)
    requires
        p.exchange_count < u64::MAX,
    ensures
        p.heard(now).exchange_count == p.exchange_count + 1,
        p.heard(now).last_seen == now,
        p.heard(now).gossip_addr == p.gossip_addr,
        p.heard(now).last_sync_ts == p.last_sync_ts,
{
}

/// The time since the last exchange is counted in whole seconds: no fewer, and no more, than
/// have passed.
pub proof fn idle_time_is_in_whole_seconds(p: Peer, now: Instant)
    requires
        nanos_of(instant_span(now, p.last_seen)) < 0x1_0000_0000_0000_0000 * 1_000_000_000,
    ensures
        p.idle_secs(now) * 1_000_000_000 <= nanos_of(instant_span(now, p.last_seen)),
        nanos_of(instant_span(now, p.last_seen)) < (p.idle_secs(now) + 1) * 1_000_000_000,
{
}

} // verus!
