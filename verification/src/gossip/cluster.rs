//! A running cluster: nodes that write, push, merge and acknowledge in any order, over a
//! network that may lose what is sent, and what they end up with.
//!
//! A node sends a peer only entries with a timestamp above that peer's sync timestamp. An
//! entry that reaches a node late, with a timestamp that the node has already passed towards a
//! peer, is therefore not sent on to that peer. The cluster keeps a record of such entries:
//! once it is quiet, the nodes are in the same state exactly where every entry of that record
//! has reached its peer on some other way.

use std::time::Instant;
use vstd::prelude::*;
use crate::gossip::manager::due;
use crate::gossip::peer::Peer;
use crate::gossip::protocol::Gossip;
use crate::gossip::table::{countable, known_or_met};
use crate::listing::lists;
use crate::state::crdt::{stamp_ge, stamp_order, Lww};
use crate::state::laws::{
    covers, merge_makes_nothing_up, merge_never_regresses, merge_takes_up_entries, offers,
    write_then_read,
};
use crate::state::store::{apply, is_max_timestamp, newer_than, put};

verus! {

// ── The model ──────────────────────────────────────────────────────────────

/// One node of a cluster.
pub ghost struct Member {
    pub id: Seq<char>,
    pub addr: Seq<char>,
    pub state: Map<Seq<char>, Lww>,
    pub peers: Map<Seq<char>, Peer>,
}

/// How far a push has come.
pub ghost enum Stage {
    Sent,
    Delivered,
    Acknowledged,
    Lost,
}

/// A push from one member to another.
pub ghost struct Flight {
    pub from: int,
    pub peer_id: Seq<char>,
    pub to: int,
    pub message: Gossip,
    pub max_sent_ts: u64,
    pub stage: Stage,
}

/// A cluster, and what has happened in it.
pub ghost struct Cluster {
    pub members: Seq<Member>,
    pub flights: Seq<Flight>,
    /// All writes, in their order.
    pub writes: Seq<(Seq<char>, Lww)>,
    /// The entries that reached a node late: the peer to which the node will not send the
    /// entry, and the entry.
    pub late: Set<(int, Seq<char>, Lww)>,
}

/// Something that happens in a cluster.
pub ghost enum Step {
    /// The member `at` writes.
    Write { at: int, key: Seq<char>, value: Seq<char>, timestamp: u64 },
    /// The member `from` sends a push to its peer `peer_id`, which is the member `to`.
    Send { from: int, peer_id: Seq<char>, to: int, message: Gossip, max_sent_ts: u64 },
    /// A push arrives and is merged.
    Deliver { flight: int, now: Instant },
    /// The acknowledgement of a push arrives.
    Acknowledge { flight: int, now: Instant },
    /// A push, or its acknowledgement, is lost.
    Lose { flight: int },
}

/// The push is still on its way, or its acknowledgement is.
pub open spec fn live(f: Flight) -> bool {
    f.stage is Sent || f.stage is Delivered
}

impl Cluster {
    /// The member `i` knows the member `j` as its peer `pid`.
    pub open spec fn knows_as(self, i: int, pid: Seq<char>, j: int) -> bool {
        &&& self.members[i].peers.contains_key(pid)
        &&& self.members[i].peers[pid].gossip_addr == self.members[j].addr
    }

    /// The member `j` has, for the key `k`, a register state at least as new as `v`.
    pub open spec fn has(self, j: int, k: Seq<char>, v: Lww) -> bool {
        self.members[j].state.contains_key(k) && stamp_ge(self.members[j].state[k], v)
    }

    /// Some member has, for the key of the entry, a register state at least as new.
    pub open spec fn is_held(self, entry: (Seq<char>, Lww)) -> bool {
        exists|i: int| 0 <= i < self.members.len() && #[trigger] self.has(i, entry.0, entry.1)
    }

    /// The member `i` has, towards the member `j`, passed the timestamp `ts`: by the sync
    /// timestamp of a peer, or by a push on its way.
    pub open spec fn has_passed(self, i: int, j: int, ts: u64) -> bool {
        ||| exists|pid: Seq<char>| #[trigger]
            self.knows_as(i, pid, j) && ts <= self.members[i].peers[pid].last_sync_ts
        ||| exists|n: int|
            0 <= n < self.flights.len() && live(#[trigger] self.flights[n])
                && self.flights[n].from == i && self.flights[n].to == j && ts
                <= self.flights[n].max_sent_ts
    }

    /// The record of the entries of `delta` that reach the member `i` late, where they do not
    /// come from the peer itself.
    pub open spec fn late_at(self, i: int, delta: Seq<(Seq<char>, Lww)>, source: int) -> Set<
        (int, Seq<char>, Lww),
    > {
        Set::new(
            |e: (int, Seq<char>, Lww)|
                0 <= e.0 < self.members.len() && e.0 != source && delta.contains((e.1, e.2))
                    && self.has_passed(i, e.0, e.2.timestamp),
        )
    }

    /// The member after it took on another state and peer table.
    pub open spec fn with_member(
        self,
        i: int,
        state: Map<Seq<char>, Lww>,
        peers: Map<Seq<char>, Peer>,
    ) -> Seq<Member> {
        self.members.update(i, Member { state, peers, ..self.members[i] })
    }

    /// The step can happen.
    pub open spec fn enabled(self, step: Step) -> bool {
        match step {
            Step::Write { at, .. } => 0 <= at < self.members.len(),
            Step::Send { from, peer_id, to, message, max_sent_ts } => {
                let sender = self.members[from];
                let info = sender.peers[peer_id];
                &&& 0 <= from < self.members.len()
                &&& 0 <= to < self.members.len()
                &&& self.knows_as(from, peer_id, to)
                &&& due(info, sender.state)
                &&& message.from_node_id == sender.id
                &&& message.from_gossip_addr == sender.addr
                &&& lists(message.deltas, newer_than(sender.state, info.last_sync_ts))
                &&& is_max_timestamp(newer_than(sender.state, info.last_sync_ts), max_sent_ts)
            },
            Step::Deliver { flight, .. } => {
                let f = self.flights[flight];
                &&& 0 <= flight < self.flights.len()
                &&& 0 <= f.to < self.members.len()
                &&& f.stage is Sent
                &&& countable(self.members[f.to].peers, f.message.from_node_id)
            },
            Step::Acknowledge { flight, .. } => {
                let f = self.flights[flight];
                &&& 0 <= flight < self.flights.len()
                &&& 0 <= f.from < self.members.len()
                &&& f.stage is Delivered
                &&& countable(self.members[f.from].peers, f.peer_id)
            },
            Step::Lose { flight } => 0 <= flight < self.flights.len() && live(self.flights[flight]),
        }
    }

    /// The cluster after the step.
    pub open spec fn after(self, step: Step) -> Cluster {
        match step {
            Step::Write { at, key, value, timestamp } => {
                let m = self.members[at];
                let v = Lww { value, timestamp, node_id: m.id };
                Cluster {
                    members: self.with_member(at, put(m.state, key, v), m.peers),
                    writes: self.writes.push((key, v)),
                    late: self.late.union(self.late_at(at, seq![(key, v)], -1)),
                    ..self
                }
            },
            Step::Send { from, peer_id, to, message, max_sent_ts } => Cluster {
                flights: self.flights.push(
                    Flight { from, peer_id, to, message, max_sent_ts, stage: Stage::Sent },
                ),
                ..self
            },
            Step::Deliver { flight, now } => {
                let f = self.flights[flight];
                let m = self.members[f.to];
                Cluster {
                    members: self.with_member(
                        f.to,
                        apply(m.state, f.message.deltas),
                        m.peers.insert(
                            f.message.from_node_id,
                            known_or_met(
                                m.peers,
                                f.message.from_node_id,
                                f.message.from_gossip_addr,
                                now,
                            ).heard(now),
                        ),
                    ),
                    flights: self.flights.update(flight, Flight { stage: Stage::Delivered, ..f }),
                    late: self.late.union(self.late_at(f.to, f.message.deltas, f.from)),
                    ..self
                }
            },
            Step::Acknowledge { flight, now } => {
                let f = self.flights[flight];
                let m = self.members[f.from];
                Cluster {
                    members: self.with_member(
                        f.from,
                        m.state,
                        m.peers.insert(
                            f.peer_id,
                            known_or_met(
                                m.peers,
                                f.peer_id,
                                self.members[f.to].addr,
                                now,
                            ).exchanged(f.max_sent_ts, now),
                        ),
                    ),
                    flights: self.flights.update(
                        flight,
                        Flight { stage: Stage::Acknowledged, ..f },
                    ),
                    ..self
                }
            },
            Step::Lose { flight } => Cluster {
                flights: self.flights.update(
                    flight,
                    Flight { stage: Stage::Lost, ..self.flights[flight] },
                ),
                ..self
            },
        }
    }

    /// A cluster before anything happened: empty stores, and peers that nothing was sent to.
    pub open spec fn is_initial(self) -> bool {
        &&& forall|i: int, j: int|
            0 <= i < j < self.members.len() ==> (#[trigger] self.members[i]).addr != (
            #[trigger] self.members[j]).addr
        &&& forall|i: int|
            0 <= i < self.members.len() ==> (#[trigger] self.members[i]).state == Map::<
                Seq<char>,
                Lww,
            >::empty()
        &&& forall|i: int, pid: Seq<char>|
            0 <= i < self.members.len() && #[trigger] self.members[i].peers.contains_key(pid)
                ==> self.members[i].peers[pid].last_sync_ts == 0
        &&& self.flights.len() == 0
        &&& self.writes.len() == 0
        &&& self.late == Set::<(int, Seq<char>, Lww)>::empty()
    }

    /// Every write is stamped with a time after 0.
    pub open spec fn is_stamped(self) -> bool {
        forall|n: int| 0 <= n < self.writes.len() ==> (#[trigger] self.writes[n]).1.timestamp > 0
    }

    /// The member `j` has every entry of the member `i` up to the timestamp `ts`, but for
    /// those that reached `i` late.
    pub open spec fn up_to_date(self, i: int, j: int, ts: u64) -> bool {
        forall|k: Seq<char>| #[trigger]
            self.members[i].state.contains_key(k) && self.members[i].state[k].timestamp <= ts
                ==> self.has(j, k, self.members[i].state[k]) || self.late.contains(
                (j, k, self.members[i].state[k]),
            )
    }

    /// As `up_to_date`, once the push has been merged.
    pub open spec fn brings_up_to_date(self, f: Flight) -> bool {
        forall|k: Seq<char>| #[trigger]
            self.members[f.from].state.contains_key(k) && self.members[f.from].state[k].timestamp
                <= f.max_sent_ts ==> {
                ||| self.has(f.to, k, self.members[f.from].state[k])
                ||| self.late.contains((f.to, k, self.members[f.from].state[k]))
                ||| f.message.deltas.contains((k, self.members[f.from].state[k]))
            }
    }

    /// What holds of a push.
    pub open spec fn flight_ok(self, f: Flight) -> bool {
        &&& 0 <= f.from < self.members.len()
        &&& 0 <= f.to < self.members.len()
        &&& self.knows_as(f.from, f.peer_id, f.to)
        &&& f.message.from_node_id == self.members[f.from].id
        &&& f.message.from_gossip_addr == self.members[f.from].addr
        &&& forall|n: int|
            0 <= n < f.message.deltas.len() ==> {
                &&& self.writes.contains(#[trigger] f.message.deltas[n])
                &&& self.has(f.from, f.message.deltas[n].0, f.message.deltas[n].1)
            }
        &&& f.stage is Sent ==> self.brings_up_to_date(f)
        &&& f.stage is Delivered ==> self.up_to_date(f.from, f.to, f.max_sent_ts)
    }

    /// Every register state stems from a write, and every write is held by some member.
    pub open spec fn is_sourced(self) -> bool {
        &&& forall|i: int, k: Seq<char>|
            0 <= i < self.members.len() && #[trigger] self.members[i].state.contains_key(k)
                ==> self.writes.contains((k, self.members[i].state[k]))
        &&& forall|n: int|
            0 <= n < self.writes.len() ==> self.is_held(#[trigger] self.writes[n])
        &&& forall|e: (int, Seq<char>, Lww)| #[trigger]
            self.late.contains(e) ==> 0 <= e.0 < self.members.len() && self.writes.contains(
                (e.1, e.2),
            )
    }

    /// What holds of a cluster at any time.
    #[verifier::opaque]
    pub open spec fn invariant_holds(self) -> bool {
        &&& forall|i: int, j: int|
            0 <= i < j < self.members.len() ==> (#[trigger] self.members[i]).addr != (
            #[trigger] self.members[j]).addr
        &&& self.is_sourced()
        &&& forall|i: int, pid: Seq<char>, j: int|
            0 <= i < self.members.len() && 0 <= j < self.members.len() && #[trigger] self.knows_as(
                i,
                pid,
                j,
            ) ==> self.up_to_date(i, j, self.members[i].peers[pid].last_sync_ts)
        &&& forall|n: int|
            0 <= n < self.flights.len() ==> self.flight_ok(#[trigger] self.flights[n])
    }
}

// ── The invariant ──────────────────────────────────────────────────────────

/// A cluster that nothing has happened in fulfils the invariant.
pub proof fn initial_clusters_are_up_to_date(c: Cluster)
    requires
        c.is_initial(),
    ensures
        c.invariant_holds(),
{
    reveal(Cluster::invariant_holds);
    assert forall|i: int, pid: Seq<char>, j: int|
        0 <= i < c.members.len() && 0 <= j < c.members.len() && #[trigger] c.knows_as(
            i,
            pid,
            j,
        ) implies c.up_to_date(i, j, c.members[i].peers[pid].last_sync_ts) by {
        assert(c.members[i].state == Map::<Seq<char>, Lww>::empty());
    }
    assert forall|i: int, k: Seq<char>|
        0 <= i < c.members.len() && #[trigger] c.members[i].state.contains_key(
            k,
        ) implies c.writes.contains((k, c.members[i].state[k])) by {
        assert(c.members[i].state == Map::<Seq<char>, Lww>::empty());
    }
}

/// No step takes any member's state back: every key stays, with a register state at least as
/// new.
pub proof fn members_never_go_back(c: Cluster, step: Step, i: int)
    requires
        c.enabled(step),
        0 <= i < c.members.len(),
    ensures
        c.after(step).members.len() == c.members.len(),
        c.after(step).members[i].id == c.members[i].id,
        c.after(step).members[i].addr == c.members[i].addr,
        covers(c.after(step).members[i].state, c.members[i].state),
{
    assert forall|k: Seq<char>| #[trigger] c.members[i].state.contains_key(k) implies stamp_ge(
        c.members[i].state[k],
        c.members[i].state[k],
    ) by {
        stamp_order(c.members[i].state[k], c.members[i].state[k], c.members[i].state[k]);
    }
    match step {
        Step::Write { at, key, value, timestamp } => {
            let m = c.members[at];
            let v = Lww { value, timestamp, node_id: m.id };
            assert(c.after(step).members == c.with_member(at, put(m.state, key, v), m.peers));
            write_then_read(m.state, key, v);
            if m.state.contains_key(key) {
                stamp_order(m.state[key], v, m.state[key]);
            }
        },
        Step::Deliver { flight, .. } => {
            let f = c.flights[flight];
            merge_never_regresses(c.members[f.to].state, f.message.deltas);
        },
        _ => {},
    }
}

/// What a member has, it has after the step.
proof fn lemma_has(c: Cluster, step: Step, j: int, k: Seq<char>, v: Lww)
    requires
        c.enabled(step),
        0 <= j < c.members.len(),
        c.has(j, k, v),
    ensures
        c.after(step).has(j, k, v),
{
    members_never_go_back(c, step, j);
    stamp_order(c.after(step).members[j].state[k], c.members[j].state[k], v);
}

/// The entries that a step brings to the member `i`.
spec fn news(c: Cluster, step: Step, i: int) -> Seq<(Seq<char>, Lww)> {
    match step {
        Step::Write { at, key, value, timestamp } => if at == i {
            seq![(key, Lww { value, timestamp, node_id: c.members[at].id })]
        } else {
            Seq::empty()
        },
        Step::Deliver { flight, .. } => if c.flights[flight].to == i {
            c.flights[flight].message.deltas
        } else {
            Seq::empty()
        },
        _ => Seq::empty(),
    }
}

/// After a step a member holds what it held or what the step brought.
proof fn lemma_news(c: Cluster, step: Step, i: int)
    requires
        c.enabled(step),
        0 <= i < c.members.len(),
    ensures
        forall|k: Seq<char>| #[trigger]
            c.after(step).members[i].state.contains_key(k) ==> offers(
                c.members[i].state,
                news(c, step, i),
                k,
                c.after(step).members[i].state[k],
            ),
{
    match step {
        Step::Write { at, key, value, timestamp } => {
            if at == i {
                let v = Lww { value, timestamp, node_id: c.members[at].id };
                assert(news(c, step, i)[0] == (key, v));
                assert(c.after(step).members[i].state == put(c.members[i].state, key, v));
            }
        },
        Step::Deliver { flight, .. } => {
            let f = c.flights[flight];
            merge_makes_nothing_up(c.members[f.to].state, f.message.deltas);
        },
        _ => {},
    }
}

/// What a step brings to a member that has passed its timestamp is recorded as late, unless
/// it comes from the peer itself.
proof fn lemma_late(c: Cluster, step: Step, i: int, j: int, ts: u64, k: Seq<char>, v: Lww)
    requires
        c.invariant_holds(),
        c.enabled(step),
        0 <= i < c.members.len(),
        0 <= j < c.members.len(),
        c.has_passed(i, j, ts),
        news(c, step, i).contains((k, v)),
        v.timestamp <= ts,
    ensures
        c.after(step).has(j, k, v) || c.after(step).late.contains((j, k, v)),
{
    reveal(Cluster::invariant_holds);
    assert(c.has_passed(i, j, v.timestamp)) by {
        if exists|pid: Seq<char>| #[trigger]
            c.knows_as(i, pid, j) && ts <= c.members[i].peers[pid].last_sync_ts {
            let pid = choose|pid: Seq<char>| #[trigger]
                c.knows_as(i, pid, j) && ts <= c.members[i].peers[pid].last_sync_ts;
            assert(c.knows_as(i, pid, j));
        }
    }
    match step {
        Step::Deliver { flight, .. } => {
            let f = c.flights[flight];
            assert(c.flight_ok(f));
            if j == f.from {
                let n = choose|n: int|
                    0 <= n < f.message.deltas.len() && f.message.deltas[n] == (k, v);
                assert(c.writes.contains(f.message.deltas[n]));
                lemma_has(c, step, j, k, v);
            } else {
                assert(c.late_at(f.to, f.message.deltas, f.from).contains((j, k, v)));
            }
        },
        Step::Write { at, key, value, timestamp } => {
            assert(c.late_at(at, news(c, step, i), -1).contains((j, k, v)));
        },
        _ => {},
    }
}

/// What a member is up to date with, it is after the step.
proof fn lemma_up_to_date(c: Cluster, step: Step, i: int, j: int, ts: u64)
    requires
        c.invariant_holds(),
        c.enabled(step),
        0 <= i < c.members.len(),
        0 <= j < c.members.len(),
        c.has_passed(i, j, ts),
        c.up_to_date(i, j, ts),
    ensures
        c.after(step).up_to_date(i, j, ts),
{
    let d = c.after(step);
    lemma_news(c, step, i);
    assert forall|k: Seq<char>| #[trigger]
        d.members[i].state.contains_key(k) && d.members[i].state[k].timestamp <= ts implies d.has(
        j,
        k,
        d.members[i].state[k],
    ) || d.late.contains((j, k, d.members[i].state[k])) by {
        let v = d.members[i].state[k];
        if c.members[i].state.contains_key(k) && c.members[i].state[k] == v {
            if c.has(j, k, v) {
                lemma_has(c, step, j, k, v);
            }
        } else {
            lemma_late(c, step, i, j, ts, k, v);
        }
    }
}

/// A push that brings a member up to date does so after the step.
proof fn lemma_brings_up_to_date(c: Cluster, step: Step, n: int)
    requires
        c.invariant_holds(),
        c.enabled(step),
        0 <= n < c.flights.len(),
        c.flights[n].stage is Sent,
    ensures
        c.after(step).brings_up_to_date(c.flights[n]),
{
    reveal(Cluster::invariant_holds);
    let d = c.after(step);
    let f = c.flights[n];
    assert(c.flight_ok(f));
    lemma_news(c, step, f.from);
    assert forall|k: Seq<char>| #[trigger]
        d.members[f.from].state.contains_key(k) && d.members[f.from].state[k].timestamp
            <= f.max_sent_ts implies d.has(f.to, k, d.members[f.from].state[k])
        || d.late.contains((f.to, k, d.members[f.from].state[k])) || f.message.deltas.contains(
        (k, d.members[f.from].state[k]),
    ) by {
        let v = d.members[f.from].state[k];
        if c.members[f.from].state.contains_key(k) && c.members[f.from].state[k] == v {
            if c.has(f.to, k, v) {
                lemma_has(c, step, f.to, k, v);
            }
        } else {
            assert(c.has_passed(f.from, f.to, f.max_sent_ts));
            lemma_late(c, step, f.from, f.to, f.max_sent_ts, k, v);
        }
    }
}

/// Sources are kept track of.
proof fn lemma_sourced(c: Cluster, step: Step)
    requires
        c.invariant_holds(),
        c.enabled(step),
    ensures
        c.after(step).is_sourced(),
        forall|e: (Seq<char>, Lww)| #[trigger]
            c.writes.contains(e) ==> c.after(step).writes.contains(e),
{
    reveal(Cluster::invariant_holds);
    let d = c.after(step);
    assert forall|e: (Seq<char>, Lww)| #[trigger] c.writes.contains(e) implies d.writes.contains(
        e,
    ) by {
        let n = choose|n: int| 0 <= n < c.writes.len() && c.writes[n] == e;
        assert(d.writes[n] == e);
    }
    assert forall|i: int, e: (Seq<char>, Lww)|
        0 <= i < c.members.len() && #[trigger] news(c, step, i).contains(
            e,
        ) implies d.writes.contains(e) by {
        match step {
            Step::Write { at, key, value, timestamp } => {
                assert(d.writes[c.writes.len() as int] == e);
            },
            Step::Deliver { flight, .. } => {
                let f = c.flights[flight];
                assert(c.flight_ok(f));
                let n = choose|n: int| 0 <= n < f.message.deltas.len() && f.message.deltas[n] == e;
                assert(c.writes.contains(f.message.deltas[n]));
            },
            _ => {},
        }
    }
    assert forall|i: int, k: Seq<char>|
        0 <= i < d.members.len() && #[trigger] d.members[i].state.contains_key(
            k,
        ) implies d.writes.contains((k, d.members[i].state[k])) by {
        lemma_news(c, step, i);
        let v = d.members[i].state[k];
        assert(offers(c.members[i].state, news(c, step, i), k, v));
        if c.members[i].state.contains_key(k) && c.members[i].state[k] == v {
            assert(c.writes.contains((k, v)));
        } else {
            assert(news(c, step, i).contains((k, v)));
        }
    }
    assert forall|n: int| 0 <= n < d.writes.len() implies d.is_held(#[trigger] d.writes[n]) by {
        if n < c.writes.len() {
            assert(d.writes[n] == c.writes[n]);
            assert(c.is_held(c.writes[n]));
            let i = choose|i: int|
                0 <= i < c.members.len() && #[trigger] c.has(i, c.writes[n].0, c.writes[n].1);
            lemma_has(c, step, i, c.writes[n].0, c.writes[n].1);
        } else {
            match step {
                Step::Write { at, key, value, timestamp } => {
                    let m = c.members[at];
                    let v = Lww { value, timestamp, node_id: m.id };
                    assert(d.writes[n] == (key, v));
                    assert(d.members[at].state == put(m.state, key, v));
                    write_then_read(m.state, key, v);
                    stamp_order(v, v, v);
                    assert(d.has(at, key, v));
                },
                _ => {},
            }
        }
    }
    assert forall|e: (int, Seq<char>, Lww)| #[trigger] d.late.contains(e) implies 0 <= e.0
        < d.members.len() && d.writes.contains((e.1, e.2)) by {
        if c.late.contains(e) {
            assert(c.writes.contains((e.1, e.2)));
        } else {
            match step {
                Step::Write { at, key, value, timestamp } => {
                    assert(news(c, step, at).contains((e.1, e.2)));
                },
                Step::Deliver { flight, .. } => {
                    assert(news(c, step, c.flights[flight].to).contains((e.1, e.2)));
                },
                _ => {},
            }
        }
    }
}

/// A push that was on its way is still in order after a step.
proof fn lemma_flight(c: Cluster, step: Step, n: int)
    requires
        c.invariant_holds(),
        c.enabled(step),
        0 <= n < c.flights.len(),
    ensures
        c.after(step).flight_ok(c.after(step).flights[n]),
{
    reveal(Cluster::invariant_holds);
    let d = c.after(step);
    let f = c.flights[n];
    let g = d.flights[n];
    assert(c.flight_ok(f));
    assert(g == Flight { stage: g.stage, ..f });
    lemma_sourced(c, step);
    members_never_go_back(c, step, f.from);
    members_never_go_back(c, step, f.to);
    assert(d.knows_as(g.from, g.peer_id, g.to));
    assert forall|m: int| 0 <= m < g.message.deltas.len() implies d.writes.contains(
        #[trigger] g.message.deltas[m],
    ) && d.has(g.from, g.message.deltas[m].0, g.message.deltas[m].1) by {
        assert(c.writes.contains(f.message.deltas[m]));
        lemma_has(c, step, f.from, f.message.deltas[m].0, f.message.deltas[m].1);
    }
    if f.stage is Sent {
        lemma_brings_up_to_date(c, step, n);
        if g.stage is Sent {
            assert(d.brings_up_to_date(g));
        }
        if g.stage is Delivered {
            let before = c.members[f.to].state;
            merge_takes_up_entries(before, f.message.deltas);
            assert(d.members[f.to].state == apply(before, f.message.deltas));
            assert forall|k: Seq<char>| #[trigger]
                d.members[f.from].state.contains_key(k) && d.members[f.from].state[k].timestamp
                    <= f.max_sent_ts implies d.has(f.to, k, d.members[f.from].state[k])
                || d.late.contains((f.to, k, d.members[f.from].state[k])) by {
                let v = d.members[f.from].state[k];
                if f.message.deltas.contains((k, v)) {
                    let m = choose|m: int|
                        0 <= m < f.message.deltas.len() && f.message.deltas[m] == (k, v);
                    assert(f.message.deltas[m].0 == k);
                }
            }
        }
    }
    if f.stage is Delivered {
        assert(c.has_passed(f.from, f.to, f.max_sent_ts));
        lemma_up_to_date(c, step, f.from, f.to, f.max_sent_ts);
    }
}

/// What is known of peers stays in order in a step.
proof fn lemma_peer(c: Cluster, step: Step, i: int, pid: Seq<char>, j: int)
    requires
        c.invariant_holds(),
        c.enabled(step),
        c.after(step).is_stamped(),
        0 <= i < c.members.len(),
        0 <= j < c.members.len(),
        c.after(step).knows_as(i, pid, j),
    ensures
        c.after(step).up_to_date(i, j, c.after(step).members[i].peers[pid].last_sync_ts),
{
    reveal(Cluster::invariant_holds);
    let d = c.after(step);
    let ts = d.members[i].peers[pid].last_sync_ts;
    members_never_go_back(c, step, j);
    if c.knows_as(i, pid, j) && ts == c.members[i].peers[pid].last_sync_ts {
        assert(c.has_passed(i, j, ts));
        lemma_up_to_date(c, step, i, j, ts);
    } else if step is Acknowledge {
        let n = step->Acknowledge_flight;
        let f = c.flights[n];
        assert(c.flight_ok(f));
        assert(c.knows_as(f.from, f.peer_id, f.to));
        assert(i == f.from && pid == f.peer_id);
        assert(c.members[j].addr == c.members[f.to].addr);
        assert(j == f.to) by {
            if j < f.to {
                assert(c.members[j].addr != c.members[f.to].addr);
            } else if f.to < j {
                assert(c.members[f.to].addr != c.members[j].addr);
            }
        }
        assert(ts == f.max_sent_ts);
        assert(c.has_passed(i, j, ts));
        lemma_up_to_date(c, step, i, j, ts);
    } else {
        // A peer just met.
        assert(step is Deliver && ts == 0);
        lemma_sourced(c, step);
        assert forall|k: Seq<char>| #[trigger]
            d.members[i].state.contains_key(k) implies d.members[i].state[k].timestamp > 0 by {
            assert(d.writes.contains((k, d.members[i].state[k])));
            let n = choose|n: int|
                0 <= n < d.writes.len() && d.writes[n] == (k, d.members[i].state[k]);
            assert(d.writes[n].1.timestamp > 0);
        }
    }
}

/// Every step keeps the invariant: whatever is written, sent, merged, acknowledged or lost, a
/// peer has everything up to its sync timestamp, but for what reached the sender late.
pub proof fn steps_keep_peers_up_to_date(c: Cluster, step: Step)
    requires
        c.invariant_holds(),
        c.enabled(step),
        c.after(step).is_stamped(),
    ensures
        c.after(step).invariant_holds(),
{
    reveal(Cluster::invariant_holds);
    let d = c.after(step);
    lemma_sourced(c, step);
    assert forall|i: int, j: int| 0 <= i < j < d.members.len() implies (
    #[trigger] d.members[i]).addr != (#[trigger] d.members[j]).addr by {
        members_never_go_back(c, step, i);
        members_never_go_back(c, step, j);
        assert(c.members[i].addr != c.members[j].addr);
    }
    assert forall|i: int, pid: Seq<char>, j: int|
        0 <= i < d.members.len() && 0 <= j < d.members.len() && #[trigger] d.knows_as(
            i,
            pid,
            j,
        ) implies d.up_to_date(i, j, d.members[i].peers[pid].last_sync_ts) by {
        lemma_peer(c, step, i, pid, j);
    }
    assert forall|n: int| 0 <= n < d.flights.len() implies d.flight_ok(
        #[trigger] d.flights[n],
    ) by {
        if n < c.flights.len() {
            lemma_flight(c, step, n);
        } else {
            lemma_sent(c, step);
        }
    }
}

/// A push just sent is in order.
proof fn lemma_sent(c: Cluster, step: Step)
    requires
        c.invariant_holds(),
        c.enabled(step),
        step is Send,
    ensures
        c.after(step).flight_ok(c.after(step).flights[c.flights.len() as int]),
{
    reveal(Cluster::invariant_holds);
    let d = c.after(step);
    let f = d.flights[c.flights.len() as int];
    let own = c.members[f.from].state;
    let since = c.members[f.from].peers[f.peer_id].last_sync_ts;
    assert(d.members == c.members);
    assert(c.up_to_date(f.from, f.to, since));
    assert forall|m: int| 0 <= m < f.message.deltas.len() implies d.writes.contains(
        #[trigger] f.message.deltas[m],
    ) && d.has(f.from, f.message.deltas[m].0, f.message.deltas[m].1) by {
        let e = f.message.deltas[m];
        assert(newer_than(own, since).contains_key(e.0));
        assert(own.contains_key(e.0) && own[e.0] == e.1);
        assert(c.members[f.from].state.contains_key(e.0));
        stamp_order(e.1, e.1, e.1);
    }
    assert forall|k: Seq<char>| #[trigger]
        d.members[f.from].state.contains_key(k) && d.members[f.from].state[k].timestamp
            <= f.max_sent_ts implies d.has(f.to, k, d.members[f.from].state[k])
        || d.late.contains((f.to, k, d.members[f.from].state[k])) || f.message.deltas.contains(
        (k, d.members[f.from].state[k]),
    ) by {
        if own[k].timestamp > since {
            assert(newer_than(own, since).contains_key(k));
            let m = choose|m: int|
                0 <= m < f.message.deltas.len() && (#[trigger] f.message.deltas[m]).0 == k;
            assert(f.message.deltas[m] == (k, own[k]));
        }
    }
}

} // verus!
