//! What a running cluster ends up with, and how soon: nobody ever goes back, and members that
//! have nothing left to send each other hold the newest writes, all the same.

use std::time::Instant;
use vstd::prelude::*;
use crate::gossip::cluster::{
    initial_clusters_are_up_to_date, live, members_never_go_back, steps_keep_peers_up_to_date,
    Cluster, Step,
};
use crate::gossip::manager::due;
use crate::gossip::peer::Peer;
use crate::gossip::protocol::Gossip;
use crate::listing::lists;
use crate::state::crdt::{compatible, stamp_ge, stamp_order, Lww};
use crate::state::laws::{
    agree, consistent, covers, merge_makes_nothing_up, merge_never_regresses,
    merge_takes_up_entries, mutual_coverage_is_equality, offers, write_then_read,
};
use crate::state::store::{apply, is_max_timestamp, newer_than, put};

verus! {

// ── Runs ───────────────────────────────────────────────────────────────────

/// `trace` is a run of a cluster: it starts with nothing, and `steps` lead from each cluster to
/// the next.
pub open spec fn is_run(trace: Seq<Cluster>, steps: Seq<Step>) -> bool {
    &&& trace.len() == steps.len() + 1
    &&& trace[0].is_initial()
    &&& forall|n: int|
        #![trigger steps[n]]
        0 <= n < steps.len() ==> trace[n].enabled(steps[n]) && trace[n + 1] == trace[n].after(
            steps[n],
        )
}

/// At the end of every run the invariant holds.
pub proof fn runs_keep_peers_up_to_date(trace: Seq<Cluster>, steps: Seq<Step>)
    requires
        is_run(trace, steps),
        trace.last().is_stamped(),
    ensures
        trace.last().invariant_holds(),
    decreases steps.len(),
{
    if steps.len() == 0 {
        initial_clusters_are_up_to_date(trace[0]);
    } else {
        let n = steps.len() - 1;
        let c = trace[n];
        let step = steps[n];
        assert(trace.last() == c.after(step));
        assert forall|m: int| 0 <= m < c.writes.len() implies (
        #[trigger] c.writes[m]).1.timestamp > 0 by {
            assert(c.after(step).writes[m] == c.writes[m]);
        }
        assert(trace.drop_last().last() == c);
        assert forall|m: int|
            #![trigger steps.drop_last()[m]]
            0 <= m < steps.drop_last().len() implies trace.drop_last()[m].enabled(
            steps.drop_last()[m],
        ) && trace.drop_last()[m + 1] == trace.drop_last()[m].after(steps.drop_last()[m]) by {
            assert(steps[m] == steps.drop_last()[m]);
        }
        runs_keep_peers_up_to_date(trace.drop_last(), steps.drop_last());
        steps_keep_peers_up_to_date(c, step);
    }
}

/// Nobody ever goes back in a run: what a member holds, it holds later too, or something newer.
pub proof fn nobody_goes_back(trace: Seq<Cluster>, steps: Seq<Step>, i: int, a: int, b: int)
    requires
        is_run(trace, steps),
        0 <= a <= b < trace.len(),
        0 <= i < trace[0].members.len(),
    ensures
        trace[a].members.len() == trace[0].members.len(),
        trace[b].members.len() == trace[0].members.len(),
        covers(trace[b].members[i].state, trace[a].members[i].state),
    decreases b,
{
    let s = trace[a].members[i].state;
    assert forall|k: Seq<char>| #[trigger] s.contains_key(k) implies stamp_ge(s[k], s[k]) by {
        stamp_order(s[k], s[k], s[k]);
    }
    if b > 0 {
        assert(trace[b - 1].enabled(steps[b - 1]));
        if a < b {
            nobody_goes_back(trace, steps, i, a, b - 1);
            members_never_go_back(trace[b - 1], steps[b - 1], i);
            let before = trace[b - 1].members[i].state;
            let after = trace[b].members[i].state;
            assert forall|k: Seq<char>| #[trigger] s.contains_key(k) implies after.contains_key(k)
                && stamp_ge(after[k], s[k]) by {
                assert(before.contains_key(k));
                stamp_order(after[k], before[k], s[k]);
            }
        } else {
            nobody_goes_back(trace, steps, i, b - 1, b - 1);
            members_never_go_back(trace[b - 1], steps[b - 1], i);
        }
    }
}

// ── Where it ends ──────────────────────────────────────────────────────────

/// The member `i` knows the member `j`, and the other way round.
pub open spec fn neighbours(c: Cluster, i: int, j: int) -> bool {
    &&& 0 <= i < c.members.len()
    &&& 0 <= j < c.members.len()
    &&& exists|pid: Seq<char>| #[trigger] c.knows_as(i, pid, j)
    &&& exists|pid: Seq<char>| #[trigger] c.knows_as(j, pid, i)
}

/// `path` leads from the member `i` to the member `j`, each member on it a neighbour of the
/// next.
pub open spec fn is_path(c: Cluster, path: Seq<int>, i: int, j: int) -> bool {
    &&& path.len() > 0
    &&& path[0] == i
    &&& path.last() == j
    &&& forall|n: int|
        #![trigger path[n]]
        0 <= n < path.len() - 1 ==> neighbours(c, path[n], path[n + 1])
}

/// There is a path from the first member to the member `i`.
pub open spec fn is_reachable(c: Cluster, i: int) -> bool {
    exists|path: Seq<int>| #[trigger] is_path(c, path, 0, i)
}

/// There is a path from the first member to every other one.
pub open spec fn is_connected(c: Cluster) -> bool {
    forall|i: int| 0 <= i < c.members.len() ==> #[trigger] is_reachable(c, i)
}

/// The member `j` has everything that the member `i` has, but for what reached `i` late.
#[verifier::opaque]
pub open spec fn settled(c: Cluster, i: int, j: int) -> bool {
    c.up_to_date(i, j, u64::MAX)
}

/// Nothing is on its way, and nobody has anything to send.
pub open spec fn is_quiet(c: Cluster) -> bool {
    &&& forall|n: int| 0 <= n < c.flights.len() ==> !live(#[trigger] c.flights[n])
    &&& forall|i: int, pid: Seq<char>|
        0 <= i < c.members.len() && #[trigger] c.members[i].peers.contains_key(pid) ==> !due(
            c.members[i].peers[pid],
            c.members[i].state,
        )
}

/// Neighbours are settled with each other, in both directions.
pub open spec fn is_settled(c: Cluster) -> bool {
    forall|i: int, j: int| #[trigger] neighbours(c, i, j) ==> settled(c, i, j) && settled(c, j, i)
}

/// Everything that reached a node late has reached the peer on another way.
pub open spec fn nothing_is_missing(c: Cluster) -> bool {
    forall|e: (int, Seq<char>, Lww)| #[trigger] c.late.contains(e) ==> c.has(e.0, e.1, e.2)
}

/// Every member is in the state of a store that took in all writes.
pub open spec fn has_converged(c: Cluster) -> bool {
    forall|i: int|
        0 <= i < c.members.len() ==> (#[trigger] c.members[i]).state == apply(
            Map::<Seq<char>, Lww>::empty(),
            c.writes,
        )
}

/// A peer that nothing is due to has everything, but for what reached the sender late.
pub proof fn quiet_clusters_are_settled(c: Cluster)
    requires
        c.invariant_holds(),
        is_quiet(c),
    ensures
        is_settled(c),
{
    assert forall|i: int, j: int| #[trigger] neighbours(c, i, j) implies settled(c, i, j)
        && settled(c, j, i) by {
        lemma_nothing_due(c, i, choose|pid: Seq<char>| #[trigger] c.knows_as(i, pid, j), j);
        lemma_nothing_due(c, j, choose|pid: Seq<char>| #[trigger] c.knows_as(j, pid, i), i);
    }
}

proof fn lemma_nothing_due(c: Cluster, i: int, pid: Seq<char>, j: int)
    requires
        c.invariant_holds(),
        0 <= i < c.members.len(),
        0 <= j < c.members.len(),
        c.knows_as(i, pid, j),
        !due(c.members[i].peers[pid], c.members[i].state),
    ensures
        settled(c, i, j),
{
    reveal(Cluster::invariant_holds);
    reveal(settled);
    let own = c.members[i].state;
    let since = c.members[i].peers[pid].last_sync_ts;
    assert(c.up_to_date(i, j, since));
    assert forall|k: Seq<char>| #[trigger]
        own.contains_key(k) && own[k].timestamp <= u64::MAX implies c.has(j, k, own[k])
        || c.late.contains((j, k, own[k])) by {
        if own[k].timestamp > since {
            assert(newer_than(own, since).contains_key(k));
        }
    }
}

/// The states of two members stem from the same writes, and so agree.
proof fn lemma_agree(c: Cluster, m: Map<Seq<char>, Lww>, n: Map<Seq<char>, Lww>)
    requires
        consistent(Map::<Seq<char>, Lww>::empty(), c.writes),
        forall|k: Seq<char>| #[trigger] m.contains_key(k) ==> c.writes.contains((k, m[k])),
        forall|k: Seq<char>| #[trigger] n.contains_key(k) ==> c.writes.contains((k, n[k])),
    ensures
        agree(m, n),
{
    let none = Map::<Seq<char>, Lww>::empty();
    assert forall|k: Seq<char>| #[trigger]
        m.contains_key(k) && n.contains_key(k) implies compatible(m[k], n[k]) by {
        assert(offers(none, c.writes, k, m[k]));
        assert(offers(none, c.writes, k, n[k]));
    }
}

/// Along a path of a settled cluster that nothing is missing in, the state is the same.
proof fn lemma_path(c: Cluster, path: Seq<int>, i: int, j: int)
    requires
        c.invariant_holds(),
        is_settled(c),
        nothing_is_missing(c),
        consistent(Map::<Seq<char>, Lww>::empty(), c.writes),
        is_path(c, path, i, j),
    ensures
        c.members[i].state == c.members[j].state,
    decreases path.len(),
{
    if path.len() > 1 {
        let n = path.len() - 2;
        let p = path[n];
        assert(neighbours(c, path[n], path[n + 1]));
        assert(path.drop_last().last() == p);
        assert forall|q: int|
            #![trigger path.drop_last()[q]]
            0 <= q < path.drop_last().len() - 1 implies neighbours(
            c,
            path.drop_last()[q],
            path.drop_last()[q + 1],
        ) by {
            assert(path[q] == path.drop_last()[q]);
        }
        lemma_path(c, path.drop_last(), i, p);
        assert(settled(c, p, j) && settled(c, j, p));
        lemma_settled_pair(c, p, j);
    }
}

/// Two members that are settled with each other, with nothing missing, are in the same state.
proof fn lemma_settled_pair(c: Cluster, p: int, q: int)
    requires
        c.invariant_holds(),
        0 <= p < c.members.len(),
        0 <= q < c.members.len(),
        settled(c, p, q),
        settled(c, q, p),
        nothing_is_missing(c),
        consistent(Map::<Seq<char>, Lww>::empty(), c.writes),
    ensures
        c.members[p].state == c.members[q].state,
{
    reveal(Cluster::invariant_holds);
    reveal(settled);
    let a = c.members[p].state;
    let b = c.members[q].state;
    assert forall|k: Seq<char>| #[trigger] a.contains_key(k) implies b.contains_key(k) && stamp_ge(
        b[k],
        a[k],
    ) by {
        assert(c.members[p].state.contains_key(k));
        assert(c.has(q, k, a[k]) || c.late.contains((q, k, a[k])));
    }
    assert forall|k: Seq<char>| #[trigger] b.contains_key(k) implies a.contains_key(k) && stamp_ge(
        a[k],
        b[k],
    ) by {
        assert(c.members[q].state.contains_key(k));
        assert(c.has(p, k, b[k]) || c.late.contains((p, k, b[k])));
    }
    lemma_agree(c, a, b);
    mutual_coverage_is_equality(a, b);
}

/// Where nothing missing means that all members are in the same state, it means that the
/// cluster has converged.
proof fn lemma_convergence(c: Cluster)
    requires
        c.invariant_holds(),
        consistent(Map::<Seq<char>, Lww>::empty(), c.writes),
        nothing_is_missing(c) ==> forall|i: int|
            0 <= i < c.members.len() ==> (#[trigger] c.members[i]).state == c.members[0].state,
    ensures
        has_converged(c) <==> nothing_is_missing(c),
{
    reveal(Cluster::invariant_holds);
    let none = Map::<Seq<char>, Lww>::empty();
    let goal = apply(none, c.writes);
    merge_takes_up_entries(none, c.writes);
    merge_makes_nothing_up(none, c.writes);
    if has_converged(c) {
        assert forall|e: (int, Seq<char>, Lww)| #[trigger] c.late.contains(e) implies c.has(
            e.0,
            e.1,
            e.2,
        ) by {
            assert(c.writes.contains((e.1, e.2)));
            let n = choose|n: int| 0 <= n < c.writes.len() && c.writes[n] == (e.1, e.2);
            assert(c.writes[n].0 == e.1);
            assert(c.members[e.0].state == goal);
        }
    }
    if nothing_is_missing(c) {
        assert forall|i: int| 0 <= i < c.members.len() implies (#[trigger] c.members[i]).state
            == goal by {
            let own = c.members[i].state;
            assert forall|k: Seq<char>| #[trigger] own.contains_key(k) implies goal.contains_key(k)
                && stamp_ge(goal[k], own[k]) && c.writes.contains((k, own[k])) by {
                assert(c.members[i].state.contains_key(k));
                assert(c.writes.contains((k, own[k])));
                let n = choose|n: int| 0 <= n < c.writes.len() && c.writes[n] == (k, own[k]);
                assert(c.writes[n].0 == k);
            }
            assert forall|k: Seq<char>| #[trigger] goal.contains_key(k) implies own.contains_key(k)
                && stamp_ge(own[k], goal[k]) && c.writes.contains((k, goal[k])) by {
                assert(offers(none, c.writes, k, goal[k]));
                assert(c.writes.contains((k, goal[k])));
                let n = choose|n: int| 0 <= n < c.writes.len() && c.writes[n] == (k, goal[k]);
                assert(c.is_held(c.writes[n]));
                let j = choose|j: int|
                    0 <= j < c.members.len() && #[trigger] c.has(j, c.writes[n].0, c.writes[n].1);
                assert(c.members[j].state == c.members[0].state);
                assert(c.members[i].state == c.members[0].state);
            }
            lemma_agree(c, own, goal);
            mutual_coverage_is_equality(own, goal);
        }
    }
}

/// A settled cluster, whose members are connected, has converged exactly where nothing that
/// reached a node late is missing at a peer. Every member then holds, for every key, the write
/// with the newest stamp.
pub proof fn settled_clusters_converge(c: Cluster)
    requires
        c.invariant_holds(),
        is_settled(c),
        is_connected(c),
        consistent(Map::<Seq<char>, Lww>::empty(), c.writes),
    ensures
        has_converged(c) <==> nothing_is_missing(c),
{
    if nothing_is_missing(c) {
        assert forall|i: int| 0 <= i < c.members.len() implies (#[trigger] c.members[i]).state
            == c.members[0].state by {
            assert(is_reachable(c, i));
            lemma_path(c, choose|path: Seq<int>| #[trigger] is_path(c, path, 0, i), 0, i);
        }
    }
    lemma_convergence(c);
}

/// A store that took in all writes holds, for every key that was written, the write with the
/// newest stamp.
pub proof fn the_newest_write_wins(writes: Seq<(Seq<char>, Lww)>)
    ensures
        forall|n: int|
            0 <= n < writes.len() ==> {
                let goal = apply(Map::<Seq<char>, Lww>::empty(), writes);
                let key = (#[trigger] writes[n]).0;
                &&& goal.contains_key(key)
                &&& writes.contains((key, goal[key]))
                &&& stamp_ge(goal[key], writes[n].1)
            },
{
    let none = Map::<Seq<char>, Lww>::empty();
    merge_takes_up_entries(none, writes);
    merge_makes_nothing_up(none, writes);
    assert forall|n: int| 0 <= n < writes.len() implies writes.contains(
        ((#[trigger] writes[n]).0, apply(none, writes)[writes[n].0]),
    ) by {
        let key = writes[n].0;
        assert(offers(none, writes, key, apply(none, writes)[key]));
    }
}

/// At the end of a run that has come to rest, connected members are in the same state, that of
/// a store that took in all writes, exactly where nothing that reached a node late is missing
/// at a peer. In particular they are where nothing arrived late.
pub proof fn runs_converge(trace: Seq<Cluster>, steps: Seq<Step>)
    requires
        is_run(trace, steps),
        trace.last().is_stamped(),
        consistent(Map::<Seq<char>, Lww>::empty(), trace.last().writes),
        is_quiet(trace.last()),
        is_connected(trace.last()),
    ensures
        has_converged(trace.last()) <==> nothing_is_missing(trace.last()),
        trace.last().late == Set::<(int, Seq<char>, Lww)>::empty() ==> has_converged(trace.last()),
{
    runs_keep_peers_up_to_date(trace, steps);
    quiet_clusters_are_settled(trace.last());
    settled_clusters_converge(trace.last());
}

/// Between two members nothing goes missing but writes whose stamp lies at or below what the
/// writer has already passed: what one member merges, the other one sent.
pub proof fn two_members_miss_only_belated_writes(c: Cluster, step: Step)
    requires
        c.invariant_holds(),
        c.enabled(step),
        c.members.len() == 2,
        nothing_is_missing(c),
        match step {
            Step::Write { at, timestamp, .. } => !c.has_passed(at, 1 - at, timestamp),
            Step::Deliver { flight, .. } => c.flights[flight].from != c.flights[flight].to,
            _ => true,
        },
    ensures
        nothing_is_missing(c.after(step)),
{
    reveal(Cluster::invariant_holds);
    let d = c.after(step);
    assert forall|e: (int, Seq<char>, Lww)| #[trigger] d.late.contains(e) implies d.has(
        e.0,
        e.1,
        e.2,
    ) by {
        if c.late.contains(e) {
            assert(c.has(e.0, e.1, e.2));
            members_never_go_back(c, step, e.0);
            stamp_order(d.members[e.0].state[e.1], c.members[e.0].state[e.1], e.2);
        } else {
            match step {
                Step::Write { at, key, value, timestamp } => {
                    let m = c.members[at];
                    let v = Lww { value, timestamp, node_id: m.id };
                    assert(c.late_at(at, seq![(key, v)], -1).contains(e));
                    assert(seq![(key, v)].contains((e.1, e.2)));
                    assert(e.0 == at);
                    assert(d.members[at].state == put(m.state, key, v));
                    write_then_read(m.state, key, v);
                    stamp_order(v, v, v);
                },
                Step::Deliver { flight, .. } => {
                    let f = c.flights[flight];
                    assert(c.flight_ok(f));
                    assert(c.late_at(f.to, f.message.deltas, f.from).contains(e));
                    assert(e.0 == f.to);
                    merge_takes_up_entries(c.members[f.to].state, f.message.deltas);
                    let n = choose|n: int|
                        0 <= n < f.message.deltas.len() && f.message.deltas[n] == (e.1, e.2);
                    assert(f.message.deltas[n].0 == e.1);
                },
                _ => {},
            }
        }
    }
}

// ── How soon ───────────────────────────────────────────────────────────────

/// One contact of a gossip round: the peer, and what it is sent where something is due to it.
pub ghost struct Contact {
    pub peer_id: Seq<char>,
    pub message: Gossip,
    pub max_sent_ts: u64,
    pub now: Instant,
}

impl Cluster {
    /// Something is due from the member `i` to the peer of the contact.
    pub open spec fn contact_due(self, i: int, k: Contact) -> bool {
        due(self.members[i].peers[k.peer_id], self.members[i].state)
    }

    /// The push that the contact sends.
    pub open spec fn sending(self, i: int, j: int, k: Contact) -> Step {
        Step::Send {
            from: i,
            peer_id: k.peer_id,
            to: j,
            message: k.message,
            max_sent_ts: k.max_sent_ts,
        }
    }

    /// The arrival of that push.
    pub open spec fn delivering(self, k: Contact) -> Step {
        Step::Deliver { flight: self.flights.len() as int, now: k.now }
    }

    /// The arrival of its acknowledgement.
    pub open spec fn acknowledging(self, k: Contact) -> Step {
        Step::Acknowledge { flight: self.flights.len() as int, now: k.now }
    }

    /// The contact from the member `i` to the member `j` can be made.
    #[verifier::opaque]
    pub open spec fn can_contact(self, i: int, j: int, k: Contact) -> bool {
        let sent = self.after(self.sending(i, j, k));
        let delivered = sent.after(self.delivering(k));
        &&& 0 <= i < self.members.len()
        &&& 0 <= j < self.members.len()
        &&& i != j
        &&& self.knows_as(i, k.peer_id, j)
        &&& self.contact_due(i, k) ==> {
            &&& self.enabled(self.sending(i, j, k))
            &&& sent.enabled(self.delivering(k))
            &&& delivered.enabled(self.acknowledging(k))
        }
    }

    /// The cluster after the contact: the push, where one is due, has been sent, merged and
    /// acknowledged.
    #[verifier::opaque]
    pub open spec fn contacted(self, i: int, j: int, k: Contact) -> Cluster {
        if self.contact_due(i, k) {
            self.after(self.sending(i, j, k)).after(self.delivering(k)).after(
                self.acknowledging(k),
            )
        } else {
            self
        }
    }
}

/// What a contact changes: the state of the contacted member, and what is known of peers.
proof fn lemma_contact_shape(c: Cluster, i: int, j: int, k: Contact)
    requires
        c.can_contact(i, j, k),
        c.contact_due(i, k),
    ensures
        ({
            let d = c.contacted(i, j, k);
            &&& d.writes == c.writes
            &&& d.members.len() == c.members.len()
            &&& forall|e: (int, Seq<char>, Lww)| #[trigger] c.late.contains(e) ==> d.late.contains(e)
            &&& forall|a: int|
                0 <= a < c.members.len() && a != j ==> (#[trigger] d.members[a]).state
                    == c.members[a].state
            &&& d.members[j].state == apply(c.members[j].state, k.message.deltas)
            &&& forall|a: int, pid: Seq<char>, b: int|
                0 <= a < c.members.len() && 0 <= b < c.members.len() && #[trigger] c.knows_as(
                    a,
                    pid,
                    b,
                ) ==> d.knows_as(a, pid, b)
            &&& lists(
                k.message.deltas,
                newer_than(c.members[i].state, c.members[i].peers[k.peer_id].last_sync_ts),
            )
            &&& 0 <= i < c.members.len()
            &&& 0 <= j < c.members.len()
            &&& i != j
            &&& c.knows_as(i, k.peer_id, j)
        }),
{
    reveal(Cluster::can_contact);
    reveal(Cluster::contacted);
    let sent = c.after(c.sending(i, j, k));
    let delivered = sent.after(c.delivering(k));
    assert(sent.members == c.members);
    assert(sent.flights[c.flights.len() as int].message == k.message);
    assert(delivered.members[j].state == apply(c.members[j].state, k.message.deltas));
}

/// A contact keeps the invariant.
proof fn lemma_contact_invariant(c: Cluster, i: int, j: int, k: Contact)
    requires
        c.invariant_holds(),
        c.is_stamped(),
        c.can_contact(i, j, k),
        c.contact_due(i, k),
    ensures
        c.contacted(i, j, k).invariant_holds(),
{
    reveal(Cluster::can_contact);
    reveal(Cluster::contacted);
    let sent = c.after(c.sending(i, j, k));
    let delivered = sent.after(c.delivering(k));
    assert(sent.writes == c.writes && delivered.writes == c.writes);
    steps_keep_peers_up_to_date(c, c.sending(i, j, k));
    steps_keep_peers_up_to_date(sent, c.delivering(k));
    steps_keep_peers_up_to_date(delivered, c.acknowledging(k));
}

/// What a member has, it has after a contact.
proof fn lemma_contact_grows(
    c: Cluster,
    i: int,
    j: int,
    k: Contact,
    a: int,
    key: Seq<char>,
    v: Lww,
)
    requires
        c.can_contact(i, j, k),
        c.contact_due(i, k),
        0 <= a < c.members.len(),
        c.has(a, key, v),
    ensures
        c.contacted(i, j, k).has(a, key, v),
{
    lemma_contact_shape(c, i, j, k);
    if a == j {
        let before = c.members[j].state;
        merge_never_regresses(before, k.message.deltas);
        stamp_order(apply(before, k.message.deltas)[key], before[key], v);
    } else {
        assert(c.contacted(i, j, k).members[a].state == c.members[a].state);
    }
}

/// A contact leaves the peer with everything that the sender has, but for what reached the
/// sender late.
proof fn lemma_contact_target(c: Cluster, i: int, j: int, k: Contact)
    requires
        c.invariant_holds(),
        c.can_contact(i, j, k),
        c.contact_due(i, k),
    ensures
        settled(c.contacted(i, j, k), i, j),
{
    reveal(Cluster::invariant_holds);
    reveal(settled);
    lemma_contact_shape(c, i, j, k);
    let d = c.contacted(i, j, k);
    let deltas = k.message.deltas;
    let own = c.members[i].state;
    let since = c.members[i].peers[k.peer_id].last_sync_ts;
    merge_takes_up_entries(c.members[j].state, deltas);
    assert(d.members[i].state == own);
    assert(c.up_to_date(i, j, since));
    assert forall|key: Seq<char>| #[trigger]
        d.members[i].state.contains_key(key) && d.members[i].state[key].timestamp
            <= u64::MAX implies d.has(j, key, d.members[i].state[key]) || d.late.contains(
        (j, key, d.members[i].state[key]),
    ) by {
        assert(c.members[i].state.contains_key(key));
        if own[key].timestamp > since {
            assert(newer_than(own, since).contains_key(key));
            let m = choose|m: int| 0 <= m < deltas.len() && (#[trigger] deltas[m]).0 == key;
            assert(deltas[m] == (key, own[key]));
        } else if c.has(j, key, own[key]) {
            lemma_contact_grows(c, i, j, k, j, key, own[key]);
        }
    }
}

/// A contact does not disturb what other members are settled with.
proof fn lemma_contact_keeps(c: Cluster, i: int, j: int, k: Contact, a: int, b: int)
    requires
        c.invariant_holds(),
        c.can_contact(i, j, k),
        c.contact_due(i, k),
        0 <= a < c.members.len(),
        0 <= b < c.members.len(),
        settled(c, a, b),
        a != j || b == i,
    ensures
        settled(c.contacted(i, j, k), a, b),
{
    reveal(settled);
    lemma_contact_shape(c, i, j, k);
    let d = c.contacted(i, j, k);
    let deltas = k.message.deltas;
    merge_makes_nothing_up(c.members[j].state, deltas);
    assert forall|key: Seq<char>| #[trigger]
        d.members[a].state.contains_key(key) && d.members[a].state[key].timestamp
            <= u64::MAX implies d.has(b, key, d.members[a].state[key]) || d.late.contains(
        (b, key, d.members[a].state[key]),
    ) by {
        let v = d.members[a].state[key];
        if c.members[a].state.contains_key(key) && c.members[a].state[key] == v {
            assert(c.has(b, key, v) || c.late.contains((b, key, v)));
            if c.has(b, key, v) {
                lemma_contact_grows(c, i, j, k, b, key, v);
            }
        } else {
            assert(a == j);
            assert(offers(c.members[j].state, deltas, key, v));
            let m = choose|m: int| 0 <= m < deltas.len() && deltas[m] == (key, v);
            let own = c.members[i].state;
            let since = c.members[i].peers[k.peer_id].last_sync_ts;
            assert(newer_than(own, since).contains_key(deltas[m].0));
            assert(own.contains_key(key) && own[key] == v);
            stamp_order(v, v, v);
            lemma_contact_grows(c, i, j, k, i, key, v);
        }
    }
}

/// A contact leaves the peer with everything that the sender has, but for what reached the
/// sender late, and does not disturb what other members are settled with.
pub proof fn a_contact_settles(c: Cluster, i: int, j: int, k: Contact)
    requires
        c.invariant_holds(),
        c.is_stamped(),
        c.can_contact(i, j, k),
    ensures
        c.contacted(i, j, k).invariant_holds(),
        c.contacted(i, j, k).writes == c.writes,
        c.contacted(i, j, k).members.len() == c.members.len(),
        settled(c.contacted(i, j, k), i, j),
        forall|a: int, b: int|
            0 <= a < c.members.len() && 0 <= b < c.members.len() && #[trigger] settled(c, a, b)
                && (a != j || b == i) ==> settled(c.contacted(i, j, k), a, b),
{
    if c.contact_due(i, k) {
        lemma_contact_invariant(c, i, j, k);
        lemma_contact_shape(c, i, j, k);
        lemma_contact_target(c, i, j, k);
        assert forall|a: int, b: int|
            0 <= a < c.members.len() && 0 <= b < c.members.len() && #[trigger] settled(c, a, b) && (
            a != j || b == i) implies settled(c.contacted(i, j, k), a, b) by {
            lemma_contact_keeps(c, i, j, k, a, b);
        }
    } else {
        reveal(Cluster::can_contact);
        reveal(Cluster::contacted);
        lemma_nothing_due(c, i, k.peer_id, j);
    }
}

/// `sweep` are the clusters before, between and after the contacts `ks`: every member but the
/// first, the hub, contacts the hub, and then the hub contacts each of them.
pub open spec fn is_hub_sweep(sweep: Seq<Cluster>, ks: Seq<Contact>) -> bool {
    let spokes = sweep[0].members.len() - 1;
    &&& sweep[0].members.len() > 0
    &&& ks.len() == 2 * spokes
    &&& sweep.len() == ks.len() + 1
    &&& forall|n: int|
        #![trigger ks[n]]
        0 <= n < spokes ==> sweep[n].can_contact(n + 1, 0, ks[n]) && sweep[n + 1]
            == sweep[n].contacted(n + 1, 0, ks[n])
    &&& forall|n: int|
        #![trigger ks[n]]
        spokes <= n < ks.len() ==> sweep[n].can_contact(0, n - spokes + 1, ks[n]) && sweep[n + 1]
            == sweep[n].contacted(0, n - spokes + 1, ks[n])
}

/// After `n` contacts of a sweep, those that were contacted are settled.
proof fn lemma_sweep(sweep: Seq<Cluster>, ks: Seq<Contact>, n: int)
    requires
        is_hub_sweep(sweep, ks),
        sweep[0].invariant_holds(),
        sweep[0].is_stamped(),
        0 <= n < sweep.len(),
    ensures
        sweep[n].invariant_holds(),
        sweep[n].writes == sweep[0].writes,
        sweep[n].members.len() == sweep[0].members.len(),
        forall|s: int|
            1 <= s < sweep[0].members.len() && s <= n ==> #[trigger] settled(sweep[n], s, 0),
        forall|s: int|
            1 <= s < sweep[0].members.len() && sweep[0].members.len() - 1 + s <= n
                ==> #[trigger] settled(sweep[n], 0, s),
    decreases n,
{
    if n > 0 {
        let spokes = sweep[0].members.len() - 1;
        let c = sweep[n - 1];
        let k = ks[n - 1];
        lemma_sweep(sweep, ks, n - 1);
        if n - 1 < spokes {
            assert(c.can_contact(n, 0, k) && sweep[n] == c.contacted(n, 0, k));
            a_contact_settles(c, n, 0, k);
            assert forall|s: int| 1 <= s < sweep[0].members.len() && s <= n implies #[trigger]
                settled(sweep[n], s, 0) by {
                if s < n {
                    assert(settled(c, s, 0));
                }
            }
        } else {
            let to = n - spokes;
            assert(c.can_contact(0, to, k) && sweep[n] == c.contacted(0, to, k));
            a_contact_settles(c, 0, to, k);
            assert forall|s: int| 1 <= s < sweep[0].members.len() && s <= n implies #[trigger]
                settled(sweep[n], s, 0) by {
                assert(settled(c, s, 0));
            }
            assert forall|s: int|
                1 <= s < sweep[0].members.len() && spokes + s <= n implies #[trigger] settled(
                sweep[n],
                0,
                s,
            ) by {
                if s < to {
                    assert(settled(c, 0, s));
                }
            }
        }
    }
}

/// Around a hub, one contact of the hub by every other member, and then one contact of each of
/// them by the hub, are enough: after that all members are in the state of a store that took in
/// all writes, exactly where nothing that reached a node late is missing at a peer.
pub proof fn one_sweep_around_a_hub_converges(sweep: Seq<Cluster>, ks: Seq<Contact>)
    requires
        is_hub_sweep(sweep, ks),
        sweep[0].invariant_holds(),
        sweep[0].is_stamped(),
        consistent(Map::<Seq<char>, Lww>::empty(), sweep[0].writes),
    ensures
        sweep.last().writes == sweep[0].writes,
        has_converged(sweep.last()) <==> nothing_is_missing(sweep.last()),
{
    let c = sweep.last();
    lemma_sweep(sweep, ks, sweep.len() - 1);
    lemma_hub(c);
}

/// A hub that is settled with every other member holds the cluster together.
proof fn lemma_hub(c: Cluster)
    requires
        c.invariant_holds(),
        c.members.len() > 0,
        consistent(Map::<Seq<char>, Lww>::empty(), c.writes),
        forall|s: int| 1 <= s < c.members.len() ==> #[trigger] settled(c, s, 0),
        forall|s: int| 1 <= s < c.members.len() ==> #[trigger] settled(c, 0, s),
    ensures
        has_converged(c) <==> nothing_is_missing(c),
{
    if nothing_is_missing(c) {
        assert forall|i: int| 0 <= i < c.members.len() implies (#[trigger] c.members[i]).state
            == c.members[0].state by {
            if i > 0 {
                assert(settled(c, i, 0) && settled(c, 0, i));
                lemma_settled_pair(c, i, 0);
            }
        }
    }
    lemma_convergence(c);
}

/// How many of the writes carry a timestamp after `ts`.
pub open spec fn pending(writes: Seq<(Seq<char>, Lww)>, ts: u64) -> nat
    decreases writes.len(),
{
    if writes.len() == 0 {
        0
    } else {
        pending(writes.drop_last(), ts) + if writes.last().1.timestamp > ts {
            1nat
        } else {
            0
        }
    }
}

/// A later timestamp leaves fewer writes pending, where one lies in between.
proof fn lemma_pending(writes: Seq<(Seq<char>, Lww)>, before: u64, after: u64)
    requires
        before <= after,
    ensures
        pending(writes, after) <= pending(writes, before),
        forall|n: int|
            0 <= n < writes.len() && before < (#[trigger] writes[n]).1.timestamp <= after
                ==> pending(writes, after) < pending(writes, before),
    decreases writes.len(),
{
    if writes.len() > 0 {
        lemma_pending(writes.drop_last(), before, after);
        assert forall|n: int|
            0 <= n < writes.len() && before < (#[trigger] writes[n]).1.timestamp <= after implies
            pending(writes, after) < pending(writes, before) by {
            if n < writes.len() - 1 {
                assert(writes.drop_last()[n] == writes[n]);
            }
        }
    }
}

/// Pushes run out. Once a push is acknowledged, its peer is due nothing more until the sender
/// takes up another entry; and each push that carries anything leaves fewer of the writes
/// pending for its peer.
pub proof fn pushes_run_out(
    own: Map<Seq<char>, Lww>,
    writes: Seq<(Seq<char>, Lww)>,
    info: Peer,
    max_sent_ts: u64,
    now: Instant,
)
    requires
        forall|k: Seq<char>| #[trigger] own.contains_key(k) ==> writes.contains((k, own[k])),
        is_max_timestamp(newer_than(own, info.last_sync_ts), max_sent_ts),
        info.exchange_count < u64::MAX,
    ensures
        !due(info.exchanged(max_sent_ts, now), own),
        newer_than(own, info.last_sync_ts) != Map::<Seq<char>, Lww>::empty() ==> pending(
            writes,
            info.exchanged(max_sent_ts, now).last_sync_ts,
        ) < pending(writes, info.last_sync_ts),
{
    let none = Map::<Seq<char>, Lww>::empty();
    let fresh = newer_than(own, info.last_sync_ts);
    let after = info.exchanged(max_sent_ts, now).last_sync_ts;
    assert(newer_than(own, after) =~= none) by {
        assert forall|k: Seq<char>| own.contains_key(k) implies own[k].timestamp <= after by {
            if own[k].timestamp > info.last_sync_ts {
                assert(fresh.contains_key(k));
            }
        }
    }
    if fresh != none {
        assert(exists|k: Seq<char>| fresh.contains_key(k)) by {
            if forall|k: Seq<char>| !fresh.contains_key(k) {
                assert(fresh =~= none);
            }
        }
        let k = choose|k: Seq<char>| fresh.contains_key(k);
        assert(own.contains_key(k));
        let n = choose|n: int| 0 <= n < writes.len() && writes[n] == (k, own[k]);
        lemma_pending(writes, info.last_sync_ts, after);
        assert(writes[n].1.timestamp <= after);
    }
}

} // verus!
