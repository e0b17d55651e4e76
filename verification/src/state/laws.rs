//! What holds of the replicated state as a whole: merging never loses a newer write, and
//! replicas that have received the same writes hold the same state.

use std::time::{Duration, SystemTime};
use vstd::prelude::*;
use crate::clock::{micros_at, nanos_of, readings_follow_the_clock, since_epoch};
use crate::listing::{empty_listing, listing_drop_last, lists};
use crate::state::crdt::{
    compatible, merge_associative, merge_commutative, merge_dominates, merged, stamp_ge,
    stamp_order, the_first_of_two_equal_stamps_stays, the_later_timestamp_wins, Lww, LwwValue,
};
use crate::state::store::{
    apply, changed_keys, changes, delta_view, is_max_timestamp, newer_than, put, texts, StateEvent,
};

verus! {

// ── Vocabulary ─────────────────────────────────────────────────────────────

/// `m` has, for every key of `n`, a register state at least as new.
pub open spec fn covers(m: Map<Seq<char>, Lww>, n: Map<Seq<char>, Lww>) -> bool {
    forall|k: Seq<char>| #[trigger]
        n.contains_key(k) ==> m.contains_key(k) && stamp_ge(m[k], n[k])
}

/// The register state `v` of key `k` stands in the state `m` or in the entries `delta`.
pub open spec fn offers(
    m: Map<Seq<char>, Lww>,
    delta: Seq<(Seq<char>, Lww)>,
    k: Seq<char>,
    v: Lww,
) -> bool {
    (m.contains_key(k) && m[k] == v) || delta.contains((k, v))
}

/// No two different values for one key carry the same stamp, in `m` and `delta` together.
pub open spec fn consistent(m: Map<Seq<char>, Lww>, delta: Seq<(Seq<char>, Lww)>) -> bool {
    forall|k: Seq<char>, v: Lww, w: Lww| #[trigger]
        offers(m, delta, k, v) && #[trigger] offers(m, delta, k, w) ==> compatible(v, w)
}

/// The two states merged key by key.
pub open spec fn join(m: Map<Seq<char>, Lww>, n: Map<Seq<char>, Lww>) -> Map<Seq<char>, Lww> {
    Map::new(
        |k: Seq<char>| m.contains_key(k) || n.contains_key(k),
        |k: Seq<char>|
            if m.contains_key(k) && n.contains_key(k) {
                merged(m[k], n[k])
            } else if m.contains_key(k) {
                m[k]
            } else {
                n[k]
            },
    )
}

/// No key has, in the two states, different values with the same stamp.
pub open spec fn agree(m: Map<Seq<char>, Lww>, n: Map<Seq<char>, Lww>) -> bool {
    forall|k: Seq<char>| #[trigger]
        m.contains_key(k) && n.contains_key(k) ==> compatible(m[k], n[k])
}

// ── One entry ──────────────────────────────────────────────────────────────

/// A written entry is read back, unless the key already had one at least as new, which is
/// then kept. No other key is touched.
pub proof fn write_then_read(m: Map<Seq<char>, Lww>, k: Seq<char>, v: Lww)
    ensures
        put(m, k, v).contains_key(k),
        !m.contains_key(k) || !stamp_ge(m[k], v) ==> put(m, k, v)[k] == v,
        m.contains_key(k) && stamp_ge(m[k], v) ==> put(m, k, v) == m,
        forall|other: Seq<char>|
            other != k ==> put(m, k, v).contains_key(other) == #[trigger] m.contains_key(other)
                && (m.contains_key(other) ==> put(m, k, v)[other] == m[other]),
{
    if m.contains_key(k) && stamp_ge(m[k], v) {
        assert(put(m, k, v) =~= m);
    }
}

/// A register state is only ever replaced by one with a strictly newer stamp: a second
/// write with a stamp that is already there changes nothing.
pub proof fn change_is_strictly_newer(m: Map<Seq<char>, Lww>, k: Seq<char>, v: Lww)
    requires
        m.contains_key(k),
    ensures
        changes(m, k, v) <==> !stamp_ge(m[k], v),
        changes(m, k, v) ==> put(m, k, v)[k] == v && (v.timestamp != m[k].timestamp
            || v.node_id != m[k].node_id),
{
    stamp_order(m[k], v, v);
    stamp_order(v, m[k], v);
}

// ── Whole deltas ───────────────────────────────────────────────────────────

/// Merging never regresses the state: every key stays, with a register state at least as
/// new as before.
pub proof fn merge_never_regresses(m: Map<Seq<char>, Lww>, delta: Seq<(Seq<char>, Lww)>)
    ensures
        covers(apply(m, delta), m),
    decreases delta.len(),
{
    if delta.len() == 0 {
        assert forall|k: Seq<char>| #[trigger] m.contains_key(k) implies stamp_ge(m[k], m[k]) by {
            stamp_order(m[k], m[k], m[k]);
        }
    } else {
        let before = apply(m, delta.drop_last());
        let (key, v) = delta.last();
        merge_never_regresses(m, delta.drop_last());
        assert forall|k: Seq<char>| #[trigger] m.contains_key(k) implies apply(
            m,
            delta,
        ).contains_key(k) && stamp_ge(apply(m, delta)[k], m[k]) by {
            if k == key {
                merge_dominates(before[k], v);
                stamp_order(apply(m, delta)[k], before[k], m[k]);
            }
        }
    }
}

/// Every merged entry is taken up: its key is there, with a register state at least as new.
pub proof fn merge_takes_up_entries(m: Map<Seq<char>, Lww>, delta: Seq<(Seq<char>, Lww)>)
    ensures
        forall|i: int|
            0 <= i < delta.len() ==> apply(m, delta).contains_key((#[trigger] delta[i]).0)
                && stamp_ge(apply(m, delta)[delta[i].0], delta[i].1),
    decreases delta.len(),
{
    if delta.len() > 0 {
        let shorter = delta.drop_last();
        let before = apply(m, shorter);
        let (key, v) = delta.last();
        merge_takes_up_entries(m, shorter);
        assert forall|i: int| 0 <= i < delta.len() implies apply(m, delta).contains_key(
            (#[trigger] delta[i]).0,
        ) && stamp_ge(apply(m, delta)[delta[i].0], delta[i].1) by {
            let k = delta[i].0;
            if i < delta.len() - 1 {
                assert(delta[i] == shorter[i]);
                if k == key {
                    merge_dominates(before[k], v);
                    stamp_order(apply(m, delta)[k], before[k], delta[i].1);
                }
            } else {
                if before.contains_key(k) {
                    merge_dominates(before[k], v);
                } else {
                    stamp_order(v, v, v);
                }
            }
        }
    }
}

/// Merging makes nothing up: every register state of the result was there before or came
/// with the delta.
pub proof fn merge_makes_nothing_up(m: Map<Seq<char>, Lww>, delta: Seq<(Seq<char>, Lww)>)
    ensures
        forall|k: Seq<char>| #[trigger]
            apply(m, delta).contains_key(k) ==> offers(m, delta, k, apply(m, delta)[k]),
    decreases delta.len(),
{
    if delta.len() > 0 {
        let shorter = delta.drop_last();
        let before = apply(m, shorter);
        let (key, v) = delta.last();
        merge_makes_nothing_up(m, shorter);
        assert forall|k: Seq<char>| #[trigger] apply(m, delta).contains_key(k) implies offers(
            m,
            delta,
            k,
            apply(m, delta)[k],
        ) by {
            let w = apply(m, delta)[k];
            if k == key && w == v {
                assert(delta[delta.len() - 1] == (k, w));
            } else {
                assert(before.contains_key(k) && before[k] == w);
                assert(offers(m, shorter, k, w));
                if shorter.contains((k, w)) {
                    let i = choose|i: int| 0 <= i < shorter.len() && shorter[i] == (k, w);
                    assert(delta[i] == (k, w));
                }
            }
        }
    }
}

/// A delta that brings nothing newer leaves the state as it is.
proof fn lemma_covered_delta(m: Map<Seq<char>, Lww>, delta: Seq<(Seq<char>, Lww)>)
    requires
        forall|i: int|
            0 <= i < delta.len() ==> m.contains_key((#[trigger] delta[i]).0) && stamp_ge(
                m[delta[i].0],
                delta[i].1,
            ),
    ensures
        apply(m, delta) == m,
        changed_keys(m, delta) == Seq::<Seq<char>>::empty(),
    decreases delta.len(),
{
    if delta.len() > 0 {
        let shorter = delta.drop_last();
        assert forall|i: int| 0 <= i < shorter.len() implies m.contains_key(
            (#[trigger] shorter[i]).0,
        ) && stamp_ge(m[shorter[i].0], shorter[i].1) by {
            assert(shorter[i] == delta[i]);
        }
        lemma_covered_delta(m, shorter);
        assert(delta[delta.len() - 1] == delta.last());
        assert(put(m, delta.last().0, delta.last().1) =~= m);
    }
}

/// Merging a delta a second time changes nothing and reports no key.
pub proof fn merge_delta_idempotent(m: Map<Seq<char>, Lww>, delta: Seq<(Seq<char>, Lww)>)
    ensures
        apply(apply(m, delta), delta) == apply(m, delta),
        changed_keys(apply(m, delta), delta) == Seq::<Seq<char>>::empty(),
{
    merge_takes_up_entries(m, delta);
    lemma_covered_delta(apply(m, delta), delta);
}

/// The reported keys are those whose register state is another one than before.
pub proof fn changed_keys_are_those_that_differ(
    m: Map<Seq<char>, Lww>,
    delta: Seq<(Seq<char>, Lww)>,
)
    ensures
        forall|k: Seq<char>| #[trigger]
            changed_keys(m, delta).contains(k) <==> apply(m, delta).contains_key(k) && (
            !m.contains_key(k) || apply(m, delta)[k] != m[k]),
    decreases delta.len(),
{
    if delta.len() > 0 {
        let shorter = delta.drop_last();
        let before = apply(m, shorter);
        let after = apply(m, delta);
        let (key, v) = delta.last();
        let reported = changed_keys(m, shorter);
        changed_keys_are_those_that_differ(m, shorter);
        merge_never_regresses(m, shorter);
        assert forall|k: Seq<char>| #[trigger] changed_keys(m, delta).contains(k) <==> (
        after.contains_key(k) && (!m.contains_key(k) || after[k] != m[k])) by {
            if changes(before, key, v) {
                assert(changed_keys(m, delta) == reported.push(key));
                assert(reported.push(key)[reported.len() as int] == key);
                if reported.contains(k) {
                    let i = choose|i: int| 0 <= i < reported.len() && reported[i] == k;
                    assert(reported.push(key)[i] == k);
                }
                if k == key && m.contains_key(k) {
                    change_is_strictly_newer(before, k, v);
                    stamp_order(before[k], m[k], v);
                }
            } else {
                assert(after =~= before);
            }
        }
    } else {
        assert(apply(m, delta) == m);
    }
}

/// The order in which entries arrive, and how often each arrives, does not matter: two
/// replicas that start from the same state and receive the same entries end in the same
/// state.
pub proof fn order_of_arrival_is_irrelevant(
    m: Map<Seq<char>, Lww>,
    d1: Seq<(Seq<char>, Lww)>,
    d2: Seq<(Seq<char>, Lww)>,
)
    requires
        consistent(m, d1),
        forall|e: (Seq<char>, Lww)| d1.contains(e) <==> d2.contains(e),
    ensures
        apply(m, d1) == apply(m, d2),
{
    let a = apply(m, d1);
    let b = apply(m, d2);
    lemma_best_offer(m, d1);
    lemma_best_offer(m, d2);
    merge_makes_nothing_up(m, d1);
    merge_makes_nothing_up(m, d2);
    assert forall|k: Seq<char>| a.contains_key(k) == b.contains_key(k) by {
        if a.contains_key(k) {
            assert(offers(m, d2, k, a[k]));
        }
        if b.contains_key(k) {
            assert(offers(m, d1, k, b[k]));
        }
    }
    assert forall|k: Seq<char>| #[trigger] a.contains_key(k) implies a[k] == b[k] by {
        assert(b.contains_key(k));
        assert(offers(m, d2, k, a[k]));
        assert(offers(m, d1, k, b[k]));
        stamp_order(a[k], b[k], a[k]);
        assert(compatible(a[k], b[k]));
    }
    assert(a =~= b);
}

/// The result has every key on offer, with a register state at least as new as any offer.
proof fn lemma_best_offer(m: Map<Seq<char>, Lww>, delta: Seq<(Seq<char>, Lww)>)
    ensures
        forall|k: Seq<char>, v: Lww| #[trigger]
            offers(m, delta, k, v) ==> apply(m, delta).contains_key(k) && stamp_ge(
                apply(m, delta)[k],
                v,
            ),
{
    merge_never_regresses(m, delta);
    merge_takes_up_entries(m, delta);
    assert forall|k: Seq<char>, v: Lww| #[trigger] offers(m, delta, k, v) implies apply(
        m,
        delta,
    ).contains_key(k) && stamp_ge(apply(m, delta)[k], v) by {
        if delta.contains((k, v)) {
            let i = choose|i: int| 0 <= i < delta.len() && delta[i] == (k, v);
            assert(delta[i].0 == k);
        }
    }
}

// ── Whole states ───────────────────────────────────────────────────────────

/// Merging a state with itself changes nothing.
pub proof fn join_idempotent(m: Map<Seq<char>, Lww>)
    ensures
        join(m, m) == m,
{
    assert(join(m, m) =~= m);
}

/// The order in which two agreeing states are merged does not matter.
pub proof fn join_commutative(m: Map<Seq<char>, Lww>, n: Map<Seq<char>, Lww>)
    requires
        agree(m, n),
    ensures
        join(m, n) == join(n, m),
{
    assert forall|k: Seq<char>| m.contains_key(k) && n.contains_key(k) implies join(m, n)[k]
        == join(n, m)[k] by {
        merge_commutative(m[k], n[k]);
    }
    assert(join(m, n) =~= join(n, m));
}

/// The grouping in which three states are merged does not matter.
pub proof fn join_associative(
    l: Map<Seq<char>, Lww>,
    m: Map<Seq<char>, Lww>,
    n: Map<Seq<char>, Lww>,
)
    ensures
        join(join(l, m), n) == join(l, join(m, n)),
{
    assert forall|k: Seq<char>|
        l.contains_key(k) && m.contains_key(k) && n.contains_key(k) implies join(join(l, m), n)[k]
        == join(l, join(m, n))[k] by {
        merge_associative(l[k], m[k], n[k]);
    }
    assert(join(join(l, m), n) =~= join(l, join(m, n)));
}

/// Merging a listing of the state `n`, in whatever order, merges the two states.
pub proof fn merging_a_snapshot_joins(
    m: Map<Seq<char>, Lww>,
    n: Map<Seq<char>, Lww>,
    list: Seq<(Seq<char>, Lww)>,
)
    requires
        lists(list, n),
    ensures
        apply(m, list) == join(m, n),
    decreases list.len(),
{
    empty_listing(list, n);
    if list.len() == 0 {
        assert(join(m, n) =~= m);
    } else {
        let (key, v) = list.last();
        let rest = n.remove(key);
        listing_drop_last(list, n);
        merging_a_snapshot_joins(m, rest, list.drop_last());
        assert(put(join(m, rest), key, v) =~= join(m, n));
    }
}

/// Two agreeing replicas that send each other their snapshots end in the same state.
pub proof fn replicas_converge(
    m: Map<Seq<char>, Lww>,
    n: Map<Seq<char>, Lww>,
    list_m: Seq<(Seq<char>, Lww)>,
    list_n: Seq<(Seq<char>, Lww)>,
)
    requires
        agree(m, n),
        lists(list_m, m),
        lists(list_n, n),
    ensures
        apply(m, list_n) == apply(n, list_m),
{
    merging_a_snapshot_joins(m, n, list_n);
    merging_a_snapshot_joins(n, m, list_m);
    join_commutative(m, n);
}

/// Two agreeing replicas that are each at least as new as the other, key by key, are in the
/// same state.
pub proof fn mutual_coverage_is_equality(m: Map<Seq<char>, Lww>, n: Map<Seq<char>, Lww>)
    requires
        agree(m, n),
        covers(m, n),
        covers(n, m),
    ensures
        m == n,
{
    assert forall|k: Seq<char>| m.contains_key(k) == #[trigger] n.contains_key(k) by {}
    assert forall|k: Seq<char>| #[trigger] m.contains_key(k) implies m[k] == n[k] by {
        assert(n.contains_key(k));
        stamp_order(m[k], n[k], m[k]);
    }
    assert(m =~= n);
}

// ── Deltas since a timestamp ───────────────────────────────────────────────

/// Merging the delta since a timestamp, up to which the peer is up to date, merges the two
/// states.
pub proof fn delta_joins(
    own: Map<Seq<char>, Lww>,
    peer: Map<Seq<char>, Lww>,
    since: u64,
    delta: Seq<(Seq<char>, Lww)>,
)
    requires
        forall|k: Seq<char>| #[trigger]
            own.contains_key(k) && own[k].timestamp <= since ==> peer.contains_key(k)
                && stamp_ge(peer[k], own[k]),
        lists(delta, newer_than(own, since)),
    ensures
        apply(peer, delta) == join(peer, own),
{
    merging_a_snapshot_joins(peer, newer_than(own, since), delta);
    assert(join(peer, newer_than(own, since)) =~= join(peer, own));
}

/// A peer that is up to date with the entries up to `since` needs only the later ones: the
/// delta since then brings it to the state that the full snapshot would, and it is then up
/// to date with everything.
pub proof fn delta_is_enough(
    own: Map<Seq<char>, Lww>,
    peer: Map<Seq<char>, Lww>,
    since: u64,
    delta: Seq<(Seq<char>, Lww)>,
    full: Seq<(Seq<char>, Lww)>,
)
    requires
        forall|k: Seq<char>| #[trigger]
            own.contains_key(k) && own[k].timestamp <= since ==> peer.contains_key(k)
                && stamp_ge(peer[k], own[k]),
        lists(delta, newer_than(own, since)),
        lists(full, own),
    ensures
        apply(peer, delta) == apply(peer, full),
        covers(apply(peer, delta), own),
{
    delta_joins(own, peer, since, delta);
    merging_a_snapshot_joins(peer, own, full);
    merge_takes_up_entries(peer, full);
    assert forall|k: Seq<char>| #[trigger] own.contains_key(k) implies apply(
        peer,
        full,
    ).contains_key(k) && stamp_ge(apply(peer, full)[k], own[k]) by {
        let i = choose|i: int| 0 <= i < full.len() && (#[trigger] full[i]).0 == k;
    }
}

/// The delta since 0 is the full state, where every entry carries a timestamp above 0.
pub proof fn delta_since_zero_is_everything(m: Map<Seq<char>, Lww>)
    requires
        forall|k: Seq<char>| #[trigger] m.contains_key(k) ==> m[k].timestamp > 0,
    ensures
        newer_than(m, 0) == m,
{
    assert(newer_than(m, 0) =~= m);
}

/// The delta since the highest timestamp is empty.
pub proof fn delta_since_max_is_empty(m: Map<Seq<char>, Lww>, ts: u64)
    requires
        is_max_timestamp(m, ts),
    ensures
        newer_than(m, ts) == Map::<Seq<char>, Lww>::empty(),
{
    assert(newer_than(m, ts) =~= Map::<Seq<char>, Lww>::empty());
}

/// The highest timestamp never goes down.
pub proof fn max_timestamp_never_decreases(
    m: Map<Seq<char>, Lww>,
    delta: Seq<(Seq<char>, Lww)>,
    before: u64,
    after: u64,
)
    requires
        is_max_timestamp(m, before),
        is_max_timestamp(apply(m, delta), after),
    ensures
        before <= after,
{
    merge_never_regresses(m, delta);
    if before > 0 {
        let k = choose|k: Seq<char>| #[trigger]
            m.contains_key(k) && m[k].timestamp == before;
        assert(apply(m, delta).contains_key(k));
    }
}

// ── What is seen of deltas and events ──────────────────────────────────────

/// A delta is seen entry by entry, each with its key and its register, whole.
pub proof fn deltas_are_seen_whole(delta: Seq<(String, LwwValue)>)
    ensures
        delta_view(delta).len() == delta.len(),
        forall|i: int|
            0 <= i < delta.len() ==> {
                let seen = #[trigger] delta_view(delta)[i];
                &&& seen.0 == delta[i].0@
                &&& seen.1.value == delta[i].1.value@
                &&& seen.1.timestamp == delta[i].1.timestamp
                &&& seen.1.node_id == delta[i].1.node_id@
            },
{
}

/// A list of strings is seen as their texts.
pub proof fn strings_are_seen_whole(list: Seq<String>)
    ensures
        texts(list).len() == list.len(),
        forall|i: int| 0 <= i < list.len() ==> #[trigger] texts(list)[i] == list[i]@,
{
}

/// An event is seen with its key and its register, whole.
pub proof fn events_are_seen_whole(event: StateEvent)
    ensures
        event@.0 == event.key@,
        event@.1.value == event.value.value@,
        event@.1.timestamp == event.value.timestamp,
        event@.1.node_id == event.value.node_id@,
{
}

// ── Writes and merges, one after the other ─────────────────────────────────

/// A write with a later timestamp than anything the key has had is read back, whatever was
/// written before it.
pub proof fn the_last_of_two_writes_is_read_back(
    m: Map<Seq<char>, Lww>,
    k: Seq<char>,
    first: Lww,
    second: Lww,
)
    requires
        first.timestamp < second.timestamp,
        m.contains_key(k) ==> m[k].timestamp < second.timestamp,
    ensures
        put(put(m, k, first), k, second).contains_key(k),
        put(put(m, k, first), k, second)[k] == second,
        put(m, k, second)[k] == second,
{
    the_later_timestamp_wins(second, first);
    if m.contains_key(k) {
        the_later_timestamp_wins(second, m[k]);
    }
}

/// Of two writes to a key that had nothing newer, made at least a microsecond apart by the
/// clock, the later one is read back: nobody loses a write to an earlier one.
pub proof fn a_microsecond_decides(
    m: Map<Seq<char>, Lww>,
    k: Seq<char>,
    first: Lww,
    second: Lww,
    t1: SystemTime,
    d1: Duration,
    t2: SystemTime,
    d2: Duration,
)
    requires
        since_epoch(t1) == Some(d1),
        since_epoch(t2) == Some(d2),
        nanos_of(d1) + 1_000 <= nanos_of(d2),
        nanos_of(d2) < 0x1_0000_0000_0000_0000 * 1_000,
        micros_at(t1) == Some(first.timestamp),
        micros_at(t2) == Some(second.timestamp),
        m.contains_key(k) ==> m[k].timestamp < second.timestamp,
    ensures
        put(put(m, k, first), k, second)[k] == second,
{
    readings_follow_the_clock(t1, d1, t2, d2);
    the_last_of_two_writes_is_read_back(m, k, first, second);
}

/// A write is never turned away for a key that has nothing, and leaves the other keys alone.
pub proof fn a_first_write_is_read_back(m: Map<Seq<char>, Lww>, k: Seq<char>, v: Lww)
    requires
        !m.contains_key(k),
    ensures
        put(m, k, v) == m.insert(k, v),
        changes(m, k, v),
{
}

/// An older write, and one with the stamp that is there, change nothing and are not reported.
pub proof fn an_older_write_changes_nothing(m: Map<Seq<char>, Lww>, k: Seq<char>, v: Lww)
    requires
        m.contains_key(k),
        v.timestamp < m[k].timestamp || (v.timestamp == m[k].timestamp && v.node_id
            == m[k].node_id),
    ensures
        put(m, k, v) == m,
        !changes(m, k, v),
{
    if v.timestamp < m[k].timestamp {
        the_later_timestamp_wins(m[k], v);
    } else {
        the_first_of_two_equal_stamps_stays(m[k], v);
    }
    assert(put(m, k, v) =~= m);
}

/// Merging nothing changes nothing.
pub proof fn merging_nothing_changes_nothing(m: Map<Seq<char>, Lww>)
    ensures
        apply(m, Seq::<(Seq<char>, Lww)>::empty()) == m,
        changed_keys(m, Seq::<(Seq<char>, Lww)>::empty()) == Seq::<Seq<char>>::empty(),
{
}

/// Merging one entry writes it, and reports its key where the key then holds something else.
pub proof fn merging_one_entry_writes_it(m: Map<Seq<char>, Lww>, k: Seq<char>, v: Lww)
    ensures
        apply(m, seq![(k, v)]) == put(m, k, v),
        changed_keys(m, seq![(k, v)]) == if put(m, k, v) == m {
            Seq::<Seq<char>>::empty()
        } else {
            seq![k]
        },
{
    let one = seq![(k, v)];
    assert(one.drop_last() =~= Seq::<(Seq<char>, Lww)>::empty());
    assert(apply(m, one.drop_last()) == m);
    if put(m, k, v) == m {
        assert(m.contains_key(k));
    }
    if !changes(m, k, v) {
        assert(put(m, k, v) =~= m);
    }
    assert(changed_keys(m, one.drop_last()) =~= Seq::<Seq<char>>::empty());
    assert(Seq::<Seq<char>>::empty().push(k) =~= seq![k]);
}

/// A delta can be merged in pieces: the parts have the effect of the whole, and report what the
/// whole reports, in its order.
pub proof fn merging_in_pieces_is_merging(
    m: Map<Seq<char>, Lww>,
    a: Seq<(Seq<char>, Lww)>,
    b: Seq<(Seq<char>, Lww)>,
)
    ensures
        apply(m, a + b) == apply(apply(m, a), b),
        changed_keys(m, a + b) == changed_keys(m, a) + changed_keys(apply(m, a), b),
    decreases b.len(),
{
    if b.len() == 0 {
        assert(a + b =~= a);
        assert(changed_keys(m, a) + changed_keys(apply(m, a), b) =~= changed_keys(m, a));
    } else {
        assert((a + b).drop_last() =~= a + b.drop_last());
        assert((a + b).last() == b.last());
        merging_in_pieces_is_merging(m, a, b.drop_last());
        assert(changed_keys(m, a + b) =~= changed_keys(m, a) + changed_keys(apply(m, a), b));
    }
}

// ── What later than a timestamp means ──────────────────────────────────────

/// The delta since a timestamp holds an entry exactly where its timestamp is later, and holds
/// it unchanged.
pub proof fn deltas_hold_the_later_entries(m: Map<Seq<char>, Lww>, since: u64)
    ensures
        forall|k: Seq<char>| #[trigger]
            newer_than(m, since).contains_key(k) <==> m.contains_key(k) && m[k].timestamp > since,
        forall|k: Seq<char>| #[trigger]
            newer_than(m, since).contains_key(k) ==> newer_than(m, since)[k] == m[k],
{
}

/// Where two timestamps follow each other, the delta since the first holds that since the
/// second, and what lies in between.
pub proof fn deltas_shrink_with_time(m: Map<Seq<char>, Lww>, earlier: u64, later: u64)
    requires
        earlier <= later,
    ensures
        newer_than(newer_than(m, earlier), later) == newer_than(m, later),
        newer_than(m, later).submap_of(newer_than(m, earlier)),
{
    assert(newer_than(newer_than(m, earlier), later) =~= newer_than(m, later));
}

/// The highest timestamp is that of some entry, no entry has a later one, and there is only one
/// such timestamp; without entries it is 0.
pub proof fn the_highest_timestamp_is_attained(m: Map<Seq<char>, Lww>, ts: u64, other: u64)
    requires
        is_max_timestamp(m, ts),
    ensures
        forall|k: Seq<char>| #[trigger] m.contains_key(k) ==> m[k].timestamp <= ts,
        m == Map::<Seq<char>, Lww>::empty() ==> ts == 0,
        m != Map::<Seq<char>, Lww>::empty() ==> exists|k: Seq<char>| #[trigger]
            m.contains_key(k) && m[k].timestamp == ts,
        is_max_timestamp(m, other) ==> other == ts,
{
    let none = Map::<Seq<char>, Lww>::empty();
    if m != none {
        if forall|k: Seq<char>| !m.contains_key(k) {
            assert(m =~= none);
        }
        let k = choose|k: Seq<char>| m.contains_key(k);
        assert(m.contains_key(k));
        if ts == 0 {
            assert(m[k].timestamp == 0);
        }
    }
}

/// A timestamp that some entry has, and no entry passes, is the highest one.
pub proof fn what_no_entry_passes_is_the_highest(m: Map<Seq<char>, Lww>, k: Seq<char>)
    requires
        m.contains_key(k),
        forall|other: Seq<char>| #[trigger]
            m.contains_key(other) ==> m[other].timestamp <= m[k].timestamp,
    ensures
        is_max_timestamp(m, m[k].timestamp),
{
}

} // verus!
