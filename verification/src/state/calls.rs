//! What calls of this module's functions come to, and how two calls relate.

use std::time::SystemTime;
use tokio::sync::broadcast;
use vstd::prelude::*;
use crate::clock::{micros_at, nanos_of, readings_are_whole_microseconds, since_epoch};
use crate::error::EngineError;
use crate::listing::listings_say_what_the_map_says;
use crate::state::crdt::{
    equal_registers_hold_the_same, now_micros, the_first_of_two_equal_stamps_stays,
    the_higher_writer_wins_a_tie, the_later_timestamp_wins, Lww, LwwValue,
};
use crate::state::laws::{
    changed_keys_are_those_that_differ, deltas_are_seen_whole, merge_makes_nothing_up,
    merge_never_regresses, merge_takes_up_entries,
};
use crate::state::snapshot::{
    bytes_are_read_by_their_beginning, delta_from_decoded, delta_of, deserialize_delta, from_rows,
    read_delta, row_view, rows_view, serialize_delta, to_rows, Row,
};
use crate::state::store::{
    apply, changed_keys, delta_view, events_before, put, texts, StateDelta, StateEvent, StateStore,
};

verus! {

// ── Registers ──────────────────────────────────────────────────────────────

/// A call of `now_micros` gives the whole microseconds that some reading of the clock lies
/// after the UNIX epoch, or nothing where it lies before.
pub proof fn now_is_a_reading_of_the_clock(r: Option<u64>)
    requires
        call_ensures(now_micros, (), r),
    ensures
        exists|t: SystemTime|
            match #[trigger] since_epoch(t) {
                Some(d) => r is Some && (nanos_of(d) < 0x1_0000_0000_0000_0000 * 1_000 ==> r->0
                    * 1_000 <= nanos_of(d) < (r->0 + 1) * 1_000),
                None => r is None,
            },
{
    let t = choose|t: SystemTime| r == #[trigger] micros_at(t);
    if let Some(d) = since_epoch(t) {
        if nanos_of(d) < 0x1_0000_0000_0000_0000 * 1_000 {
            readings_are_whole_microseconds(t, d);
        }
    }
}

/// A call of `LwwValue::new` keeps the value and the writer, and stamps them with a reading of
/// the clock.
pub proof fn new_registers_are_stamped_by_the_clock(
    value: String,
    node_id: String,
    r: Option<LwwValue>,
)
    requires
        call_ensures(LwwValue::new, (value, node_id), r),
    ensures
        r is Some ==> r->0.value@ == value@ && r->0.node_id@ == node_id@,
        exists|t: SystemTime|
            match #[trigger] since_epoch(t) {
                Some(d) => r is Some && (nanos_of(d) < 0x1_0000_0000_0000_0000 * 1_000
                    ==> r->0.timestamp * 1_000 <= nanos_of(d) < (r->0.timestamp + 1) * 1_000),
                None => r is None,
            },
{
    let t = choose|t: SystemTime|
        match #[trigger] micros_at(t) {
            Some(timestamp) => r == Some(LwwValue { value, timestamp, node_id }),
            None => r is None,
        };
    if let Some(d) = since_epoch(t) {
        if nanos_of(d) < 0x1_0000_0000_0000_0000 * 1_000 {
            readings_are_whole_microseconds(t, d);
        }
    }
}

/// Of two registers a call of `merge` gives the one with the later timestamp, on a tie the one
/// by the higher node, and the first where the stamps are the same. It gives it whole.
pub proof fn merge_gives_the_winner(a: &LwwValue, b: &LwwValue, r: LwwValue, i: int)
    requires
        call_ensures(LwwValue::merge, (a, b), r),
    ensures
        a.timestamp > b.timestamp ==> r == *a,
        a.timestamp < b.timestamp ==> r@ == b@ && (r == *a || r == *b),
        a.timestamp == b.timestamp && a.node_id@ == b.node_id@ ==> r@ == a@,
        a.timestamp == b.timestamp && 0 <= i < a.node_id@.len() && i <= b.node_id@.len() && (
        forall|j: int| 0 <= j < i ==> a.node_id@[j] == b.node_id@[j]) && (i == b.node_id@.len()
            || a.node_id@[i] > b.node_id@[i]) ==> r@ == a@,
        a.timestamp == b.timestamp && 0 <= i < b.node_id@.len() && i <= a.node_id@.len() && (
        forall|j: int| 0 <= j < i ==> b.node_id@[j] == a.node_id@[j]) && (i == a.node_id@.len()
            || b.node_id@[i] > a.node_id@[i]) ==> r@ == b@,
        r.value@ == a.value@ && r.timestamp == a.timestamp && r.node_id@ == a.node_id@ || (r.value@
            == b.value@ && r.timestamp == b.timestamp && r.node_id@ == b.node_id@),
{
    if a.timestamp > b.timestamp {
        the_later_timestamp_wins(a@, b@);
    }
    if a.timestamp < b.timestamp {
        the_later_timestamp_wins(b@, a@);
    }
    if a.timestamp == b.timestamp && a.node_id@ == b.node_id@ {
        the_first_of_two_equal_stamps_stays(a@, b@);
    }
    if a.timestamp == b.timestamp && 0 <= i < a.node_id@.len() && i <= b.node_id@.len() && (
    forall|j: int| 0 <= j < i ==> a.node_id@[j] == b.node_id@[j]) && (i == b.node_id@.len()
        || a.node_id@[i] > b.node_id@[i]) {
        the_higher_writer_wins_a_tie(a@, b@, i);
    }
    if a.timestamp == b.timestamp && 0 <= i < b.node_id@.len() && i <= a.node_id@.len() && (
    forall|j: int| 0 <= j < i ==> b.node_id@[j] == a.node_id@[j]) && (i == a.node_id@.len()
        || b.node_id@[i] > a.node_id@[i]) {
        the_higher_writer_wins_a_tie(b@, a@, i);
    }
}

/// A register is dominated by another one exactly where a merge of the two would give that
/// one, and it is not the same in stamp.
pub proof fn domination_is_losing_a_merge(a: &LwwValue, b: &LwwValue, r: bool, m: LwwValue)
    requires
        call_ensures(LwwValue::is_dominated_by, (a, b), r),
        call_ensures(LwwValue::merge, (a, b), m),
    ensures
        r ==> m@ == b@ && (a.timestamp, a.node_id@) != (b.timestamp, b.node_id@),
        !r ==> m@ == a@,
        a.timestamp < b.timestamp ==> r,
        a.timestamp > b.timestamp ==> !r,
{
    if a.timestamp < b.timestamp {
        the_later_timestamp_wins(b@, a@);
    }
    if a.timestamp > b.timestamp {
        the_later_timestamp_wins(a@, b@);
    }
    if a.timestamp == b.timestamp && a.node_id@ == b.node_id@ {
        the_first_of_two_equal_stamps_stays(a@, b@);
    }
}

// ── Reading a store ────────────────────────────────────────────────────────

/// A new store is empty, belongs to the node given, and has sent nothing.
pub proof fn new_stores_are_empty(node_id: String, capacity: usize, s: StateStore)
    requires
        call_ensures(StateStore::new, (node_id, capacity), s),
    ensures
        s.wf(),
        forall|k: Seq<char>| !#[trigger] s@.contains_key(k),
        s.id() == node_id@,
        s.sent().len() == 0,
        s.capacity() == capacity,
{
}

/// A call of `get` gives what the store holds under the key, whole, and nothing where it holds
/// nothing.
pub proof fn get_gives_what_the_store_holds(s: &StateStore, key: &str, r: Option<LwwValue>)
    requires
        call_ensures(StateStore::get, (s, key), r),
    ensures
        r is Some <==> s@.contains_key(key@),
        r is Some ==> r->0.value@ == s@[key@].value && r->0.timestamp == s@[key@].timestamp
            && r->0.node_id@ == s@[key@].node_id,
{
}

/// A snapshot holds every entry of the store once, whole, and nothing else.
pub proof fn snapshots_hold_every_entry(s: &StateStore, r: StateDelta)
    requires
        call_ensures(StateStore::snapshot, (s,), r),
    ensures
        r@.len() == s@.len(),
        forall|i: int|
            0 <= i < r@.len() ==> {
                let k = (#[trigger] r@[i]).0@;
                &&& s@.contains_key(k)
                &&& r@[i].1.value@ == s@[k].value
                &&& r@[i].1.timestamp == s@[k].timestamp
                &&& r@[i].1.node_id@ == s@[k].node_id
            },
        forall|k: Seq<char>| #[trigger]
            s@.contains_key(k) ==> exists|i: int| 0 <= i < r@.len() && (#[trigger] r@[i]).0@ == k,
{
    let d = delta_view(r@);
    listings_say_what_the_map_says(d, s@);
    assert forall|i: int| 0 <= i < r@.len() implies {
        let k = (#[trigger] r@[i]).0@;
        &&& s@.contains_key(k)
        &&& r@[i].1.value@ == s@[k].value
        &&& r@[i].1.timestamp == s@[k].timestamp
        &&& r@[i].1.node_id@ == s@[k].node_id
    } by {
        assert(d[i] == (r@[i].0@, r@[i].1@));
        assert(d.contains((r@[i].0@, r@[i].1@)));
    }
    assert forall|k: Seq<char>| #[trigger] s@.contains_key(k) implies exists|i: int|
        0 <= i < r@.len() && (#[trigger] r@[i]).0@ == k by {
        let i = choose|i: int| 0 <= i < d.len() && (#[trigger] d[i]).0 == k && d[i].1 == s@[k];
        assert(r@[i].0@ == k);
    }
}

/// A delta since a timestamp holds every later entry of the store once, whole, and nothing
/// else.
pub proof fn deltas_hold_every_later_entry(s: &StateStore, since: u64, r: StateDelta)
    requires
        call_ensures(StateStore::delta_since, (s, since), r),
    ensures
        forall|i: int|
            0 <= i < r@.len() ==> {
                let k = (#[trigger] r@[i]).0@;
                &&& s@.contains_key(k)
                &&& s@[k].timestamp > since
                &&& r@[i].1.value@ == s@[k].value
                &&& r@[i].1.timestamp == s@[k].timestamp
                &&& r@[i].1.node_id@ == s@[k].node_id
            },
        forall|k: Seq<char>| #[trigger]
            s@.contains_key(k) && s@[k].timestamp > since ==> exists|i: int|
                0 <= i < r@.len() && (#[trigger] r@[i]).0@ == k,
        forall|i: int, j: int|
            0 <= i < j < r@.len() ==> (#[trigger] r@[i]).0@ != (#[trigger] r@[j]).0@,
{
    let d = delta_view(r@);
    let m = crate::state::store::newer_than(s@, since);
    listings_say_what_the_map_says(d, m);
    assert forall|i: int| 0 <= i < r@.len() implies {
        let k = (#[trigger] r@[i]).0@;
        &&& s@.contains_key(k)
        &&& s@[k].timestamp > since
        &&& r@[i].1.value@ == s@[k].value
        &&& r@[i].1.timestamp == s@[k].timestamp
        &&& r@[i].1.node_id@ == s@[k].node_id
    } by {
        assert(d[i] == (r@[i].0@, r@[i].1@));
        assert(d.contains((r@[i].0@, r@[i].1@)));
    }
    assert forall|k: Seq<char>| #[trigger]
        s@.contains_key(k) && s@[k].timestamp > since implies exists|i: int|
        0 <= i < r@.len() && (#[trigger] r@[i]).0@ == k by {
        assert(m.contains_key(k));
        let i = choose|i: int| 0 <= i < d.len() && (#[trigger] d[i]).0 == k && d[i].1 == m[k];
        assert(r@[i].0@ == k);
    }
    assert forall|i: int, j: int| 0 <= i < j < r@.len() implies (#[trigger] r@[i]).0@ != (
    #[trigger] r@[j]).0@ by {
        assert(d[i].0 == r@[i].0@ && d[j].0 == r@[j].0@);
    }
}

/// The highest timestamp, the number of keys, emptiness and the node are those of the store.
pub proof fn stores_tell_their_size_and_node(
    s: &StateStore,
    ts: u64,
    n: usize,
    empty: bool,
    id: &str,
)
    requires
        call_ensures(StateStore::max_timestamp, (s,), ts),
        call_ensures(StateStore::len, (s,), n),
        call_ensures(StateStore::is_empty, (s,), empty),
        call_ensures(StateStore::node_id, (s,), id),
    ensures
        forall|k: Seq<char>| #[trigger] s@.contains_key(k) ==> s@[k].timestamp <= ts,
        ts > 0 ==> exists|k: Seq<char>| #[trigger] s@.contains_key(k) && s@[k].timestamp == ts,
        n == s@.len(),
        empty <==> forall|k: Seq<char>| !#[trigger] s@.contains_key(k),
        id@ == s.id(),
{
    if forall|k: Seq<char>| !#[trigger] s@.contains_key(k) {
        assert(s@ =~= Map::<Seq<char>, Lww>::empty());
    }
}

// ── Writing to a store ─────────────────────────────────────────────────────

/// A write puts the value under its key, stamped with the time and the node, where the key had
/// nothing as late; where it had something later nothing changes. No other key is touched. What
/// the key then has is returned and sent out, once.
pub proof fn writes_go_under_their_key(
    s: &mut StateStore,
    key: String,
    value: String,
    timestamp: u64,
    r: LwwValue,
)
    requires
        call_ensures(StateStore::set_at, (s, key, value, timestamp), r),
    ensures
        final(s).wf(),
        final(s)@.contains_key(key@),
        !old(s)@.contains_key(key@) || old(s)@[key@].timestamp < timestamp ==> final(s)@[key@]
            == (Lww { value: value@, timestamp, node_id: old(s).id() }),
        old(s)@.contains_key(key@) && (old(s)@[key@].timestamp > timestamp || (old(
            s,
        )@[key@].timestamp == timestamp && old(s)@[key@].node_id == old(s).id())) ==> final(s)@
            == old(s)@,
        forall|other: Seq<char>|
            other != key@ ==> (final(s)@.contains_key(other) <==> #[trigger] old(s)@.contains_key(
                other,
            )) && (old(s)@.contains_key(other) ==> final(s)@[other] == old(s)@[other]),
        r.value@ == final(s)@[key@].value,
        r.timestamp == final(s)@[key@].timestamp,
        r.node_id@ == final(s)@[key@].node_id,
        final(s).sent() == old(s).sent().push((key@, final(s)@[key@])),
        final(s).id() == old(s).id(),
        final(s).capacity() == old(s).capacity(),
{
    let m = old(s)@;
    let entry = Lww { value: value@, timestamp, node_id: old(s).id() };
    if m.contains_key(key@) {
        if m[key@].timestamp < timestamp {
            the_later_timestamp_wins(entry, m[key@]);
        } else if m[key@].timestamp > timestamp {
            the_later_timestamp_wins(m[key@], entry);
            assert(put(m, key@, entry) =~= m);
        } else if m[key@].node_id == old(s).id() {
            the_first_of_two_equal_stamps_stays(m[key@], entry);
            assert(put(m, key@, entry) =~= m);
        }
    }
}

/// A write is stamped with a reading of the clock in whole microseconds, and is otherwise a
/// write at that time; without a reading nothing happens.
pub proof fn writes_are_stamped_by_the_clock(
    s: &mut StateStore,
    key: String,
    value: String,
    r: Option<LwwValue>,
)
    requires
        call_ensures(StateStore::set, (s, key, value), r),
        !old(s)@.contains_key(key@),
    ensures
        final(s).wf(),
        r is None ==> final(s)@ == old(s)@ && final(s).sent() == old(s).sent(),
        r is Some ==> {
            &&& final(s)@ == old(s)@.insert(key@, r->0@)
            &&& r->0.value@ == value@
            &&& r->0.node_id@ == old(s).id()
            &&& final(s).sent() == old(s).sent().push((key@, r->0@))
        },
        final(s).id() == old(s).id(),
        exists|t: SystemTime|
            match #[trigger] since_epoch(t) {
                Some(d) => r is Some && (nanos_of(d) < 0x1_0000_0000_0000_0000 * 1_000
                    ==> r->0.timestamp * 1_000 <= nanos_of(d) < (r->0.timestamp + 1) * 1_000),
                None => r is None,
            },
{
    let t = choose|t: SystemTime|
        match #[trigger] micros_at(t) {
            Some(timestamp) => {
                &&& final(s)@ == put(
                    old(s)@,
                    key@,
                    Lww { value: value@, timestamp, node_id: old(s).id() },
                )
                &&& r is Some
                &&& r->0@ == final(s)@[key@]
                &&& final(s).sent() == old(s).sent().push((key@, final(s)@[key@]))
            },
            None => {
                &&& r is None
                &&& final(s)@ == old(s)@
                &&& final(s).sent() == old(s).sent()
            },
        };
    if let Some(d) = since_epoch(t) {
        if nanos_of(d) < 0x1_0000_0000_0000_0000 * 1_000 {
            readings_are_whole_microseconds(t, d);
        }
    }
}

/// After two writes to a key, the second later than the first and than what was there, the
/// second one is read back.
pub proof fn the_second_of_two_writes_is_read_back(
    s: &mut StateStore,
    between: &mut StateStore,
    after: &StateStore,
    key: String,
    first: String,
    second: String,
    t1: u64,
    t2: u64,
    r1: LwwValue,
    r2: LwwValue,
    k: &str,
    read: Option<LwwValue>,
)
    requires
        call_ensures(StateStore::set_at, (s, key, first, t1), r1),
        *old(between) == *final(s),
        call_ensures(StateStore::set_at, (between, key, second, t2), r2),
        *after == *final(between),
        call_ensures(StateStore::get, (after, k), read),
        k@ == key@,
        t1 < t2,
        old(s)@.contains_key(key@) ==> old(s)@[key@].timestamp < t2,
    ensures
        read is Some,
        read->0.value@ == second@,
        read->0.timestamp == t2,
{
    let m = old(s)@;
    let e1 = Lww { value: first@, timestamp: t1, node_id: old(s).id() };
    let e2 = Lww { value: second@, timestamp: t2, node_id: old(s).id() };
    the_later_timestamp_wins(e2, e1);
    if m.contains_key(key@) {
        the_later_timestamp_wins(e2, m[key@]);
    }
}

/// A merge takes up every entry that is later than what its key has, keeps what is later, makes
/// nothing up, reports the keys whose entry is another one than before, and sends out what
/// those keys then have.
pub proof fn merges_take_up_what_is_later(
    s: &mut StateStore,
    delta: StateDelta,
    r: Vec<String>,
)
    requires
        call_ensures(StateStore::merge_delta, (s, delta), r),
    ensures
        final(s).wf(),
        forall|i: int|
            0 <= i < delta@.len() ==> {
                let k = (#[trigger] delta@[i]).0@;
                &&& final(s)@.contains_key(k)
                &&& final(s)@[k].timestamp >= delta@[i].1.timestamp
            },
        forall|k: Seq<char>| #[trigger]
            old(s)@.contains_key(k) ==> final(s)@.contains_key(k) && final(s)@[k].timestamp >= old(
                s,
            )@[k].timestamp,
        forall|k: Seq<char>| #[trigger]
            final(s)@.contains_key(k) ==> (old(s)@.contains_key(k) && old(s)@[k] == final(s)@[k])
                || exists|i: int|
                0 <= i < delta@.len() && (#[trigger] delta@[i]).0@ == k && delta@[i].1@
                    == final(s)@[k],
        forall|k: Seq<char>| #[trigger]
            final(s)@.contains_key(k) && (!old(s)@.contains_key(k) || old(s)@[k] != final(s)@[k])
                ==> exists|i: int| 0 <= i < r@.len() && (#[trigger] r@[i])@ == k,
        forall|i: int|
            0 <= i < r@.len() ==> final(s)@.contains_key((#[trigger] r@[i])@) && (!old(
                s,
            )@.contains_key(r@[i]@) || old(s)@[r@[i]@] != final(s)@[r@[i]@]),
        final(s).sent().len() == old(s).sent().len() + r@.len(),
        forall|i: int|
            0 <= i < old(s).sent().len() ==> #[trigger] final(s).sent()[i] == old(s).sent()[i],
        forall|i: int|
            0 <= i < r@.len() ==> final(s).sent()[old(s).sent().len() + i] == (
                (#[trigger] r@[i])@,
                final(s)@[r@[i]@],
            ),
        final(s).id() == old(s).id(),
        final(s).capacity() == old(s).capacity(),
{
    let m = old(s)@;
    let d = delta_view(delta@);
    let after = final(s)@;
    merge_takes_up_entries(m, d);
    merge_never_regresses(m, d);
    merge_makes_nothing_up(m, d);
    changed_keys_are_those_that_differ(m, d);
    assert(after == apply(m, d));
    assert(texts(r@) == changed_keys(m, d));
    assert forall|i: int| 0 <= i < delta@.len() implies {
        let k = (#[trigger] delta@[i]).0@;
        &&& after.contains_key(k)
        &&& after[k].timestamp >= delta@[i].1.timestamp
    } by {
        assert(d[i] == (delta@[i].0@, delta@[i].1@));
    }
    assert forall|k: Seq<char>| #[trigger] after.contains_key(k) implies (m.contains_key(k) && m[k]
        == after[k]) || exists|i: int|
        0 <= i < delta@.len() && (#[trigger] delta@[i]).0@ == k && delta@[i].1@ == after[k] by {
        assert(crate::state::laws::offers(m, d, k, after[k]));
        if d.contains((k, after[k])) {
            let i = choose|i: int| 0 <= i < d.len() && d[i] == (k, after[k]);
            assert(delta@[i].0@ == k && delta@[i].1@ == after[k]);
        }
    }
    assert forall|k: Seq<char>| #[trigger]
        after.contains_key(k) && (!m.contains_key(k) || m[k] != after[k]) implies exists|i: int|
        0 <= i < r@.len() && (#[trigger] r@[i])@ == k by {
        assert(changed_keys(m, d).contains(k));
        let i = choose|i: int| 0 <= i < texts(r@).len() && texts(r@)[i] == k;
        assert(r@[i]@ == k);
    }
    assert forall|i: int| 0 <= i < r@.len() implies after.contains_key((#[trigger] r@[i])@) && (
    !m.contains_key(r@[i]@) || m[r@[i]@] != after[r@[i]@]) by {
        assert(texts(r@)[i] == r@[i]@);
        assert(changed_keys(m, d).contains(r@[i]@));
    }
    let events = texts(r@).map_values(|k: Seq<char>| (k, after[k]));
    assert(final(s).sent() == old(s).sent() + events);
    assert forall|i: int| 0 <= i < r@.len() implies final(s).sent()[old(s).sent().len() + i] == (
        (#[trigger] r@[i])@,
        after[r@[i]@],
    ) by {
        assert(events[i] == (r@[i]@, after[r@[i]@]));
    }
}

/// A subscriber receives what is sent after it subscribed: nothing from before.
pub proof fn subscribers_start_with_the_next_event(
    s: &StateStore,
    rx: broadcast::Receiver<StateEvent>,
)
    requires
        call_ensures(StateStore::subscribe, (s,), rx),
    ensures
        events_before(rx) == s.sent(),
{
}

// ── Deltas as bytes ────────────────────────────────────────────────────────

/// What was serialised is read back, entry by entry and in its order; a part that stops short
/// of the end is refused.
pub proof fn serialised_deltas_are_read_back(
    delta: &StateDelta,
    bytes: Result<Vec<u8>, EngineError>,
    read: &[u8],
    back: Result<StateDelta, EngineError>,
)
    requires
        call_ensures(serialize_delta, (delta,), bytes),
        call_ensures(deserialize_delta, (read,), back),
    ensures
        bytes is Ok,
        read@ == bytes->Ok_0@ ==> back is Ok && back->Ok_0@.len() == delta@.len() && forall|i: int|
            0 <= i < delta@.len() ==> {
                let e = #[trigger] back->Ok_0@[i];
                &&& e.0@ == delta@[i].0@
                &&& e.1.value@ == delta@[i].1.value@
                &&& e.1.timestamp == delta@[i].1.timestamp
                &&& e.1.node_id@ == delta@[i].1.node_id@
            },
        read@.len() < bytes->Ok_0@.len() && read@.is_prefix_of(bytes->Ok_0@) ==> back is Err,
        back is Err ==> back->Err_0 is Serialization,
{
    let written = bytes->Ok_0@;
    if read@ == written {
        deltas_are_seen_whole(delta@);
        deltas_are_seen_whole(back->Ok_0@);
        assert(delta_view(back->Ok_0@) == delta_view(delta@));
        assert forall|i: int| 0 <= i < delta@.len() implies {
            let e = #[trigger] back->Ok_0@[i];
            &&& e.0@ == delta@[i].0@
            &&& e.1.value@ == delta@[i].1.value@
            &&& e.1.timestamp == delta@[i].1.timestamp
            &&& e.1.node_id@ == delta@[i].1.node_id@
        } by {
            assert(delta_view(back->Ok_0@)[i] == delta_view(delta@)[i]);
        }
    }
    if read@.len() < written.len() && read@.is_prefix_of(written) {
        assert(read@ =~= written.take(read@.len() as int));
        assert(read_delta(written.take(read@.len() as int)) is None);
    }
}

/// Rows that were decoded become entries one by one; an error in decoding is passed on with
/// what it was about.
pub proof fn decoded_rows_become_entries(
    decoded: Result<Vec<Row>, String>,
    r: Result<StateDelta, EngineError>,
)
    requires
        call_ensures(delta_from_decoded, (decoded,), r),
    ensures
        decoded is Ok <==> r is Ok,
        decoded is Ok ==> r->Ok_0@.len() == decoded->Ok_0@.len() && forall|i: int|
            0 <= i < r->Ok_0@.len() ==> {
                let e = #[trigger] r->Ok_0@[i];
                &&& e.0@ == decoded->Ok_0@[i].0@
                &&& e.1.value@ == decoded->Ok_0@[i].1@
                &&& e.1.timestamp == decoded->Ok_0@[i].2
                &&& e.1.node_id@ == decoded->Ok_0@[i].3@
            },
        decoded is Err ==> r->Err_0 is Serialization && r->Err_0->Serialization_0@
            == "snapshot deserialize: "@ + decoded->Err_0@,
{
    if decoded is Ok {
        let d = delta_view(r->Ok_0@);
        assert(d.len() == r->Ok_0@.len());
        assert forall|i: int| 0 <= i < r->Ok_0@.len() implies {
            let e = #[trigger] r->Ok_0@[i];
            &&& e.0@ == decoded->Ok_0@[i].0@
            &&& e.1.value@ == decoded->Ok_0@[i].1@
            &&& e.1.timestamp == decoded->Ok_0@[i].2
            &&& e.1.node_id@ == decoded->Ok_0@[i].3@
        } by {
            assert(d[i] == (r->Ok_0@[i].0@, r->Ok_0@[i].1@));
        }
    }
}

/// Bytes that begin with what a delta was serialised to are read as that delta, whatever
/// follows; and where a delta is read from bytes, they begin with what it is serialised to.
pub proof fn what_follows_a_serialised_delta_does_not_matter(
    delta: &StateDelta,
    bytes: Result<Vec<u8>, EngineError>,
    read: &[u8],
    back: Result<StateDelta, EngineError>,
)
    requires
        call_ensures(serialize_delta, (delta,), bytes),
        call_ensures(deserialize_delta, (read,), back),
    ensures
        bytes->Ok_0@.is_prefix_of(read@) <==> back is Ok && delta_view(back->Ok_0@) == delta_view(
            delta@,
        ),
{
    assert(read.len() <= u64::MAX);
    assert(read@.len() == read.len());
    bytes_are_read_by_their_beginning(read@, delta_view(delta@));
}

/// Rows are made from entries one by one and in their order, and entries from rows.
pub proof fn rows_and_entries_say_the_same(
    delta: &StateDelta,
    rows: Vec<Row>,
    given: &Vec<Row>,
    made: StateDelta,
)
    requires
        call_ensures(to_rows, (delta,), rows),
        call_ensures(from_rows, (given,), made),
    ensures
        rows@.len() == delta@.len(),
        forall|i: int|
            0 <= i < rows@.len() ==> {
                let r = #[trigger] rows@[i];
                &&& r.0@ == delta@[i].0@
                &&& r.1@ == delta@[i].1.value@
                &&& r.2 == delta@[i].1.timestamp
                &&& r.3@ == delta@[i].1.node_id@
            },
        made@.len() == given@.len(),
        forall|i: int|
            0 <= i < made@.len() ==> {
                let e = #[trigger] made@[i];
                &&& e.0@ == given@[i].0@
                &&& e.1.value@ == given@[i].1@
                &&& e.1.timestamp == given@[i].2
                &&& e.1.node_id@ == given@[i].3@
            },
{
    deltas_are_seen_whole(delta@);
    deltas_are_seen_whole(made@);
    assert(rows_view(rows@).len() == rows@.len());
    assert(delta_of(rows_view(given@)).len() == given@.len());
    assert forall|i: int| 0 <= i < rows@.len() implies {
        let r = #[trigger] rows@[i];
        &&& r.0@ == delta@[i].0@
        &&& r.1@ == delta@[i].1.value@
        &&& r.2 == delta@[i].1.timestamp
        &&& r.3@ == delta@[i].1.node_id@
    } by {
        assert(rows_view(rows@)[i] == row_view(rows@[i]));
        assert(delta_view(delta@)[i] == (delta@[i].0@, delta@[i].1@));
    }
    assert forall|i: int| 0 <= i < made@.len() implies {
        let e = #[trigger] made@[i];
        &&& e.0@ == given@[i].0@
        &&& e.1.value@ == given@[i].1@
        &&& e.1.timestamp == given@[i].2
        &&& e.1.node_id@ == given@[i].3@
    } by {
        assert(rows_view(given@)[i] == row_view(given@[i]));
        assert(delta_view(made@)[i] == (made@[i].0@, made@[i].1@));
    }
}

// ── What the functions ask for ─────────────────────────────────────────────

/// A store can be made with any capacity that a channel can have.
pub proof fn any_capacity_of_a_channel_will_do(node_id: String, capacity: usize)
    requires
        0 < capacity <= usize::MAX / 2,
    ensures
        call_requires(StateStore::new, (node_id, capacity)),
{
}

/// A store can be read and written at any time, under any key, with any value, at any time.
pub proof fn stores_can_be_used_at_any_time(
    reader: &StateStore,
    writer: &mut StateStore,
    key: &str,
    since: u64,
    name: String,
    value: String,
    timestamp: u64,
    delta: StateDelta,
)
    requires
        reader.wf(),
        old(writer).wf(),
    ensures
        call_requires(StateStore::get, (reader, key)),
        call_requires(StateStore::snapshot, (reader,)),
        call_requires(StateStore::delta_since, (reader, since)),
        call_requires(StateStore::max_timestamp, (reader,)),
        call_requires(StateStore::len, (reader,)),
        call_requires(StateStore::is_empty, (reader,)),
        call_requires(StateStore::node_id, (reader,)),
        call_requires(StateStore::subscribe, (reader,)),
        call_requires(StateStore::set, (writer, name, value)),
        call_requires(StateStore::set_at, (writer, name, value, timestamp)),
        call_requires(StateStore::merge_delta, (writer, delta)),
{
}

/// Every delta can be turned into bytes, and all bytes can be looked at for a delta.
pub proof fn all_bytes_can_be_looked_at(delta: &StateDelta, bytes: &[u8])
    ensures
        call_requires(serialize_delta, (delta,)),
        call_requires(deserialize_delta, (bytes,)),
{
}

/// Registers and events are copied whole, and registers are equal where value, timestamp and
/// writer are.
pub proof fn copies_are_whole(
    v: &LwwValue,
    v_copy: LwwValue,
    e: &StateEvent,
    e_copy: StateEvent,
    other: &LwwValue,
    same: bool,
)
    requires
        call_ensures(LwwValue::clone, (v,), v_copy),
        call_ensures(StateEvent::clone, (e,), e_copy),
        call_ensures(LwwValue::eq, (v, other), same),
    ensures
        v_copy.value@ == v.value@,
        v_copy.timestamp == v.timestamp,
        v_copy.node_id@ == v.node_id@,
        e_copy.key@ == e.key@,
        e_copy.value.value@ == e.value.value@,
        e_copy.value.timestamp == e.value.timestamp,
        e_copy.value.node_id@ == e.value.node_id@,
        same <==> v.value@ == other.value@ && v.timestamp == other.timestamp && v.node_id@
            == other.node_id@,
{
    equal_registers_hold_the_same(*v, *other);
}

} // verus!
