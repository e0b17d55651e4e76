//! The store: a map from keys to registers, and the channel its changes go out on.

use std::time::SystemTime;
use tokio::sync::broadcast;
use vstd::hash_map::StringHashMap;
use vstd::prelude::*;
use crate::clock::micros_at;
use crate::listing::lists;
use crate::state::crdt::{merged, now_micros, Lww, LwwValue};

verus! {

/// A key and the register state it took, sent to all subscribers on every write.
#[derive(Debug)]
pub struct StateEvent {
    pub key: String,
    pub value: LwwValue,
}

impl View for StateEvent {
    type V = (Seq<char>, Lww);

    open spec fn view(&self) -> (Seq<char>, Lww) {
        (self.key@, self.value@)
    }
}

impl Clone for StateEvent {
    fn clone(&self) -> (r: Self)
        ensures
            r == *self,
    {
        StateEvent { key: self.key.clone(), value: self.value.clone() }
    }
}

/// Keys with the register state of each: a full snapshot or a partial delta.
pub type StateDelta = Vec<(String, LwwValue)>;

/// The entries of a delta as values.
pub open spec fn delta_view(delta: Seq<(String, LwwValue)>) -> Seq<(Seq<char>, Lww)> {
    delta.map_values(|e: (String, LwwValue)| (e.0@, e.1@))
}

/// The texts of a list of strings.
pub open spec fn texts(list: Seq<String>) -> Seq<Seq<char>> {
    list.map_values(|s: String| s@)
}

// ── The state as a mathematical map ────────────────────────────────────────

/// The state after the entry (`k`, `v`) is merged into it.
pub open spec fn put(m: Map<Seq<char>, Lww>, k: Seq<char>, v: Lww) -> Map<Seq<char>, Lww> {
    m.insert(
        k,
        if m.contains_key(k) {
            merged(m[k], v)
        } else {
            v
        },
    )
}

/// Merging the entry (`k`, `v`) gives the key another register state than it has.
pub open spec fn changes(m: Map<Seq<char>, Lww>, k: Seq<char>, v: Lww) -> bool {
    !m.contains_key(k) || merged(m[k], v) != m[k]
}

/// The state after the entries of `delta` are merged into it, first to last.
pub open spec fn apply(m: Map<Seq<char>, Lww>, delta: Seq<(Seq<char>, Lww)>) -> Map<
    Seq<char>,
    Lww,
>
    decreases delta.len(),
{
    if delta.len() == 0 {
        m
    } else {
        put(apply(m, delta.drop_last()), delta.last().0, delta.last().1)
    }
}

/// The keys of those entries of `delta` that change the state when their turn comes.
pub open spec fn changed_keys(m: Map<Seq<char>, Lww>, delta: Seq<(Seq<char>, Lww)>) -> Seq<
    Seq<char>,
>
    decreases delta.len(),
{
    if delta.len() == 0 {
        Seq::empty()
    } else {
        let before = changed_keys(m, delta.drop_last());
        if changes(apply(m, delta.drop_last()), delta.last().0, delta.last().1) {
            before.push(delta.last().0)
        } else {
            before
        }
    }
}

/// The entries of `m` with a timestamp after `since`.
pub open spec fn newer_than(m: Map<Seq<char>, Lww>, since: u64) -> Map<Seq<char>, Lww> {
    m.restrict(m.dom().filter(|k: Seq<char>| m[k].timestamp > since))
}

/// `ts` is the highest timestamp in `m`, or 0 where `m` has no entry.
pub open spec fn is_max_timestamp(m: Map<Seq<char>, Lww>, ts: u64) -> bool {
    &&& forall|k: Seq<char>| #[trigger] m.contains_key(k) ==> m[k].timestamp <= ts
    &&& ts == 0 || exists|k: Seq<char>| #[trigger] m.contains_key(k) && m[k].timestamp == ts
}

// ── The event channel ──────────────────────────────────────────────────────

/// The sending half of a broadcast channel.
#[verifier::external_type_specification]
#[verifier::external_body]
#[verifier::reject_recursive_types(T)]
pub struct ExSender<T>(broadcast::Sender<T>);

/// A receiving half of a broadcast channel.
#[verifier::external_type_specification]
#[verifier::external_body]
#[verifier::reject_recursive_types(T)]
pub struct ExReceiver<T>(broadcast::Receiver<T>);

/// The events handed to the channel of `tx` since it was made, first to last.
pub uninterp spec fn sent_events(tx: broadcast::Sender<StateEvent>) -> Seq<(Seq<char>, Lww)>;

/// The capacity that the channel of `tx` was made with.
pub uninterp spec fn capacity_of(tx: broadcast::Sender<StateEvent>) -> usize;

/// The events that had been handed to the channel of `rx` when `rx` subscribed: those it
/// will not receive.
pub uninterp spec fn events_before(rx: broadcast::Receiver<StateEvent>) -> Seq<(Seq<char>, Lww)>;

/// `tokio::sync::broadcast::channel` makes a channel that nothing was sent on. It panics on
/// a capacity of 0 or above `usize::MAX / 2`. It also allocates room for that many events;
/// what happens where the machine lacks the memory is left unsaid.
#[verifier::external_body]
fn open_channel(capacity: usize) -> (tx: broadcast::Sender<StateEvent>)
    requires
        0 < capacity <= usize::MAX / 2,
    ensures
        sent_events(tx) == Seq::<(Seq<char>, Lww)>::empty(),
        capacity_of(tx) == capacity,
{
    broadcast::channel(capacity).0
}

/// `broadcast::Sender::send` hands an event to the channel. It takes `&self`; the exclusive
/// borrow here is what lets the history of the channel advance. Whether anyone is
/// subscribed, which is all that its result tells, is left unsaid.
#[verifier::external_body]
fn send_event(tx: &mut broadcast::Sender<StateEvent>, event: StateEvent)
    ensures
        sent_events(*final(tx)) == sent_events(*old(tx)).push(event@),
        capacity_of(*final(tx)) == capacity_of(*old(tx)),
{
    let _ = tx.send(event);
}

/// `broadcast::Sender::subscribe` makes a receiver of the events that are sent after the
/// call. How it hands them out, and when it has to drop some, is left unsaid: that depends on
/// how fast its owner reads.
#[verifier::external_body]
fn subscribe_to(tx: &broadcast::Sender<StateEvent>) -> (rx: broadcast::Receiver<StateEvent>)
    ensures
        events_before(rx) == sent_events(*tx),
{
    tx.subscribe()
}

// ── The store ──────────────────────────────────────────────────────────────

/// A key-value store whose entries are last-write-wins registers.
///
/// Entries are never removed: they stand in the order of their first write, and `index`
/// finds the place of a key.
pub struct StateStore {
    index: StringHashMap<usize>,
    entries: Vec<(String, LwwValue)>,
    event_tx: broadcast::Sender<StateEvent>,
    node_id: String,
}

impl View for StateStore {
    type V = Map<Seq<char>, Lww>;

    closed spec fn view(&self) -> Map<Seq<char>, Lww> {
        self.index@.map_values(|i: usize| self.entries@[i as int].1@)
    }
}

impl StateStore {
    /// The index and the entries agree.
    pub closed spec fn wf(&self) -> bool {
        &&& forall|k: Seq<char>| #[trigger]
            self.index@.contains_key(k) ==> self.index@[k] < self.entries@.len()
                && self.entries@[self.index@[k] as int].0@ == k
        &&& forall|i: int|
            0 <= i < self.entries@.len() ==> self.index@.contains_key(
                (#[trigger] self.entries@[i]).0@,
            ) && self.index@[self.entries@[i].0@] == i
    }

    /// The identifier of the node that writes to this store.
    pub closed spec fn id(&self) -> Seq<char> {
        self.node_id@
    }

    /// The events sent out so far.
    pub closed spec fn sent(&self) -> Seq<(Seq<char>, Lww)> {
        sent_events(self.event_tx)
    }

    /// The capacity that was asked for when the event channel was made. The channel may keep
    /// more events than that for a slow subscriber.
    pub closed spec fn capacity(&self) -> usize {
        capacity_of(self.event_tx)
    }

    /// An empty store of the node `node_id`.
    pub fn new(node_id: String, channel_capacity: usize) -> (r: Self)
        requires
            0 < channel_capacity <= usize::MAX / 2,
        ensures
            r.wf(),
            r@ == Map::<Seq<char>, Lww>::empty(),
            r.id() == node_id@,
            r.sent() == Seq::<(Seq<char>, Lww)>::empty(),
            r.capacity() == channel_capacity,
    {
        let r = StateStore {
            index: StringHashMap::new(),
            entries: Vec::new(),
            event_tx: open_channel(channel_capacity),
            node_id,
        };
        assert(r@ =~= Map::<Seq<char>, Lww>::empty());
        r
    }

    // ── Read operations ────────────────────────────────────────────────────

    /// The register state of `key`.
    pub fn get(&self, key: &str) -> (r: Option<LwwValue>)
        requires
            self.wf(),
        ensures
            match r {
                Some(v) => self@.contains_key(key@) && v@ == self@[key@],
                None => !self@.contains_key(key@),
            },
    {
        match self.index.get(key) {
            Some(i) => Some(self.entries[*i].1.clone()),
            None => None,
        }
    }

    /// Every entry of the store, in no particular order.
    pub fn snapshot(&self) -> (r: StateDelta)
        requires
            self.wf(),
        ensures
            lists(delta_view(r@), self@),
    {
        let mut r: StateDelta = Vec::new();
        let mut i: usize = 0;
        while i < self.entries.len()
            invariant
                self.wf(),
                0 <= i <= self.entries@.len(),
                r@ == self.entries@.subrange(0, i as int),
            decreases self.entries@.len() - i,
        {
            let e = &self.entries[i];
            r.push((e.0.clone(), e.1.clone()));
            i = i + 1;
            assert(self.entries@.subrange(0, i as int) =~= self.entries@.subrange(
                0,
                i as int - 1,
            ).push(self.entries@[i as int - 1]));
        }
        proof {
            assert(r@ =~= self.entries@);
            let d = delta_view(r@);
            assert forall|k: Seq<char>| #[trigger] self@.contains_key(k) implies exists|j: int|
                0 <= j < d.len() && (#[trigger] d[j]).0 == k by {
                let j = self.index@[k] as int;
                assert(d[j].0 == k);
            }
        }
        r
    }

    /// The entries with a timestamp strictly after `since`, in no particular order.
    pub fn delta_since(&self, since: u64) -> (r: StateDelta)
        requires
            self.wf(),
        ensures
            lists(delta_view(r@), newer_than(self@, since)),
    {
        let mut r: StateDelta = Vec::new();
        let mut i: usize = 0;
        // Where in `entries` each item of `r` stands.
        let ghost mut places: Seq<int> = Seq::empty();
        while i < self.entries.len()
            invariant
                self.wf(),
                0 <= i <= self.entries@.len(),
                places.len() == r@.len(),
                forall|j: int|
                    0 <= j < r@.len() ==> 0 <= #[trigger] places[j] < i && r@[j]
                        == self.entries@[places[j]] && r@[j].1.timestamp > since,
                forall|j: int, l: int|
                    0 <= j < l < r@.len() ==> #[trigger] places[j] < #[trigger] places[l],
                forall|p: int|
                    0 <= p < i && (#[trigger] self.entries@[p]).1.timestamp > since
                        ==> places.contains(p),
            decreases self.entries@.len() - i,
        {
            let e = &self.entries[i];
            let ghost before = places;
            if e.1.timestamp > since {
                r.push((e.0.clone(), e.1.clone()));
                proof {
                    places = places.push(i as int);
                    assert(places[places.len() - 1] == i as int);
                }
            }
            i = i + 1;
            proof {
                assert forall|p: int|
                    0 <= p < i && (#[trigger] self.entries@[p]).1.timestamp > since implies
                    places.contains(p) by {
                    if p < i - 1 {
                        let j = choose|j: int| 0 <= j < before.len() && before[j] == p;
                        assert(places[j] == p);
                    }
                }
            }
        }
        proof {
            let d = delta_view(r@);
            let m = newer_than(self@, since);
            assert forall|j: int| 0 <= j < d.len() implies m.contains_key((#[trigger] d[j]).0)
                && m[d[j].0] == d[j].1 by {
                let p = places[j];
                assert(self.index@[self.entries@[p].0@] == p);
            }
            assert forall|j: int, l: int| 0 <= j < l < d.len() implies (#[trigger] d[j]).0 != (
            #[trigger] d[l]).0 by {
                assert(places[j] < places[l]);
                assert(self.index@[self.entries@[places[j]].0@] == places[j]);
                assert(self.index@[self.entries@[places[l]].0@] == places[l]);
            }
            assert forall|k: Seq<char>| #[trigger] m.contains_key(k) implies exists|j: int|
                0 <= j < d.len() && (#[trigger] d[j]).0 == k by {
                let p = self.index@[k] as int;
                assert(self.entries@[p].1.timestamp > since);
                assert(places.contains(p));
                let j = choose|j: int| 0 <= j < places.len() && places[j] == p;
                assert(d[j].0 == k);
            }
        }
        r
    }

    /// The highest timestamp in the store, or 0 where it is empty.
    pub fn max_timestamp(&self) -> (r: u64)
        requires
            self.wf(),
        ensures
            is_max_timestamp(self@, r),
    {
        let mut r: u64 = 0;
        let mut i: usize = 0;
        while i < self.entries.len()
            invariant
                self.wf(),
                0 <= i <= self.entries@.len(),
                forall|p: int| 0 <= p < i ==> (#[trigger] self.entries@[p]).1.timestamp <= r,
                r == 0 || exists|p: int|
                    0 <= p < i && (#[trigger] self.entries@[p]).1.timestamp == r,
            decreases self.entries@.len() - i,
        {
            if self.entries[i].1.timestamp > r {
                r = self.entries[i].1.timestamp;
            }
            i = i + 1;
        }
        proof {
            if r != 0 {
                let p = choose|p: int|
                    0 <= p < i && (#[trigger] self.entries@[p]).1.timestamp == r;
                let k = self.entries@[p].0@;
                assert(self@.contains_key(k) && self@[k].timestamp == r);
            }
        }
        r
    }

    /// The number of keys.
    pub fn len(&self) -> (r: usize)
        ensures
            r == self@.len(),
    {
        assert(self@.dom() =~= self.index@.dom());
        self.index.len()
    }

    /// Tells whether there is no key.
    pub fn is_empty(&self) -> (r: bool)
        ensures
            r == (self@ == Map::<Seq<char>, Lww>::empty()),
    {
        let r = self.index.is_empty();
        proof {
            if r {
                assert(self@ =~= Map::<Seq<char>, Lww>::empty());
            } else if self@ == Map::<Seq<char>, Lww>::empty() {
                assert(self@.dom() =~= self.index@.dom());
                assert(self.index@ =~= Map::<Seq<char>, usize>::empty());
            }
        }
        r
    }

    /// The identifier of the node that writes to this store.
    pub fn node_id(&self) -> (r: &str)
        ensures
            r@ == self.id(),
    {
        self.node_id.as_str()
    }

    // ── Write operations ───────────────────────────────────────────────────

    /// Merges one entry; tells whether the key took another register state.
    fn merge_entry(&mut self, key: &String, incoming: &LwwValue) -> (changed: bool)
        requires
            old(self).wf(),
        ensures
            final(self).wf(),
            final(self)@ == put(old(self)@, key@, incoming@),
            changed == changes(old(self)@, key@, incoming@),
            final(self).event_tx == old(self).event_tx,
            final(self).node_id == old(self).node_id,
    {
        match self.index.get(key.as_str()) {
            Some(at) => {
                let place: usize = *at;
                let winner = LwwValue::merge(&self.entries[place].1, incoming);
                let changed: bool = self.entries[place].1 != winner;
                if changed {
                    self.entries.set(place, (key.clone(), winner));
                }
                assert(self@ =~= put(old(self)@, key@, incoming@));
                changed
            },
            None => {
                let place: usize = self.entries.len();
                self.index.insert(key.clone(), place);
                self.entries.push((key.clone(), incoming.clone()));
                assert(self@ =~= put(old(self)@, key@, incoming@));
                true
            },
        }
    }

    /// Writes `value` under `key` as this node, stamped with the current wall-clock time.
    ///
    /// Returns the register state that the key has after the merge, which is an earlier one
    /// where that carries a newer stamp. Where the clock is set to a time before the UNIX
    /// epoch, nothing is written and nothing returned.
    pub fn set(&mut self, key: String, value: String) -> (r: Option<LwwValue>)
        requires
            old(self).wf(),
        ensures
            final(self).wf(),
            final(self).id() == old(self).id(),
            final(self).capacity() == old(self).capacity(),
            exists|t: SystemTime|
                match #[trigger] micros_at(t) {
                    Some(timestamp) => {
                        &&& final(self)@ == put(
                            old(self)@,
                            key@,
                            Lww { value: value@, timestamp, node_id: old(self).id() },
                        )
                        &&& r is Some
                        &&& r->0@ == final(self)@[key@]
                        &&& final(self).sent() == old(self).sent().push((key@, final(self)@[key@]))
                    },
                    None => {
                        &&& r is None
                        &&& final(self)@ == old(self)@
                        &&& final(self).sent() == old(self).sent()
                    },
                },
    {
        match now_micros() {
            Some(timestamp) => Some(self.set_at(key, value, timestamp)),
            None => None,
        }
    }

    /// Writes `value` under `key` as this node, stamped with `timestamp`.
    pub fn set_at(&mut self, key: String, value: String, timestamp: u64) -> (r: LwwValue)
        requires
            old(self).wf(),
        ensures
            final(self).wf(),
            final(self)@ == put(
                old(self)@,
                key@,
                Lww { value: value@, timestamp, node_id: old(self).id() },
            ),
            r@ == final(self)@[key@],
            final(self).sent() == old(self).sent().push((key@, r@)),
            final(self).id() == old(self).id(),
            final(self).capacity() == old(self).capacity(),
    {
        let incoming = LwwValue { value, timestamp, node_id: self.node_id.clone() };
        self.merge_entry(&key, &incoming);
        let winner = match self.get(key.as_str()) {
            Some(v) => v,
            None => incoming,
        };
        self.publish(key, winner.clone());
        winner
    }

    /// Sends out that `key` has taken `value`.
    fn publish(&mut self, key: String, value: LwwValue)
        requires
            old(self).wf(),
        ensures
            final(self).wf(),
            final(self)@ == old(self)@,
            final(self).sent() == old(self).sent().push((key@, value@)),
            final(self).id() == old(self).id(),
            final(self).capacity() == old(self).capacity(),
    {
        send_event(&mut self.event_tx, StateEvent { key, value });
        assert(self@ =~= old(self)@);
    }

    /// Merges a delta from a peer and sends out what changed.
    ///
    /// Returns the keys whose register state changed, in the order of the delta.
    pub fn merge_delta(&mut self, delta: StateDelta) -> (r: Vec<String>)
        requires
            old(self).wf(),
        ensures
            final(self).wf(),
            final(self)@ == apply(old(self)@, delta_view(delta@)),
            texts(r@) == changed_keys(old(self)@, delta_view(delta@)),
            final(self).sent() == old(self).sent() + texts(r@).map_values(
                |k: Seq<char>| (k, final(self)@[k]),
            ),
            final(self).id() == old(self).id(),
            final(self).capacity() == old(self).capacity(),
    {
        let mut updated: Vec<String> = Vec::new();
        let ghost d = delta_view(delta@);
        let mut i: usize = 0;
        assert(d.take(0) =~= Seq::empty());
        while i < delta.len()
            invariant
                self.wf(),
                0 <= i <= delta@.len(),
                d == delta_view(delta@),
                self@ == apply(old(self)@, d.take(i as int)),
                texts(updated@) == changed_keys(old(self)@, d.take(i as int)),
                self.event_tx == old(self).event_tx,
                self.node_id == old(self).node_id,
                forall|j: int|
                    0 <= j < updated@.len() ==> self@.contains_key((#[trigger] updated@[j])@),
            decreases delta@.len() - i,
        {
            let e = &delta[i];
            assert(d.take(i + 1).drop_last() =~= d.take(i as int));
            assert(d.take(i + 1).last() == (e.0@, e.1@));
            if self.merge_entry(&e.0, &e.1) {
                let ghost before = updated@;
                updated.push(e.0.clone());
                assert(texts(updated@) =~= texts(before).push(e.0@));
            }
            i = i + 1;
        }
        assert(d.take(i as int) =~= d);
        let ghost state = self@;
        let ghost events = texts(updated@).map_values(|k: Seq<char>| (k, state[k]));
        let mut n: usize = 0;
        while n < updated.len()
            invariant
                self.wf(),
                0 <= n <= updated@.len(),
                self@ == state,
                events == texts(updated@).map_values(|k: Seq<char>| (k, state[k])),
                forall|j: int|
                    0 <= j < updated@.len() ==> state.contains_key((#[trigger] updated@[j])@),
                self.sent() == old(self).sent() + events.take(n as int),
                self.id() == old(self).id(),
                self.capacity() == old(self).capacity(),
            decreases updated@.len() - n,
        {
            assert(events.take(n + 1) =~= events.take(n as int).push(events[n as int]));
            match self.get(updated[n].as_str()) {
                Some(value) => {
                    self.publish(updated[n].clone(), value);
                },
                None => {
                    assert(false);
                },
            }
            n = n + 1;
        }
        assert(events.take(n as int) =~= events);
        updated
    }

    // ── Subscriptions ──────────────────────────────────────────────────────

    /// A receiver of all events sent after this call.
    pub fn subscribe(&self) -> (rx: broadcast::Receiver<StateEvent>)
        ensures
            events_before(rx) == self.sent(),
    {
        subscribe_to(&self.event_tx)
    }
}

} // verus!
