//! The last-write-wins register.

use std::time::SystemTime;
use vstd::prelude::*;
use crate::clock::{micros_at, micros_since_epoch};
use crate::text::{
    str_ge, str_le, str_le_antisymmetric, str_le_reflexive, str_le_total, str_le_transitive,
    the_first_difference_decides,
};

verus! {

/// What a register holds: a value and the stamp (time, writer) it was written with.
pub ghost struct Lww {
    pub value: Seq<char>,
    pub timestamp: u64,
    pub node_id: Seq<char>,
}

/// A last-write-wins register, the atomic unit of state.
///
/// Of two replicas of a key the one with the higher `timestamp` wins; on a tie the
/// one with the higher `node_id` does.
#[derive(Debug)]
pub struct LwwValue {
    pub value: String,
    /// Microseconds since the UNIX epoch.
    pub timestamp: u64,
    /// The node that wrote this value; breaks ties.
    pub node_id: String,
}

impl View for LwwValue {
    type V = Lww;

    open spec fn view(&self) -> Lww {
        Lww { value: self.value@, timestamp: self.timestamp, node_id: self.node_id@ }
    }
}

impl Clone for LwwValue {
    fn clone(&self) -> (r: Self)
        ensures
            r == *self,
    {
        LwwValue {
            value: self.value.clone(),
            timestamp: self.timestamp,
            node_id: self.node_id.clone(),
        }
    }
}

impl PartialEq for LwwValue {
    fn eq(&self, other: &Self) -> (r: bool) {
        self.timestamp == other.timestamp && self.value == other.value && self.node_id
            == other.node_id
    }
}

impl vstd::std_specs::cmp::PartialEqSpecImpl for LwwValue {
    open spec fn obeys_eq_spec() -> bool {
        true
    }

    open spec fn eq_spec(&self, other: &Self) -> bool {
        self@ == other@
    }
}

impl Eq for LwwValue {

}

/// `a` carries a stamp at least as new as that of `b`.
pub open spec fn stamp_ge(a: Lww, b: Lww) -> bool {
    a.timestamp > b.timestamp || (a.timestamp == b.timestamp && str_le(b.node_id, a.node_id))
}

/// The winner of `a` and `b`: the higher timestamp, on a tie the higher writer, and `a`
/// where the stamps are the same.
pub open spec fn merged(a: Lww, b: Lww) -> Lww {
    if stamp_ge(a, b) {
        a
    } else {
        b
    }
}

/// No two different values carry one stamp: `a` and `b` are the same register state, or
/// differ in time or writer.
pub open spec fn compatible(a: Lww, b: Lww) -> bool {
    a.timestamp == b.timestamp && a.node_id == b.node_id ==> a == b
}

impl LwwValue {
    /// A value stamped with the current wall-clock time; nothing where the clock is set to a
    /// time before the UNIX epoch.
    pub fn new(value: String, node_id: String) -> (r: Option<Self>)
        ensures
            exists|t: SystemTime|
                match #[trigger] micros_at(t) {
                    Some(timestamp) => r == Some(LwwValue { value, timestamp, node_id }),
                    None => r is None,
                },
    {
        match now_micros() {
            Some(timestamp) => Some(LwwValue { value, timestamp, node_id }),
            None => None,
        }
    }

    /// The winner of two replicas of a register.
    pub fn merge(a: &Self, b: &Self) -> (r: Self)
        ensures
            r@ == merged(a@, b@),
            r == *a || r == *b,
    {
        if a.timestamp > b.timestamp {
            a.clone()
        } else if a.timestamp < b.timestamp {
            b.clone()
        } else if str_ge(a.node_id.as_str(), b.node_id.as_str()) {
            a.clone()
        } else {
            b.clone()
        }
    }

    /// Would `incoming` replace `self` in a merge?
    pub fn is_dominated_by(&self, incoming: &Self) -> (r: bool)
        ensures
            r == !stamp_ge(self@, incoming@),
    {
        let winner = LwwValue::merge(self, incoming);
        proof {
            str_le_reflexive(self@.node_id);
        }
        winner != *self
    }
}

/// The current wall-clock time in microseconds since the UNIX epoch; nothing where the clock
/// is set to a time before it.
pub fn now_micros() -> (r: Option<u64>)
    ensures
        exists|t: SystemTime| r == #[trigger] micros_at(t),
{
    micros_since_epoch(SystemTime::now())
}

/// Merging a register with itself changes nothing.
pub proof fn merge_idempotent(a: Lww)
    ensures
        merged(a, a) == a,
{
}

/// The order in which two compatible replicas are merged does not matter.
pub proof fn merge_commutative(a: Lww, b: Lww)
    requires
        compatible(a, b),
    ensures
        merged(a, b) == merged(b, a),
{
    str_le_total(a.node_id, b.node_id);
    if str_le(a.node_id, b.node_id) && str_le(b.node_id, a.node_id) {
        str_le_antisymmetric(a.node_id, b.node_id);
    }
}

/// The grouping in which three replicas are merged does not matter.
pub proof fn merge_associative(a: Lww, b: Lww, c: Lww)
    ensures
        merged(merged(a, b), c) == merged(a, merged(b, c)),
{
    stamp_order(a, b, c);
    stamp_order(b, a, c);
    stamp_order(c, b, a);
    stamp_order(a, c, b);
}

/// The winner is one of the two replicas, and its stamp is at least as new as both.
pub proof fn merge_dominates(a: Lww, b: Lww)
    ensures
        merged(a, b) == a || merged(a, b) == b,
        stamp_ge(merged(a, b), a),
        stamp_ge(merged(a, b), b),
{
    str_le_reflexive(a.node_id);
    str_le_reflexive(b.node_id);
    str_le_total(a.node_id, b.node_id);
}

/// The order of stamps is total and transitive, and two stamps that are each at least as
/// new as the other are the same.
pub proof fn stamp_order(a: Lww, b: Lww, c: Lww)
    ensures
        stamp_ge(a, a),
        stamp_ge(a, b) || stamp_ge(b, a),
        stamp_ge(a, b) && stamp_ge(b, c) ==> stamp_ge(a, c),
        stamp_ge(a, b) && stamp_ge(b, a) ==> a.timestamp == b.timestamp && a.node_id
            == b.node_id,
{
    str_le_reflexive(a.node_id);
    str_le_total(a.node_id, b.node_id);
    if str_le(b.node_id, a.node_id) && str_le(c.node_id, b.node_id) {
        str_le_transitive(c.node_id, b.node_id, a.node_id);
    }
    if str_le(b.node_id, a.node_id) && str_le(a.node_id, b.node_id) {
        str_le_antisymmetric(a.node_id, b.node_id);
    }
}

/// A register is seen with the value, the timestamp and the writer that it holds.
pub proof fn registers_are_seen_whole(v: LwwValue)
    ensures
        v@.value == v.value@,
        v@.timestamp == v.timestamp,
        v@.node_id == v.node_id@,
{
}

/// Two registers compare as equal exactly where they hold the same value, timestamp and writer.
pub proof fn equal_registers_hold_the_same(a: LwwValue, b: LwwValue)
    ensures
        vstd::std_specs::cmp::PartialEqSpec::eq_spec(&a, &b) <==> a.value@ == b.value@
            && a.timestamp == b.timestamp && a.node_id@ == b.node_id@,
{
}

/// The later timestamp wins, whoever wrote and whatever was written.
pub proof fn the_later_timestamp_wins(a: Lww, b: Lww)
    requires
        a.timestamp > b.timestamp,
    ensures
        merged(a, b) == a,
        merged(b, a) == a,
        stamp_ge(a, b),
        !stamp_ge(b, a),
{
}

/// Of two writes at the same time the one by the higher node identifier wins: the identifier
/// with the greater character where the two first differ, or the longer one where there is no
/// such place.
pub proof fn the_higher_writer_wins_a_tie(a: Lww, b: Lww, i: int)
    requires
        a.timestamp == b.timestamp,
        0 <= i < a.node_id.len(),
        i <= b.node_id.len(),
        forall|j: int| 0 <= j < i ==> a.node_id[j] == b.node_id[j],
        i == b.node_id.len() || a.node_id[i] > b.node_id[i],
    ensures
        merged(a, b) == a,
        merged(b, a) == a,
        stamp_ge(a, b),
        !stamp_ge(b, a),
{
    the_first_difference_decides(b.node_id, a.node_id, i);
    the_first_difference_decides(a.node_id, b.node_id, i);
}

/// Of two writes with one stamp the one that is there already stays.
pub proof fn the_first_of_two_equal_stamps_stays(a: Lww, b: Lww)
    requires
        a.timestamp == b.timestamp,
        a.node_id == b.node_id,
    ensures
        merged(a, b) == a,
        merged(b, a) == b,
        stamp_ge(a, b),
        stamp_ge(b, a),
{
    str_le_reflexive(a.node_id);
}

} // verus!
