//! Deltas as bytes, in bincode's encoding.

use vstd::prelude::*;
use crate::encoding::{read_rows, rows_are_read_back, rows_bytes, RowView};
use crate::error::EngineError;
use crate::state::crdt::{Lww, LwwValue};
use crate::state::store::{delta_view, StateDelta};
use crate::text::joined;

verus! {

/// A delta entry as a flat row: key, value, timestamp, writer. bincode writes the items of
/// a tuple one after the other, without anything in between.
pub type Row = (String, String, u64, String);

/// A row as a value.
pub open spec fn row_view(r: Row) -> RowView {
    (r.0@, r.1@, r.2, r.3@)
}

/// Rows as values.
pub open spec fn rows_view(rows: Seq<Row>) -> Seq<RowView> {
    rows.map_values(|r: Row| row_view(r))
}

/// The rows of a delta.
pub open spec fn rows_of(delta: Seq<(Seq<char>, Lww)>) -> Seq<RowView> {
    delta.map_values(
        |e: (Seq<char>, Lww)| (e.0, e.1.value, e.1.timestamp, e.1.node_id),
    )
}

/// The delta that rows stand for.
pub open spec fn delta_of(rows: Seq<RowView>) -> Seq<(Seq<char>, Lww)> {
    rows.map_values(
        |r: RowView| (r.0, Lww { value: r.1, timestamp: r.2, node_id: r.3 }),
    )
}

/// A delta and its rows say the same.
pub proof fn rows_keep_the_delta(delta: Seq<(Seq<char>, Lww)>)
    ensures
        delta_of(rows_of(delta)) == delta,
{
    assert(delta_of(rows_of(delta)) =~= delta);
}

/// The text of the error that `bincode::deserialize` meets where it looks for rows in bytes
/// that do not begin with any, on a machine with words of `word_bits` bits.
pub uninterp spec fn rows_error(bytes: Seq<u8>, word_bits: u32) -> Seq<char>;

/// `bincode::serialize`, which has no size limit and meets no sequence of unknown length
/// here, always succeeds on rows. It writes numbers and lengths as eight bytes, least
/// significant first, and texts as UTF-8.
#[verifier::external_body]
fn encode_rows(rows: &Vec<Row>) -> (r: Result<Vec<u8>, String>)
    ensures
        r is Ok,
        r->Ok_0@ == rows_bytes(rows_view(rows@)),
{
    bincode::serialize(rows).map_err(|e| e.to_string())
}

/// `bincode::deserialize` reads rows from bytes that begin with what `bincode::serialize`
/// writes for them, whatever follows, and fails on all other bytes. The text of its error is a
/// function of the bytes and of the size of a word.
#[verifier::external_body]
fn decode_rows(bytes: &[u8]) -> (r: Result<Vec<Row>, String>)
    ensures
        match r {
            Ok(rows) => rows_bytes(rows_view(rows@)).is_prefix_of(bytes@),
            Err(text) => read_rows(bytes@) is None && text@ == rows_error(bytes@, usize::BITS),
        },
{
    bincode::deserialize(bytes).map_err(|e| e.to_string())
}

/// The rows of a delta.
pub fn to_rows(delta: &StateDelta) -> (r: Vec<Row>)
    ensures
        rows_view(r@) == rows_of(delta_view(delta@)),
{
    let mut r: Vec<Row> = Vec::new();
    let mut i: usize = 0;
    while i < delta.len()
        invariant
            0 <= i <= delta@.len(),
            r@.len() == i,
            forall|j: int|
                0 <= j < i ==> row_view(#[trigger] r@[j]) == (
                    delta@[j].0@,
                    delta@[j].1@.value,
                    delta@[j].1@.timestamp,
                    delta@[j].1@.node_id,
                ),
        decreases delta@.len() - i,
    {
        let e = &delta[i];
        r.push((e.0.clone(), e.1.value.clone(), e.1.timestamp, e.1.node_id.clone()));
        i = i + 1;
    }
    assert(rows_view(r@) =~= rows_of(delta_view(delta@)));
    r
}

/// The delta that rows stand for.
pub fn from_rows(rows: &Vec<Row>) -> (r: StateDelta)
    ensures
        delta_view(r@) == delta_of(rows_view(rows@)),
{
    let mut r: StateDelta = Vec::new();
    let mut i: usize = 0;
    while i < rows.len()
        invariant
            0 <= i <= rows@.len(),
            r@.len() == i,
            forall|j: int|
                0 <= j < i ==> (#[trigger] r@[j]).0@ == rows@[j].0@ && r@[j].1@ == (Lww {
                    value: rows@[j].1@,
                    timestamp: rows@[j].2,
                    node_id: rows@[j].3@,
                }),
        decreases rows@.len() - i,
    {
        let row = &rows[i];
        r.push(
            (
                row.0.clone(),
                LwwValue { value: row.1.clone(), timestamp: row.2, node_id: row.3.clone() },
            ),
        );
        i = i + 1;
    }
    assert(delta_view(r@) =~= delta_of(rows_view(rows@)));
    r
}

/// The delta whose encoding `bytes` begin with.
pub open spec fn read_delta(bytes: Seq<u8>) -> Option<Seq<(Seq<char>, Lww)>> {
    match read_rows(bytes) {
        Some(rows) => Some(delta_of(rows)),
        None => None,
    }
}

/// A delta is read back from its encoding, entry by entry and in the same order, whatever
/// follows it; and nothing is read from any part of it that stops short of the end.
pub proof fn deltas_are_read_back(delta: Seq<(Seq<char>, Lww)>, bytes: Seq<u8>)
    requires
        bytes.len() <= u64::MAX,
        rows_bytes(rows_of(delta)).is_prefix_of(bytes),
    ensures
        read_delta(bytes) == Some(delta),
        forall|n: int|
            0 <= n < rows_bytes(rows_of(delta)).len() ==> #[trigger] read_delta(
                bytes.take(n),
            ) is None,
{
    rows_are_read_back(rows_of(delta), bytes);
    rows_keep_the_delta(delta);
    assert forall|n: int| 0 <= n < rows_bytes(rows_of(delta)).len() implies #[trigger] read_delta(
        bytes.take(n),
    ) is None by {
        assert(read_rows(bytes.take(n)) is None);
    }
}

/// Turns a delta into bytes. Reading them back gives the same delta, and reading a part that
/// stops short of the end gives none.
pub fn serialize_delta(delta: &StateDelta) -> (r: Result<Vec<u8>, EngineError>)
    ensures
        r is Ok,
        r->Ok_0@ == rows_bytes(rows_of(delta_view(delta@))),
        read_delta(r->Ok_0@) == Some(delta_view(delta@)),
        forall|n: int|
            0 <= n < r->Ok_0@.len() ==> #[trigger] read_delta(r->Ok_0@.take(n)) is None,
{
    let rows = to_rows(delta);
    match encode_rows(&rows) {
        Ok(bytes) => {
            proof {
                assert(bytes.len() <= u64::MAX);
                deltas_are_read_back(delta_view(delta@), bytes@);
            }
            Ok(bytes)
        },
        Err(text) => Err(EngineError::Serialization(joined("snapshot serialize: ", text.as_str()))),
    }
}

/// Turns bytes back into a delta.
pub fn deserialize_delta(bytes: &[u8]) -> (r: Result<StateDelta, EngineError>)
    ensures
        match read_delta(bytes@) {
            Some(delta) => r matches Ok(d) && delta_view(d@) == delta,
            None => r matches Err(EngineError::Serialization(t)) && t@
                == "snapshot deserialize: "@ + rows_error(bytes@, usize::BITS),
        },
{
    let decoded = decode_rows(bytes);
    proof {
        assert(bytes.len() <= u64::MAX);
        if decoded is Ok {
            rows_are_read_back(rows_view(decoded->Ok_0@), bytes@);
        }
    }
    delta_from_decoded(decoded)
}

/// The delta that decoded rows stand for, or the error that their decoding met.
pub fn delta_from_decoded(decoded: Result<Vec<Row>, String>) -> (r: Result<
    StateDelta,
    EngineError,
>)
    ensures
        match decoded {
            Ok(rows) => r matches Ok(d) && delta_view(d@) == delta_of(rows_view(rows@)),
            Err(text) => r matches Err(EngineError::Serialization(t)) && t@
                == "snapshot deserialize: "@ + text@,
        },
{
    match decoded {
        Ok(rows) => Ok(from_rows(&rows)),
        Err(text) => Err(
            EngineError::Serialization(joined("snapshot deserialize: ", text.as_str())),
        ),
    }
}

/// A row holds the key, the value, the timestamp and the writer of its entry, in this order,
/// and stands for that entry.
pub proof fn rows_hold_the_entry(k: Seq<char>, v: Lww, r: Row)
    ensures
        rows_of(seq![(k, v)]) == seq![(k, v.value, v.timestamp, v.node_id)],
        delta_of(seq![(k, v.value, v.timestamp, v.node_id)]) == seq![(k, v)],
        row_view(r).0 == r.0@,
        row_view(r).1 == r.1@,
        row_view(r).2 == r.2,
        row_view(r).3 == r.3@,
{
    assert(rows_of(seq![(k, v)]) =~= seq![(k, v.value, v.timestamp, v.node_id)]);
    assert(delta_of(seq![(k, v.value, v.timestamp, v.node_id)]) =~= seq![(k, v)]);
}

/// Rows stand in the order of the entries, one for each.
pub proof fn rows_follow_the_entries(
    a: Seq<(Seq<char>, Lww)>,
    b: Seq<(Seq<char>, Lww)>,
    rows: Seq<Row>,
)
    ensures
        rows_of(a + b) == rows_of(a) + rows_of(b),
        rows_of(a).len() == a.len(),
        delta_of(rows_of(a + b)) == a + b,
        rows_view(rows).len() == rows.len(),
        forall|i: int| 0 <= i < rows.len() ==> #[trigger] rows_view(rows)[i] == row_view(rows[i]),
{
    assert(rows_of(a + b) =~= rows_of(a) + rows_of(b));
    rows_keep_the_delta(a + b);
}

/// A delta is read from bytes exactly where they begin with its encoding.
pub proof fn bytes_are_read_by_their_beginning(bytes: Seq<u8>, delta: Seq<(Seq<char>, Lww)>)
    requires
        bytes.len() <= u64::MAX,
    ensures
        read_delta(bytes) == Some(delta) <==> rows_bytes(rows_of(delta)).is_prefix_of(bytes),
{
    if rows_bytes(rows_of(delta)).is_prefix_of(bytes) {
        deltas_are_read_back(delta, bytes);
    }
    if read_delta(bytes) == Some(delta) {
        let rows = read_rows(bytes)->0;
        assert(rows_bytes(rows).is_prefix_of(bytes));
        assert(rows_of(delta_of(rows)) =~= rows);
    }
}

} // verus!
