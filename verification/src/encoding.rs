//! bincode's encoding of what nodes send each other: numbers as eight bytes, least significant
//! first; texts as their length in bytes and their UTF-8 bytes; lists as their length and
//! their items; tuples as their items, one after the other.
//!
//! No encoding is the beginning of another one, so bytes can be read in one way at most.

use vstd::bytes::{
    lemma_auto_spec_u64_to_from_le_bytes, spec_u64_from_le_bytes, spec_u64_to_le_bytes,
};
use vstd::prelude::*;
use vstd::utf8::{encode_utf8, encode_utf8_decode_utf8};

verus! {

/// A number.
pub open spec fn number_bytes(n: u64) -> Seq<u8> {
    spec_u64_to_le_bytes(n)
}

/// A text.
pub open spec fn text_bytes(s: Seq<char>) -> Seq<u8> {
    number_bytes(encode_utf8(s).len() as u64) + encode_utf8(s)
}

/// A delta entry as a value: key, value, timestamp, writer.
pub type RowView = (Seq<char>, Seq<char>, u64, Seq<char>);

/// A row.
pub open spec fn row_bytes(r: RowView) -> Seq<u8> {
    text_bytes(r.0) + (text_bytes(r.1) + (number_bytes(r.2) + text_bytes(r.3)))
}

/// Rows, one after the other.
pub open spec fn items_bytes(rows: Seq<RowView>) -> Seq<u8>
    decreases rows.len(),
{
    if rows.len() == 0 {
        Seq::empty()
    } else {
        row_bytes(rows[0]) + items_bytes(rows.drop_first())
    }
}

/// A list of rows.
pub open spec fn rows_bytes(rows: Seq<RowView>) -> Seq<u8> {
    number_bytes(rows.len() as u64) + items_bytes(rows)
}

/// A message as a value: sender, address, rows, generation.
pub type PartsView = (Seq<char>, Seq<char>, Seq<RowView>, u64);

/// A message.
pub open spec fn message_bytes(p: PartsView) -> Seq<u8> {
    text_bytes(p.0) + (text_bytes(p.1) + (rows_bytes(p.2) + number_bytes(p.3)))
}

/// An acknowledgement: sender, number of merged entries.
pub open spec fn ack_bytes(a: (Seq<char>, usize)) -> Seq<u8> {
    text_bytes(a.0) + number_bytes(a.1 as u64)
}

// ── Bytes are read in one way at most ──────────────────────────────────────

/// Two numbers at the beginning of the same bytes are the same number.
proof fn lemma_number(a: u64, b: u64, x: Seq<u8>, y: Seq<u8>)
    requires
        number_bytes(a) + x == number_bytes(b) + y,
    ensures
        a == b,
        x == y,
{
    lemma_auto_spec_u64_to_from_le_bytes();
    let whole = number_bytes(a) + x;
    assert(whole.take(8) =~= number_bytes(a));
    assert(whole.take(8) =~= number_bytes(b));
    assert(spec_u64_from_le_bytes(number_bytes(a)) == a);
    assert(spec_u64_from_le_bytes(number_bytes(b)) == b);
    assert(whole.skip(8) =~= x);
    assert(whole.skip(8) =~= y);
}

/// Two texts at the beginning of the same bytes are the same text.
proof fn lemma_text(a: Seq<char>, b: Seq<char>, x: Seq<u8>, y: Seq<u8>)
    requires
        text_bytes(a) + x == text_bytes(b) + y,
        (text_bytes(a) + x).len() <= u64::MAX,
    ensures
        a == b,
        x == y,
{
    let u = encode_utf8(a);
    let v = encode_utf8(b);
    assert(text_bytes(a) + x =~= number_bytes(u.len() as u64) + (u + x));
    assert(text_bytes(b) + y =~= number_bytes(v.len() as u64) + (v + y));
    lemma_number(u.len() as u64, v.len() as u64, u + x, v + y);
    assert(u.len() == v.len());
    assert((u + x).take(u.len() as int) =~= u);
    assert((v + y).take(v.len() as int) =~= v);
    assert((u + x).skip(u.len() as int) =~= x);
    assert((v + y).skip(v.len() as int) =~= y);
    encode_utf8_decode_utf8(a);
    encode_utf8_decode_utf8(b);
}

/// Two rows at the beginning of the same bytes are the same row.
proof fn lemma_row(a: RowView, b: RowView, x: Seq<u8>, y: Seq<u8>)
    requires
        row_bytes(a) + x == row_bytes(b) + y,
        (row_bytes(a) + x).len() <= u64::MAX,
    ensures
        a == b,
        x == y,
{
    let a3 = text_bytes(a.3) + x;
    let b3 = text_bytes(b.3) + y;
    let a2 = number_bytes(a.2) + a3;
    let b2 = number_bytes(b.2) + b3;
    let a1 = text_bytes(a.1) + a2;
    let b1 = text_bytes(b.1) + b2;
    assert(row_bytes(a) + x =~= text_bytes(a.0) + a1);
    assert(row_bytes(b) + y =~= text_bytes(b.0) + b1);
    lemma_text(a.0, b.0, a1, b1);
    lemma_text(a.1, b.1, a2, b2);
    lemma_number(a.2, b.2, a3, b3);
    lemma_text(a.3, b.3, x, y);
}

/// Two lists of as many rows at the beginning of the same bytes are the same list.
proof fn lemma_items(a: Seq<RowView>, b: Seq<RowView>, x: Seq<u8>, y: Seq<u8>)
    requires
        a.len() == b.len(),
        items_bytes(a) + x == items_bytes(b) + y,
        (items_bytes(a) + x).len() <= u64::MAX,
    ensures
        a == b,
        x == y,
    decreases a.len(),
{
    if a.len() == 0 {
        assert(items_bytes(a) + x =~= x);
        assert(items_bytes(b) + y =~= y);
        assert(a =~= b);
    } else {
        let a1 = items_bytes(a.drop_first()) + x;
        let b1 = items_bytes(b.drop_first()) + y;
        assert(items_bytes(a) + x =~= row_bytes(a[0]) + a1);
        assert(items_bytes(b) + y =~= row_bytes(b[0]) + b1);
        lemma_row(a[0], b[0], a1, b1);
        lemma_items(a.drop_first(), b.drop_first(), x, y);
        assert(a =~= seq![a[0]] + a.drop_first());
        assert(b =~= seq![b[0]] + b.drop_first());
    }
}

/// Every row takes room.
proof fn lemma_items_len(rows: Seq<RowView>)
    ensures
        items_bytes(rows).len() >= rows.len(),
    decreases rows.len(),
{
    lemma_auto_spec_u64_to_from_le_bytes();
    if rows.len() > 0 {
        lemma_items_len(rows.drop_first());
        assert(number_bytes(rows[0].2).len() == 8);
    }
}

/// Two lists of rows at the beginning of the same bytes are the same list.
proof fn lemma_rows(a: Seq<RowView>, b: Seq<RowView>, x: Seq<u8>, y: Seq<u8>)
    requires
        rows_bytes(a) + x == rows_bytes(b) + y,
        (rows_bytes(a) + x).len() <= u64::MAX,
    ensures
        a == b,
        x == y,
{
    lemma_items_len(a);
    lemma_items_len(b);
    let a1 = items_bytes(a) + x;
    let b1 = items_bytes(b) + y;
    assert(rows_bytes(a) + x =~= number_bytes(a.len() as u64) + a1);
    assert(rows_bytes(b) + y =~= number_bytes(b.len() as u64) + b1);
    lemma_number(a.len() as u64, b.len() as u64, a1, b1);
    assert(a.len() == b.len());
    lemma_items(a, b, x, y);
}

/// Bytes begin with the encoding of one list of rows at most.
pub proof fn rows_are_read_in_one_way(a: Seq<RowView>, b: Seq<RowView>, bytes: Seq<u8>)
    requires
        bytes.len() <= u64::MAX,
        rows_bytes(a).is_prefix_of(bytes),
        rows_bytes(b).is_prefix_of(bytes),
    ensures
        a == b,
{
    let x = bytes.skip(rows_bytes(a).len() as int);
    let y = bytes.skip(rows_bytes(b).len() as int);
    assert(rows_bytes(a) + x =~= bytes);
    assert(rows_bytes(b) + y =~= bytes);
    lemma_rows(a, b, x, y);
}

/// Bytes begin with the encoding of one message at most.
pub proof fn messages_are_read_in_one_way(a: PartsView, b: PartsView, bytes: Seq<u8>)
    requires
        bytes.len() <= u64::MAX,
        message_bytes(a).is_prefix_of(bytes),
        message_bytes(b).is_prefix_of(bytes),
    ensures
        a == b,
{
    let x = bytes.skip(message_bytes(a).len() as int);
    let y = bytes.skip(message_bytes(b).len() as int);
    let a3 = number_bytes(a.3) + x;
    let b3 = number_bytes(b.3) + y;
    let a2 = rows_bytes(a.2) + a3;
    let b2 = rows_bytes(b.2) + b3;
    let a1 = text_bytes(a.1) + a2;
    let b1 = text_bytes(b.1) + b2;
    assert(message_bytes(a) + x =~= bytes);
    assert(message_bytes(b) + y =~= bytes);
    assert(message_bytes(a) + x =~= text_bytes(a.0) + a1);
    assert(message_bytes(b) + y =~= text_bytes(b.0) + b1);
    lemma_text(a.0, b.0, a1, b1);
    lemma_text(a.1, b.1, a2, b2);
    lemma_rows(a.2, b.2, a3, b3);
    lemma_number(a.3, b.3, x, y);
}

/// Bytes begin with the encoding of one acknowledgement at most.
pub proof fn acks_are_read_in_one_way(
    a: (Seq<char>, usize),
    b: (Seq<char>, usize),
    bytes: Seq<u8>,
)
    requires
        bytes.len() <= u64::MAX,
        ack_bytes(a).is_prefix_of(bytes),
        ack_bytes(b).is_prefix_of(bytes),
    ensures
        a == b,
{
    let x = bytes.skip(ack_bytes(a).len() as int);
    let y = bytes.skip(ack_bytes(b).len() as int);
    let a1 = number_bytes(a.1 as u64) + x;
    let b1 = number_bytes(b.1 as u64) + y;
    assert(ack_bytes(a) + x =~= bytes);
    assert(ack_bytes(b) + y =~= bytes);
    assert(ack_bytes(a) + x =~= text_bytes(a.0) + a1);
    assert(ack_bytes(b) + y =~= text_bytes(b.0) + b1);
    lemma_text(a.0, b.0, a1, b1);
    lemma_number(a.1 as u64, b.1 as u64, x, y);
}

// ── What bytes are read as ─────────────────────────────────────────────────

/// The rows whose encoding `bytes` begin with.
pub open spec fn read_rows(bytes: Seq<u8>) -> Option<Seq<RowView>> {
    if exists|rows: Seq<RowView>| #[trigger] rows_bytes(rows).is_prefix_of(bytes) {
        Some(choose|rows: Seq<RowView>| #[trigger] rows_bytes(rows).is_prefix_of(bytes))
    } else {
        None
    }
}

/// The message whose encoding `bytes` begin with.
pub open spec fn read_parts(bytes: Seq<u8>) -> Option<PartsView> {
    if exists|p: PartsView| #[trigger] message_bytes(p).is_prefix_of(bytes) {
        Some(choose|p: PartsView| #[trigger] message_bytes(p).is_prefix_of(bytes))
    } else {
        None
    }
}

/// The acknowledgement whose encoding `bytes` begin with.
pub open spec fn read_ack(bytes: Seq<u8>) -> Option<(Seq<char>, usize)> {
    if exists|a: (Seq<char>, usize)| #[trigger] ack_bytes(a).is_prefix_of(bytes) {
        Some(choose|a: (Seq<char>, usize)| #[trigger] ack_bytes(a).is_prefix_of(bytes))
    } else {
        None
    }
}

/// Rows are read back from their encoding, whatever follows it, and not from any part of it
/// that stops short of the end.
pub proof fn rows_are_read_back(rows: Seq<RowView>, bytes: Seq<u8>)
    requires
        bytes.len() <= u64::MAX,
        rows_bytes(rows).is_prefix_of(bytes),
    ensures
        read_rows(bytes) == Some(rows),
        forall|n: int|
            0 <= n < rows_bytes(rows).len() ==> #[trigger] read_rows(bytes.take(n)) is None,
{
    rows_are_read_in_one_way(rows, read_rows(bytes)->0, bytes);
    assert forall|n: int| 0 <= n < rows_bytes(rows).len() implies #[trigger] read_rows(
        bytes.take(n),
    ) is None by {
        if read_rows(bytes.take(n)) is Some {
            let other = read_rows(bytes.take(n))->0;
            assert(rows_bytes(other) =~= bytes.subrange(0, rows_bytes(other).len() as int));
            rows_are_read_in_one_way(rows, other, bytes);
        }
    }
}

/// A message is read back from its encoding, whatever follows it, and not from any part of it
/// that stops short of the end.
pub proof fn messages_are_read_back(p: PartsView, bytes: Seq<u8>)
    requires
        bytes.len() <= u64::MAX,
        message_bytes(p).is_prefix_of(bytes),
    ensures
        read_parts(bytes) == Some(p),
        forall|n: int|
            0 <= n < message_bytes(p).len() ==> #[trigger] read_parts(bytes.take(n)) is None,
{
    messages_are_read_in_one_way(p, read_parts(bytes)->0, bytes);
    assert forall|n: int| 0 <= n < message_bytes(p).len() implies #[trigger] read_parts(
        bytes.take(n),
    ) is None by {
        if read_parts(bytes.take(n)) is Some {
            let other = read_parts(bytes.take(n))->0;
            assert(message_bytes(other) =~= bytes.subrange(0, message_bytes(other).len() as int));
            messages_are_read_in_one_way(p, other, bytes);
        }
    }
}

/// An acknowledgement is read back from its encoding, whatever follows it, and not from any
/// part of it that stops short of the end.
pub proof fn acks_are_read_back(a: (Seq<char>, usize), bytes: Seq<u8>)
    requires
        bytes.len() <= u64::MAX,
        ack_bytes(a).is_prefix_of(bytes),
    ensures
        read_ack(bytes) == Some(a),
        forall|n: int|
            0 <= n < ack_bytes(a).len() ==> #[trigger] read_ack(bytes.take(n)) is None,
{
    acks_are_read_in_one_way(a, read_ack(bytes)->0, bytes);
    assert forall|n: int| 0 <= n < ack_bytes(a).len() implies #[trigger] read_ack(
        bytes.take(n),
    ) is None by {
        if read_ack(bytes.take(n)) is Some {
            let other = read_ack(bytes.take(n))->0;
            assert(ack_bytes(other) =~= bytes.subrange(0, ack_bytes(other).len() as int));
            acks_are_read_in_one_way(a, other, bytes);
        }
    }
}

} // verus!
