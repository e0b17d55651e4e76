//! The gossip wire format: `[ 4-byte big-endian length ][ bincode payload ]`.

use vstd::prelude::*;
use vstd::string::StringExecFns;
use crate::encoding::{
    ack_bytes, acks_are_read_back, message_bytes, messages_are_read_back, read_ack, read_parts,
    PartsView,
};
use crate::error::EngineError;
use crate::state::crdt::Lww;
use crate::state::snapshot::{
    delta_of, from_rows, rows_keep_the_delta, rows_of, rows_view, to_rows, Row,
};
use crate::state::store::{delta_view, StateDelta};
use crate::text::{decimal, joined, push_decimal};

verus! {

/// A message pushed from one gossip node to another.
#[derive(Clone, Debug)]
pub struct GossipMessage {
    /// Sender's node ID.
    pub from_node_id: String,
    /// Sender's gossip address, under which the receiver registers it.
    pub from_gossip_addr: String,
    /// Only entries newer than the receiver's last known sync timestamp.
    pub deltas: StateDelta,
    /// The sender's count of rounds; for ordering debug logs.
    pub generation: u64,
}

/// The acknowledgement sent back once a gossip message has been merged.
#[derive(Clone, Debug)]
pub struct GossipAck {
    /// Receiver's node ID.
    pub from_node_id: String,
    /// How many entries changed the receiver's state.
    pub merged_count: usize,
}

/// A gossip message as a value.
pub ghost struct Gossip {
    pub from_node_id: Seq<char>,
    pub from_gossip_addr: Seq<char>,
    pub deltas: Seq<(Seq<char>, Lww)>,
    pub generation: u64,
}

impl View for GossipMessage {
    type V = Gossip;

    open spec fn view(&self) -> Gossip {
        Gossip {
            from_node_id: self.from_node_id@,
            from_gossip_addr: self.from_gossip_addr@,
            deltas: delta_view(self.deltas@),
            generation: self.generation,
        }
    }
}

impl View for GossipAck {
    type V = (Seq<char>, usize);

    open spec fn view(&self) -> (Seq<char>, usize) {
        (self.from_node_id@, self.merged_count)
    }
}

// ── Framing ────────────────────────────────────────────────────────────────

/// The largest payload that a receiver accepts (16 MiB).
pub const MAX_MESSAGE_BYTES: usize = 16 * 1024 * 1024;

/// The low 32 bits of `n`, most significant byte first.
pub open spec fn header_of(n: nat) -> Seq<u8> {
    seq![
        ((n / 0x100_0000) % 0x100) as u8,
        ((n / 0x1_0000) % 0x100) as u8,
        ((n / 0x100) % 0x100) as u8,
        (n % 0x100) as u8,
    ]
}

/// The length that a header announces.
pub open spec fn announced(header: Seq<u8>) -> nat {
    (header[0] * 0x100_0000 + header[1] * 0x1_0000 + header[2] * 0x100 + header[3]) as nat
}

/// A payload behind its header.
pub open spec fn framed(payload: Seq<u8>) -> Seq<u8> {
    header_of(payload.len()) + payload
}

/// A header announces the length it was made from, up to the 32 bits that it holds.
pub proof fn header_roundtrip(n: nat)
    ensures
        header_of(n).len() == 4,
        announced(header_of(n)) == n % 0x1_0000_0000,
{
    let a = n / 0x100_0000;
    let b = n / 0x1_0000;
    let c = n / 0x100;
    assert(b / 0x100 == a);
    assert(c / 0x100 == b);
    assert(n == c * 0x100 + n % 0x100);
    assert(c == b * 0x100 + c % 0x100);
    assert(b == a * 0x100 + b % 0x100);
    assert(a == (n / 0x1_0000_0000) * 0x100 + a % 0x100);
}

/// A frame is taken apart as it was put together: the first four bytes announce how many
/// follow, and what follows is the payload.
pub proof fn frame_roundtrip(payload: Seq<u8>)
    requires
        payload.len() < 0x1_0000_0000,
    ensures
        framed(payload).len() == 4 + payload.len(),
        announced(framed(payload).take(4)) == payload.len(),
        framed(payload).skip(4) == payload,
{
    header_roundtrip(payload.len());
    assert(framed(payload).take(4) =~= header_of(payload.len()));
    assert(framed(payload).skip(4) =~= payload);
}

/// Puts a payload behind its header.
pub fn frame(payload: &Vec<u8>) -> (r: Vec<u8>)
    ensures
        r@ == framed(payload@),
{
    let n: u64 = payload.len() as u64;
    let mut r: Vec<u8> = Vec::new();
    r.push(((n / 0x100_0000) % 0x100) as u8);
    r.push(((n / 0x1_0000) % 0x100) as u8);
    r.push(((n / 0x100) % 0x100) as u8);
    r.push((n % 0x100) as u8);
    assert(r@ =~= header_of(payload@.len()));
    let mut i: usize = 0;
    while i < payload.len()
        invariant
            0 <= i <= payload@.len(),
            r@ == header_of(payload@.len()) + payload@.take(i as int),
        decreases payload@.len() - i,
    {
        r.push(payload[i]);
        i = i + 1;
        assert(payload@.take(i as int) =~= payload@.take(i - 1).push(payload@[i - 1]));
    }
    assert(payload@.take(i as int) =~= payload@);
    r
}

/// What is said of a frame that announces `n` bytes, more than are accepted.
pub open spec fn too_large_text(n: nat) -> Seq<char> {
    "gossip message too large: "@ + decimal(n) + " bytes (max "@ + decimal(
        MAX_MESSAGE_BYTES as nat,
    ) + ")"@
}

/// The length of the payload behind `header`, unless that is more than is accepted.
pub fn frame_length(header: [u8; 4]) -> (r: Result<usize, EngineError>)
    ensures
        match r {
            Ok(n) => n == announced(header@) && n <= MAX_MESSAGE_BYTES,
            Err(e) => announced(header@) > MAX_MESSAGE_BYTES && (e matches EngineError::Peer(t)
                && t@ == too_large_text(announced(header@))),
        },
{
    let n: u64 = header[0] as u64 * 0x100_0000 + header[1] as u64 * 0x1_0000 + header[2] as u64
        * 0x100 + header[3] as u64;
    if n > MAX_MESSAGE_BYTES as u64 {
        let mut text: String = "gossip message too large: ".to_string();
        push_decimal(&mut text, n);
        text.append(" bytes (max ");
        push_decimal(&mut text, MAX_MESSAGE_BYTES as u64);
        text.append(")");
        Err(EngineError::Peer(text))
    } else {
        Ok(n as usize)
    }
}

// ── Messages as bytes ──────────────────────────────────────────────────────

/// A message as bincode is given it: sender, address, rows, generation.
pub type MessageParts = (String, String, Vec<Row>, u64);

/// Message parts as values.
pub open spec fn parts_view(p: MessageParts) -> PartsView {
    (p.0@, p.1@, rows_view(p.2@), p.3)
}

/// The parts of a message.
pub open spec fn parts_of(m: Gossip) -> PartsView {
    (m.from_node_id, m.from_gossip_addr, rows_of(m.deltas), m.generation)
}

/// The message that parts make up.
pub open spec fn message_of(p: PartsView) -> Gossip {
    Gossip {
        from_node_id: p.0,
        from_gossip_addr: p.1,
        deltas: delta_of(p.2),
        generation: p.3,
    }
}

/// The text of the error that `bincode::deserialize` meets where it looks for message parts in
/// bytes that do not begin with any, on a machine with words of `word_bits` bits.
pub uninterp spec fn message_error(bytes: Seq<u8>, word_bits: u32) -> Seq<char>;

/// The text of the error that `bincode::deserialize` meets where it looks for an
/// acknowledgement in bytes that do not begin with one, on a machine with words of `word_bits`
/// bits.
pub uninterp spec fn ack_error(bytes: Seq<u8>, word_bits: u32) -> Seq<char>;

/// `bincode::serialize`, which has no size limit and meets no sequence of unknown length
/// here, always succeeds on message parts. It writes numbers and lengths as eight bytes, least
/// significant first, and texts as UTF-8.
#[verifier::external_body]
fn encode_parts(parts: &MessageParts) -> (r: Result<Vec<u8>, String>)
    ensures
        r is Ok,
        r->Ok_0@ == message_bytes(parts_view(*parts)),
{
    bincode::serialize(parts).map_err(|e| e.to_string())
}

/// `bincode::deserialize` reads message parts from bytes that begin with what
/// `bincode::serialize` writes for them, whatever follows, and fails on all other bytes. The
/// text of its error is a function of the bytes and of the size of a word.
#[verifier::external_body]
fn decode_parts(bytes: &[u8]) -> (r: Result<MessageParts, String>)
    ensures
        match r {
            Ok(parts) => message_bytes(parts_view(parts)).is_prefix_of(bytes@),
            Err(text) => read_parts(bytes@) is None && text@ == message_error(
                bytes@,
                usize::BITS,
            ),
        },
{
    bincode::deserialize(bytes).map_err(|e| e.to_string())
}

/// `bincode::serialize` always succeeds on an acknowledgement. It writes the text as its
/// length and its UTF-8 bytes and the count as a number of eight bytes.
#[verifier::external_body]
fn encode_ack_parts(ack: &(String, usize)) -> (r: Result<Vec<u8>, String>)
    ensures
        r is Ok,
        r->Ok_0@ == ack_bytes((ack.0@, ack.1)),
{
    bincode::serialize(ack).map_err(|e| e.to_string())
}

/// `bincode::deserialize` reads an acknowledgement from bytes that begin with what
/// `bincode::serialize` writes for it, whatever follows, and fails on all other bytes: also on
/// a count that is too large for a word. The text of its error is a function of the bytes and
/// of the size of a word.
#[verifier::external_body]
fn decode_ack_parts(bytes: &[u8]) -> (r: Result<(String, usize), String>)
    ensures
        match r {
            Ok(ack) => ack_bytes((ack.0@, ack.1)).is_prefix_of(bytes@),
            Err(text) => read_ack(bytes@) is None && text@ == ack_error(bytes@, usize::BITS),
        },
{
    bincode::deserialize(bytes).map_err(|e| e.to_string())
}

/// The message whose encoding `payload` begins with.
pub open spec fn read_message_payload(payload: Seq<u8>) -> Option<Gossip> {
    match read_parts(payload) {
        Some(p) => Some(message_of(p)),
        None => None,
    }
}

/// The payload of a message is read back as the same message, and nothing is read from any
/// part of it that stops short of the end.
pub proof fn payloads_are_read_back(m: Gossip)
    requires
        message_bytes(parts_of(m)).len() <= u64::MAX,
    ensures
        read_message_payload(message_bytes(parts_of(m))) == Some(m),
        forall|n: int|
            0 <= n < message_bytes(parts_of(m)).len() ==> #[trigger] read_message_payload(
                message_bytes(parts_of(m)).take(n),
            ) is None,
{
    let bytes = message_bytes(parts_of(m));
    assert(bytes.subrange(0, bytes.len() as int) =~= bytes);
    messages_are_read_back(parts_of(m), bytes);
    rows_keep_the_delta(m.deltas);
    assert forall|n: int| 0 <= n < bytes.len() implies #[trigger] read_message_payload(
        bytes.take(n),
    ) is None by {
        assert(read_parts(bytes.take(n)) is None);
    }
}

/// The frame of a gossip message. Its payload is read back as the same message.
pub fn encode_message(msg: &GossipMessage) -> (r: Result<Vec<u8>, EngineError>)
    ensures
        r is Ok,
        r->Ok_0@ == framed(message_bytes(parts_of(msg@))),
        read_message_payload(r->Ok_0@.skip(4)) == Some(msg@),
{
    let parts: MessageParts = (
        msg.from_node_id.clone(),
        msg.from_gossip_addr.clone(),
        to_rows(&msg.deltas),
        msg.generation,
    );
    match encode_parts(&parts) {
        Ok(payload) => {
            proof {
                assert(payload.len() <= u64::MAX);
                payloads_are_read_back(msg@);
                assert(framed(payload@).skip(4) =~= payload@);
            }
            Ok(frame(&payload))
        },
        Err(text) => Err(EngineError::Serialization(joined("gossip encode: ", text.as_str()))),
    }
}

/// The gossip message in a payload.
pub fn decode_message(payload: &[u8]) -> (r: Result<GossipMessage, EngineError>)
    ensures
        match read_message_payload(payload@) {
            Some(m) => r matches Ok(msg) && msg@ == m,
            None => r matches Err(EngineError::Serialization(t)) && t@ == "gossip decode: "@
                + message_error(payload@, usize::BITS),
        },
{
    let decoded = decode_parts(payload);
    proof {
        assert(payload.len() <= u64::MAX);
        if decoded is Ok {
            messages_are_read_back(parts_view(decoded->Ok_0), payload@);
        }
    }
    message_from_decoded(decoded)
}

/// The message that decoded parts make up, or the error that their decoding met.
pub fn message_from_decoded(decoded: Result<MessageParts, String>) -> (r: Result<
    GossipMessage,
    EngineError,
>)
    ensures
        match decoded {
            Ok(p) => r matches Ok(msg) && msg@ == message_of(parts_view(p)),
            Err(text) => r matches Err(EngineError::Serialization(t)) && t@ == "gossip decode: "@
                + text@,
        },
{
    match decoded {
        Ok(p) => Ok(
            GossipMessage {
                from_node_id: p.0,
                from_gossip_addr: p.1,
                deltas: from_rows(&p.2),
                generation: p.3,
            },
        ),
        Err(text) => Err(EngineError::Serialization(joined("gossip decode: ", text.as_str()))),
    }
}

/// The frame of an acknowledgement. Its payload is read back as the same one.
pub fn encode_ack(ack: &GossipAck) -> (r: Result<Vec<u8>, EngineError>)
    ensures
        r is Ok,
        r->Ok_0@ == framed(ack_bytes(ack@)),
        read_ack(r->Ok_0@.skip(4)) == Some(ack@),
{
    match encode_ack_parts(&(ack.from_node_id.clone(), ack.merged_count)) {
        Ok(payload) => {
            proof {
                assert(payload.len() <= u64::MAX);
                assert(payload@.subrange(0, payload@.len() as int) =~= payload@);
                acks_are_read_back(ack@, payload@);
                assert(framed(payload@).skip(4) =~= payload@);
            }
            Ok(frame(&payload))
        },
        Err(text) => Err(EngineError::Serialization(joined("gossip encode: ", text.as_str()))),
    }
}

/// The acknowledgement in a payload.
pub fn decode_ack(payload: &[u8]) -> (r: Result<GossipAck, EngineError>)
    ensures
        match read_ack(payload@) {
            Some(a) => r matches Ok(ack) && ack@ == a,
            None => r matches Err(EngineError::Serialization(t)) && t@ == "gossip decode: "@
                + ack_error(payload@, usize::BITS),
        },
{
    let decoded = decode_ack_parts(payload);
    proof {
        assert(payload.len() <= u64::MAX);
        if decoded is Ok {
            acks_are_read_back((decoded->Ok_0.0@, decoded->Ok_0.1), payload@);
        }
    }
    ack_from_decoded(decoded)
}

/// The acknowledgement that decoded parts make up, or the error that their decoding met.
pub fn ack_from_decoded(decoded: Result<(String, usize), String>) -> (r: Result<
    GossipAck,
    EngineError,
>)
    ensures
        match decoded {
            Ok(a) => r matches Ok(ack) && ack@ == (a.0@, a.1),
            Err(text) => r matches Err(EngineError::Serialization(t)) && t@ == "gossip decode: "@
                + text@,
        },
{
    match decoded {
        Ok(a) => Ok(GossipAck { from_node_id: a.0, merged_count: a.1 }),
        Err(text) => Err(EngineError::Serialization(joined("gossip decode: ", text.as_str()))),
    }
}

/// A header is the length of the payload, most significant byte first, and is read so.
pub proof fn headers_are_big_endian(n: nat, header: Seq<u8>)
    requires
        n < 0x1_0000_0000,
        header.len() == 4,
    ensures
        header_of(n).len() == 4,
        n == header_of(n)[0] * 16_777_216 + header_of(n)[1] * 65_536 + header_of(n)[2] * 256
            + header_of(n)[3],
        announced(header) == header[0] * 16_777_216 + header[1] * 65_536 + header[2] * 256
            + header[3],
        header_of(announced(header)) == header,
{
    header_roundtrip(n);
    let h = header;
    let a = announced(h);
    assert(a % 0x100 == h[3]);
    assert(a / 0x100 == h[0] * 0x1_0000 + h[1] * 0x100 + h[2]);
    assert((a / 0x100) % 0x100 == h[2]);
    assert(a / 0x1_0000 == h[0] * 0x100 + h[1]);
    assert((a / 0x1_0000) % 0x100 == h[1]);
    assert(a / 0x100_0000 == h[0]);
    assert(header_of(a) =~= h);
}

/// A receiver accepts payloads of up to 16 MiB, and says of a larger one how large it is and
/// how large it may be.
pub proof fn sixteen_mebibytes_are_accepted(n: nat)
    ensures
        MAX_MESSAGE_BYTES == 16_777_216,
        too_large_text(n) == "gossip message too large: "@ + decimal(n) + " bytes (max "@
            + decimal(16_777_216) + ")"@,
{
}

/// A message is seen whole: sender, address, every entry, generation.
pub proof fn messages_are_seen_whole(m: GossipMessage, a: GossipAck)
    ensures
        m@.from_node_id == m.from_node_id@,
        m@.from_gossip_addr == m.from_gossip_addr@,
        m@.deltas == delta_view(m.deltas@),
        m@.generation == m.generation,
        a@.0 == a.from_node_id@,
        a@.1 == a.merged_count,
{
}

/// The parts of a message are its sender, its address, a row for every entry, and its
/// generation; and they make up the message again.
pub proof fn parts_make_up_the_message(m: Gossip, p: MessageParts)
    ensures
        parts_of(m).0 == m.from_node_id,
        parts_of(m).1 == m.from_gossip_addr,
        parts_of(m).2 == rows_of(m.deltas),
        parts_of(m).3 == m.generation,
        message_of(parts_of(m)) == m,
        parts_view(p).0 == p.0@,
        parts_view(p).1 == p.1@,
        parts_view(p).2 == rows_view(p.2@),
        parts_view(p).3 == p.3,
{
    rows_keep_the_delta(m.deltas);
}

/// A frame of a payload that is not too large is accepted, read to its end, and gives the
/// payload back.
pub proof fn frames_of_accepted_size_get_through(payload: Seq<u8>)
    requires
        payload.len() <= 16_777_216,
    ensures
        announced(framed(payload).take(4)) <= MAX_MESSAGE_BYTES,
        framed(payload).len() == 4 + announced(framed(payload).take(4)),
        framed(payload).subrange(4, 4 + announced(framed(payload).take(4)) as int) == payload,
{
    frame_roundtrip(payload);
    assert(framed(payload).subrange(4, 4 + payload.len() as int) =~= payload);
}

/// A message or an acknowledgement is read from bytes exactly where they begin with its
/// encoding.
pub proof fn payloads_are_read_by_their_beginning(
    bytes: Seq<u8>,
    m: Gossip,
    a: (Seq<char>, usize),
)
    requires
        bytes.len() <= u64::MAX,
    ensures
        read_message_payload(bytes) == Some(m) <==> message_bytes(parts_of(m)).is_prefix_of(bytes),
        read_ack(bytes) == Some(a) <==> ack_bytes(a).is_prefix_of(bytes),
{
    if message_bytes(parts_of(m)).is_prefix_of(bytes) {
        messages_are_read_back(parts_of(m), bytes);
        rows_keep_the_delta(m.deltas);
    }
    if read_message_payload(bytes) == Some(m) {
        let p = read_parts(bytes)->0;
        assert(message_bytes(p).is_prefix_of(bytes));
        assert(rows_of(delta_of(p.2)) =~= p.2);
        assert(parts_of(m) == p);
    }
    if ack_bytes(a).is_prefix_of(bytes) {
        acks_are_read_back(a, bytes);
    }
}

} // verus!
