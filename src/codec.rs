//! Conversion between an application message and its fragment packets.
//!
//! A message is serialised as: source (1 byte), destination (1 byte), session
//! id (8 bytes, big-endian), then the content bytes. The serialised bytes are
//! cut into slices of `FRAGMENT_DSIZE` bytes, at least one slice even when
//! there are no bytes; each slice travels in one fragment packet, zero-padded
//! to the full capacity, with its true length in `length`.
use vstd::prelude::*;
use crate::error::NodeError;
use crate::packet::{
    FloodRequest, Fragment, FragmentView, Message, MessageView, NodeType, Packet, PacketType,
    PacketTypeView, PacketView, SourceRoutingHeader, FRAGMENT_DSIZE,
};

verus! {

/// Length of the serialised header that precedes the content.
pub const HEADER_LEN: usize = 10;

/// The eight bytes of `x`, most significant first.
pub open spec fn be_bytes(x: u64) -> Seq<u8> {
    seq![
        (x >> 56u64) as u8,
        (x >> 48u64) as u8,
        (x >> 40u64) as u8,
        (x >> 32u64) as u8,
        (x >> 24u64) as u8,
        (x >> 16u64) as u8,
        (x >> 8u64) as u8,
        x as u8,
    ]
}

/// The number whose big-endian bytes are the first eight of `b`.
pub open spec fn be_value(b: Seq<u8>) -> u64 {
    (b[0] as u64) << 56u64 | (b[1] as u64) << 48u64 | (b[2] as u64) << 40u64 | (b[3] as u64)
        << 32u64 | (b[4] as u64) << 24u64 | (b[5] as u64) << 16u64 | (b[6] as u64) << 8u64 | (
    b[7] as u64)
}

/// The serialised form of a message.
pub open spec fn message_bytes(m: MessageView) -> Seq<u8> {
    seq![m.source, m.destination] + be_bytes(m.session_id) + m.content
}

/// The message that `b` serialises, if it serialises one.
pub open spec fn decode_message(b: Seq<u8>) -> Option<MessageView> {
    if b.len() < HEADER_LEN {
        None
    } else {
        Some(
            MessageView {
                source: b[0],
                destination: b[1],
                session_id: be_value(b.subrange(2, 10)),
                content: b.subrange(HEADER_LEN as int, b.len() as int),
            },
        )
    }
}

/// How many fragments carry `len` bytes: `ceil(len / FRAGMENT_DSIZE)`, at least one.
pub open spec fn fragment_count(len: nat) -> nat {
    if len == 0 {
        1
    } else {
        ((len + FRAGMENT_DSIZE - 1) / (FRAGMENT_DSIZE as int)) as nat
    }
}

/// The `i`-th slice of `b`.
pub open spec fn chunk(b: Seq<u8>, i: int) -> Seq<u8> {
    let start = i * FRAGMENT_DSIZE;
    let end = if (i + 1) * FRAGMENT_DSIZE <= b.len() {
        (i + 1) * FRAGMENT_DSIZE
    } else {
        b.len() as int
    };
    b.subrange(start, end)
}

/// The `i`-th fragment of the bytes `b`.
pub open spec fn fragment_of(b: Seq<u8>, i: int) -> FragmentView {
    let c = chunk(b, i);
    FragmentView {
        fragment_index: i as u64,
        total_n_fragments: fragment_count(b.len()) as u64,
        length: c.len() as u8,
        data: c + Seq::new((FRAGMENT_DSIZE - c.len()) as nat, |j: int| 0u8),
    }
}

/// The fragment packets that carry the bytes `b` over the given route.
pub open spec fn byte_packets(b: Seq<u8>, session_id: u64, hops: Seq<u8>, hop_index: usize) -> Seq<
    PacketView,
> {
    Seq::new(
        fragment_count(b.len()),
        |i: int|
            PacketView {
                hop_index,
                hops,
                session_id,
                pack_type: PacketTypeView::MsgFragment(fragment_of(b, i)),
            },
    )
}

/// The fragment packets of message `m` over the given route.
pub open spec fn fragment_packets(m: MessageView, hops: Seq<u8>, hop_index: usize) -> Seq<
    PacketView,
> {
    byte_packets(message_bytes(m), m.session_id, hops, hop_index)
}

/// The bytes that a packet contributes to reassembly: the first `length`
/// bytes of a fragment, nothing for a packet of any other kind.
pub open spec fn payload(p: PacketView) -> Seq<u8> {
    match p.pack_type {
        PacketTypeView::MsgFragment(f) => if (f.length as int) <= f.data.len() {
            f.data.subrange(0, f.length as int)
        } else {
            f.data
        },
        _ => Seq::empty(),
    }
}

/// The payloads of `ps` concatenated in order.
pub open spec fn concat_payloads(ps: Seq<PacketView>) -> Seq<u8>
    decreases ps.len(),
{
    if ps.len() == 0 {
        Seq::empty()
    } else {
        concat_payloads(ps.drop_last()) + payload(ps.last())
    }
}

/// The message that the packets `ps` carry, taken in the given order.
pub open spec fn reassemble(ps: Seq<PacketView>) -> Option<MessageView> {
    decode_message(concat_payloads(ps))
}

/// The views of a sequence of packets.
pub open spec fn views(ps: Seq<Packet>) -> Seq<PacketView> {
    ps.map_values(|p: Packet| p@)
}

/// Serialises a message.
pub fn encode_message(m: &Message) -> (r: Vec<u8>)
    requires
        m.content@.len() + HEADER_LEN <= usize::MAX,
    ensures
        r@ == message_bytes(m@),
{
    let mut r: Vec<u8> = Vec::new();
    r.push(m.source);
    r.push(m.destination);
    let x = m.session_id;
    r.push((x >> 56u64) as u8);
    r.push((x >> 48u64) as u8);
    r.push((x >> 40u64) as u8);
    r.push((x >> 32u64) as u8);
    r.push((x >> 24u64) as u8);
    r.push((x >> 16u64) as u8);
    r.push((x >> 8u64) as u8);
    r.push(x as u8);
    let ghost head = r@;
    assert(head == seq![m.source, m.destination] + be_bytes(x));
    let mut i: usize = 0;
    while i < m.content.len()
        invariant
            i <= m.content@.len(),
            r@ == head + m.content@.subrange(0, i as int),
        decreases m.content@.len() - i,
    {
        r.push(m.content[i]);
        i += 1;
        assert(m.content@.subrange(0, i as int) == m.content@.subrange(0, i - 1 as int).push(
            m.content@[i - 1],
        ));
    }
    assert(m.content@.subrange(0, i as int) == m.content@);
    r
}

/// Parses serialised bytes back into a message.
pub fn decode_message_bytes(b: &Vec<u8>) -> (r: Result<Message, NodeError>)
    ensures
        match r {
            Ok(m) => decode_message(b@) == Some(m@),
            Err(e) => e == NodeError::MalformedPayload && decode_message(b@) is None,
        },
{
    if b.len() < HEADER_LEN {
        return Err(NodeError::MalformedPayload);
    }
    let session_id: u64 = (b[2] as u64) << 56u64 | (b[3] as u64) << 48u64 | (b[4] as u64) << 40u64
        | (b[5] as u64) << 32u64 | (b[6] as u64) << 24u64 | (b[7] as u64) << 16u64 | (b[8] as u64)
        << 8u64 | (b[9] as u64);
    let mut content: Vec<u8> = Vec::new();
    let mut i: usize = HEADER_LEN;
    while i < b.len()
        invariant
            HEADER_LEN <= i <= b@.len(),
            content@ == b@.subrange(HEADER_LEN as int, i as int),
        decreases b@.len() - i,
    {
        content.push(b[i]);
        i += 1;
        assert(b@.subrange(HEADER_LEN as int, i as int) == b@.subrange(
            HEADER_LEN as int,
            i - 1 as int,
        ).push(b@[i - 1]));
    }
    let m = Message { source: b[0], destination: b[1], session_id, content };
    assert(b@.subrange(2, 10)[0] == b@[2]);
    assert(b@.subrange(2, 10)[7] == b@[9]);
    Ok(m)
}

/// The eight big-endian bytes of a number read back give the number.
pub proof fn lemma_be_round_trip(x: u64)
    ensures
        be_value(be_bytes(x)) == x,
{
    let b = be_bytes(x);
    assert(b[0] == (x >> 56u64) as u8);
    assert(b[7] == x as u8);
    assert(((((x >> 56u64) as u8) as u64) << 56u64 | (((x >> 48u64) as u8) as u64) << 48u64 | (((x
        >> 40u64) as u8) as u64) << 40u64 | (((x >> 32u64) as u8) as u64) << 32u64 | (((x
        >> 24u64) as u8) as u64) << 24u64 | (((x >> 16u64) as u8) as u64) << 16u64 | (((x
        >> 8u64) as u8) as u64) << 8u64 | ((x as u8) as u64)) == x) by (bit_vector);
}

/// Decoding the serialised form of a message gives the message back.
pub proof fn lemma_decode_encode(m: MessageView)
    ensures
        decode_message(message_bytes(m)) == Some(m),
{
    let b = message_bytes(m);
    lemma_be_round_trip(m.session_id);
    assert(b.subrange(2, 10) == be_bytes(m.session_id));
    assert(b.subrange(HEADER_LEN as int, b.len() as int) == m.content);
}

/// Every fragment but the last starts inside the bytes.
proof fn lemma_chunk_start(len: nat, i: int)
    requires
        0 <= i < fragment_count(len),
    ensures
        i * FRAGMENT_DSIZE <= len,
        i + 1 < fragment_count(len) ==> (i + 1) * FRAGMENT_DSIZE < len,
        i + 1 == fragment_count(len) ==> len <= (i + 1) * FRAGMENT_DSIZE,
{
}

/// Builds the `i`-th fragment of `bytes`.
fn make_fragment(bytes: &Vec<u8>, i: usize, total: u64) -> (f: Fragment)
    requires
        i < fragment_count(bytes@.len()),
        total == fragment_count(bytes@.len()),
    ensures
        f@ == fragment_of(bytes@, i as int),
{
    proof {
        lemma_chunk_start(bytes@.len(), i as int);
        assert(i * FRAGMENT_DSIZE <= bytes.len());
    }
    let start: usize = i * FRAGMENT_DSIZE;
    let end: usize = if bytes.len() - start >= FRAGMENT_DSIZE {
        start + FRAGMENT_DSIZE
    } else {
        bytes.len()
    };
    let ghost c = chunk(bytes@, i as int);
    assert(c == bytes@.subrange(start as int, end as int));
    let mut data: Vec<u8> = Vec::new();
    let mut j: usize = start;
    while j < end
        invariant
            start <= j <= end <= bytes@.len(),
            data@ == bytes@.subrange(start as int, j as int),
        decreases end - j,
    {
        data.push(bytes[j]);
        j += 1;
        assert(bytes@.subrange(start as int, j as int) == bytes@.subrange(
            start as int,
            j - 1 as int,
        ).push(bytes@[j - 1]));
    }
    let length: u8 = (end - start) as u8;
    while data.len() < FRAGMENT_DSIZE
        invariant
            c.len() <= data@.len() <= FRAGMENT_DSIZE,
            data@ == c + Seq::new((data@.len() - c.len()) as nat, |k: int| 0u8),
        decreases FRAGMENT_DSIZE - data@.len(),
    {
        data.push(0u8);
        assert(data@ == c + Seq::new((data@.len() - c.len()) as nat, |k: int| 0u8));
    }
    Fragment { fragment_index: i as u64, total_n_fragments: total, length, data }
}

/// Cuts a message into fragment packets that all carry `routing_header` and
/// the message's session id.
pub fn message_to_packets(message: &Message, routing_header: &SourceRoutingHeader) -> (r: Vec<
    Packet,
>)
    requires
        message.content@.len() + HEADER_LEN <= usize::MAX,
    ensures
        views(r@) == fragment_packets(message@, routing_header.hops@, routing_header.hop_index),
{
    let bytes = encode_message(message);
    let n: usize = if bytes.len() == 0 {
        1
    } else {
        bytes.len() / FRAGMENT_DSIZE + if bytes.len() % FRAGMENT_DSIZE == 0 {
            0
        } else {
            1
        }
    };
    assert(n == fragment_count(bytes@.len()));
    let ghost target = fragment_packets(message@, routing_header.hops@, routing_header.hop_index);
    let mut r: Vec<Packet> = Vec::new();
    let mut i: usize = 0;
    while i < n
        invariant
            i <= n,
            n == fragment_count(bytes@.len()),
            bytes@ == message_bytes(message@),
            target.len() == n,
            target == fragment_packets(message@, routing_header.hops@, routing_header.hop_index),
            views(r@) == target.subrange(0, i as int),
        decreases n - i,
    {
        let fragment = make_fragment(&bytes, i, n as u64);
        let p = Packet {
            routing_header: routing_header.duplicate(),
            session_id: message.session_id,
            pack_type: PacketType::MsgFragment(fragment),
        };
        let ghost before = r@;
        r.push(p);
        assert(views(r@) =~= views(before).push(p@));
        assert(p@ == target[i as int]);
        i += 1;
        assert(views(r@) =~= target.subrange(0, i as int));
    }
    assert(target.subrange(0, n as int) == target);
    r
}

/// The payload of one packet.
fn packet_payload(p: &Packet, out: &mut Vec<u8>)
    ensures
        final(out)@ == old(out)@ + payload(p@),
{
    if let PacketType::MsgFragment(f) = &p.pack_type {
        let end: usize = if (f.length as usize) <= f.data.len() {
            f.length as usize
        } else {
            f.data.len()
        };
        let ghost base = out@;
        let mut j: usize = 0;
        while j < end
            invariant
                j <= end <= f.data@.len(),
                out@ == base + f.data@.subrange(0, j as int),
            decreases end - j,
        {
            out.push(f.data[j]);
            j += 1;
            assert(f.data@.subrange(0, j as int) == f.data@.subrange(0, j - 1 as int).push(
                f.data@[j - 1],
            ));
        }
        assert(f.data@.subrange(0, end as int) == payload(p@));
    } else {
        assert(payload(p@) == Seq::<u8>::empty());
        assert(out@ == out@ + payload(p@));
    }
}

/// Reassembles a message from packets taken in the given order; packets
/// that are not fragments are skipped.
pub fn packets_to_message(packets: &Vec<Packet>) -> (r: Result<Message, NodeError>)
    ensures
        match r {
            Ok(m) => reassemble(views(packets@)) == Some(m@),
            Err(e) => e == NodeError::MalformedPayload && reassemble(views(packets@)) is None,
        },
{
    let mut bytes: Vec<u8> = Vec::new();
    let mut i: usize = 0;
    while i < packets.len()
        invariant
            i <= packets@.len(),
            bytes@ == concat_payloads(views(packets@).subrange(0, i as int)),
        decreases packets@.len() - i,
    {
        packet_payload(&packets[i], &mut bytes);
        i += 1;
        let ghost s = views(packets@).subrange(0, i as int);
        assert(s.drop_last() == views(packets@).subrange(0, i - 1 as int));
    }
    assert(views(packets@).subrange(0, i as int) == views(packets@));
    decode_message_bytes(&bytes)
}

/// A flood request from `initiator_id` with an empty route, whose trace
/// holds the initiator as a client.
pub fn get_new_flood_request_packet(session_id: u64, initiator_id: u8) -> (r: Packet)
    ensures
        r@ == (PacketView {
            hop_index: 0,
            hops: Seq::empty(),
            session_id,
            pack_type: PacketTypeView::FloodRequest {
                flood_id: session_id,
                initiator_id,
                path_trace: seq![(initiator_id, NodeType::Client)],
            },
        }),
{
    let mut path_trace: Vec<(u8, NodeType)> = Vec::new();
    path_trace.push((initiator_id, NodeType::Client));
    let r = Packet {
        routing_header: SourceRoutingHeader::empty_route(),
        session_id,
        pack_type: PacketType::FloodRequest(
            FloodRequest { flood_id: session_id, initiator_id, path_trace },
        ),
    };
    assert(r.routing_header.hops@ == Seq::<u8>::empty());
    r
}

/// The payloads of the first `k` fragments of `b` are the first bytes of `b`.
proof fn lemma_concat_prefix(b: Seq<u8>, session_id: u64, hops: Seq<u8>, hop_index: usize, k: int)
    requires
        0 <= k <= fragment_count(b.len()),
    ensures
        concat_payloads(byte_packets(b, session_id, hops, hop_index).subrange(0, k))
            == b.subrange(0, if k * FRAGMENT_DSIZE <= b.len() {
            k * FRAGMENT_DSIZE
        } else {
            b.len() as int
        }),
    decreases k,
{
    let ps = byte_packets(b, session_id, hops, hop_index);
    if k == 0 {
        assert(ps.subrange(0, 0) =~= Seq::<PacketView>::empty());
        assert(b.subrange(0, 0) =~= Seq::<u8>::empty());
    } else {
        lemma_concat_prefix(b, session_id, hops, hop_index, k - 1);
        lemma_chunk_start(b.len(), k - 1);
        let s = ps.subrange(0, k);
        assert(s.drop_last() == ps.subrange(0, k - 1));
        let f = fragment_of(b, k - 1);
        let c = chunk(b, k - 1);
        assert(f.data.subrange(0, f.length as int) == c);
        assert(payload(s.last()) == c);
        let end = if k * FRAGMENT_DSIZE <= b.len() {
            k * FRAGMENT_DSIZE
        } else {
            b.len() as int
        };
        assert(b.subrange(0, (k - 1) * FRAGMENT_DSIZE) + c =~= b.subrange(0, end));
    }
}

/// Reassembling the fragments of a message, in index order, gives the
/// message back, whatever route they carry.
pub proof fn lemma_fragments_round_trip(m: MessageView, hops: Seq<u8>, hop_index: usize)
    ensures
        reassemble(fragment_packets(m, hops, hop_index)) == Some(m),
{
    let b = message_bytes(m);
    let ps = fragment_packets(m, hops, hop_index);
    let n = fragment_count(b.len());
    lemma_concat_prefix(b, m.session_id, hops, hop_index, n as int);
    lemma_chunk_start(b.len(), n - 1);
    assert(ps.subrange(0, n as int) == ps);
    assert(b.subrange(0, b.len() as int) == b);
    lemma_decode_encode(m);
}

} // verus!
