//! Frames: how packets follow one another on a connection.

use crate::packet;
use crate::packet::{Packet, PacketView};
use crate::relay;
use crate::text;
use crate::wire;
use crate::wire::{P2pError, ParseError};
use vstd::prelude::*;
use vstd::slice::slice_subrange;

verus! {

pub const FRAME_HEADER_SIZE: usize = 9;

pub const MAX_MESSAGE: usize = 8_000_000;

/// What a network of peers is known by.
#[derive(Clone, Debug, PartialEq, Eq)]
pub struct NetworkParameters {
    pub name: String,
    pub magic: u32,
    pub port: u16,
    pub dns_seeds: Vec<String>,
}

// ---------------------------------------------------------------------
// Headers
// ---------------------------------------------------------------------

#[derive(Clone, Copy, Debug, PartialEq, Eq, Structural)]
pub struct FrameHeader {
    pub magic: u32,
    pub packet_type: u8,
    pub payload_len: u32,
}

pub open spec fn header_bytes(h: FrameHeader) -> Seq<u8> {
    wire::le_bytes(h.magic as nat, 4) + seq![h.packet_type] + wire::le_bytes(
        h.payload_len as nat,
        4,
    )
}

/// The header that at least nine bytes begin with.
pub open spec fn header_of(data: Seq<u8>) -> FrameHeader {
    FrameHeader {
        magic: wire::le_number(data.subrange(0, 4)) as u32,
        packet_type: data[4],
        payload_len: wire::le_number(data.subrange(5, 9)) as u32,
    }
}

impl FrameHeader {
    pub fn encode(&self, out: &mut Vec<u8>)
        ensures
            final(out)@ == old(out)@ + header_bytes(*self),
    {
        let ghost start = out@;
        wire::push_le(out, self.magic as u64, 4);
        out.push(self.packet_type);
        wire::push_le(out, self.payload_len as u64, 4);
        assert(out@ =~= start + header_bytes(*self));
    }

    pub fn parse(data: &[u8]) -> (r: Result<Self, P2pError>)
        ensures
            match r {
                Ok(h) => data@.len() >= FRAME_HEADER_SIZE && h == header_of(data@),
                Err(e) => data@.len() < FRAME_HEADER_SIZE && e == P2pError::Parse(
                    ParseError::UnexpectedEof,
                ),
            },
    {
        if data.len() < FRAME_HEADER_SIZE {
            return Err(P2pError::Parse(ParseError::UnexpectedEof));
        }
        let magic = text::bytes_between(data, 0, 4);
        let len = text::bytes_between(data, 5, 9);
        proof {
            wire::lemma_byte_powers();
            wire::lemma_le_number_bound(magic@);
            wire::lemma_le_number_bound(len@);
        }
        Ok(
            FrameHeader {
                magic: wire::number_of(magic.as_slice()) as u32,
                packet_type: data[4],
                payload_len: wire::number_of(len.as_slice()) as u32,
            },
        )
    }
}

/// A header is read back as it was written.
pub proof fn headers_round_trip(h: FrameHeader, tail: Seq<u8>)
    ensures
        header_bytes(h).len() == FRAME_HEADER_SIZE,
        header_of(header_bytes(h) + tail) == h,
{
    let data = header_bytes(h) + tail;
    wire::lemma_byte_powers();
    wire::lemma_le_number_of_bytes(h.magic as nat, 4);
    wire::lemma_le_number_of_bytes(h.payload_len as nat, 4);
    assert(data.subrange(0, 4) =~= wire::le_bytes(h.magic as nat, 4));
    assert(data.subrange(5, 9) =~= wire::le_bytes(h.payload_len as nat, 4));
}

// ---------------------------------------------------------------------
// Frames
// ---------------------------------------------------------------------

/// The frame of a packet, or why it has none.
pub open spec fn encoded_frame(magic: u32, p: PacketView) -> Result<Seq<u8>, P2pError> {
    match packet::encoded_payload(p) {
        Err(e) => Err(e),
        Ok(payload) => if payload.len() > MAX_MESSAGE {
            Err(P2pError::MessageTooLarge)
        } else {
            Ok(
                header_bytes(
                    FrameHeader {
                        magic,
                        packet_type: packet::raw_type_of(p),
                        payload_len: payload.len() as u32,
                    },
                ) + payload,
            )
        },
    }
}

/// What is wrong with a header, whatever follows it.
pub open spec fn header_error(magic: u32, h: FrameHeader) -> Option<P2pError> {
    if h.magic != magic {
        Some(P2pError::InvalidMagic)
    } else if h.payload_len > MAX_MESSAGE {
        Some(P2pError::MessageTooLarge)
    } else if h.packet_type == relay::EXPERIMENTAL_GET_DNS_RELAY && h.payload_len
        > relay::MAX_DNS_RELAY_REQUEST_PAYLOAD_SIZE {
        Some(P2pError::DnsRelayQueryTooLarge)
    } else if h.packet_type == relay::EXPERIMENTAL_DNS_RELAY && h.payload_len
        > relay::MAX_DNS_RELAY_RESPONSE_PAYLOAD_SIZE {
        Some(P2pError::DnsRelayResponseTooLarge)
    } else {
        None
    }
}

/// The packet that the bytes begin with and the length of its frame, or `None`
/// where the frame is not all there yet.
pub open spec fn decoded_frame(magic: u32, data: Seq<u8>) -> Result<
    Option<(PacketView, nat)>,
    P2pError,
> {
    if data.len() < FRAME_HEADER_SIZE {
        Ok(None)
    } else {
        let h = header_of(data);
        let end = FRAME_HEADER_SIZE as nat + h.payload_len as nat;
        match header_error(magic, h) {
            Some(e) => Err(e),
            None => if data.len() < end {
                Ok(None)
            } else {
                match packet::decoded_payload(
                    h.packet_type,
                    data.subrange(FRAME_HEADER_SIZE as int, end as int),
                ) {
                    Err(e) => Err(e),
                    Ok(p) => Ok(Some((p, end))),
                }
            },
        }
    }
}

pub fn encode_frame(network: &NetworkParameters, packet: &Packet) -> (r: Result<
    Vec<u8>,
    P2pError,
>)
    ensures
        relay::same_bytes(r, encoded_frame(network.magic, packet@)),
{
    let payload = match packet.encode_payload() {
        Ok(b) => b,
        Err(e) => {
            return Err(e);
        },
    };
    if payload.len() > MAX_MESSAGE {
        return Err(P2pError::MessageTooLarge);
    }
    let mut out: Vec<u8> = Vec::new();
    let header = FrameHeader {
        magic: network.magic,
        packet_type: packet.raw_packet_type(),
        payload_len: payload.len() as u32,
    };
    header.encode(&mut out);
    text::push_bytes(&mut out, payload.as_slice());
    assert(out@ =~= header_bytes(header) + payload@);
    Ok(out)
}

pub open spec fn same_frame(
    r: Result<Option<(Packet, usize)>, P2pError>,
    v: Result<Option<(PacketView, nat)>, P2pError>,
) -> bool {
    match (r, v) {
        (Ok(Some((p, n))), Ok(Some((q, m)))) => p@ == q && n == m,
        (Ok(None), Ok(None)) => true,
        (Err(e), Err(f)) => e == f,
        _ => false,
    }
}

fn check_header(magic: u32, h: FrameHeader) -> (r: Option<P2pError>)
    ensures
        r == header_error(magic, h),
{
    if h.magic != magic {
        return Some(P2pError::InvalidMagic);
    }
    let len: usize = h.payload_len as usize;
    if len > MAX_MESSAGE {
        return Some(P2pError::MessageTooLarge);
    }
    if h.packet_type == relay::EXPERIMENTAL_GET_DNS_RELAY && len
        > relay::MAX_DNS_RELAY_REQUEST_PAYLOAD_SIZE {
        return Some(P2pError::DnsRelayQueryTooLarge);
    }
    if h.packet_type == relay::EXPERIMENTAL_DNS_RELAY && len
        > relay::MAX_DNS_RELAY_RESPONSE_PAYLOAD_SIZE {
        return Some(P2pError::DnsRelayResponseTooLarge);
    }
    None
}

fn decode_with(magic: u32, data: &[u8]) -> (r: Result<Option<(Packet, usize)>, P2pError>)
    ensures
        same_frame(r, decoded_frame(magic, data@)),
{
    if data.len() < FRAME_HEADER_SIZE {
        return Ok(None);
    }
    let header = match FrameHeader::parse(data) {
        Ok(h) => h,
        Err(e) => {
            return Err(e);
        },
    };
    match check_header(magic, header) {
        Some(e) => {
            return Err(e);
        },
        None => {},
    }
    let end: usize = FRAME_HEADER_SIZE + header.payload_len as usize;
    if data.len() < end {
        return Ok(None);
    }
    match Packet::decode_payload(
        header.packet_type,
        slice_subrange(data, FRAME_HEADER_SIZE, end),
    ) {
        Ok(p) => Ok(Some((p, end))),
        Err(e) => Err(e),
    }
}

pub fn decode_frame(network: &NetworkParameters, data: &[u8]) -> (r: Result<
    Option<(Packet, usize)>,
    P2pError,
>)
    ensures
        same_frame(r, decoded_frame(network.magic, data@)),
{
    decode_with(network.magic, data)
}

/// A frame is read back as the packet that it was written for, whatever follows
/// it.
pub proof fn frames_round_trip(magic: u32, p: PacketView, frame: Seq<u8>, tail: Seq<u8>)
    requires
        packet::well_sized(p),
        packet::names_plain_addresses(p),
        p is Unknown ==> !packet::is_known_type(p->packet_type),
        encoded_frame(magic, p) == Ok::<Seq<u8>, P2pError>(frame),
    ensures
        decoded_frame(magic, frame + tail) == Ok::<Option<(PacketView, nat)>, P2pError>(
            Some((p, frame.len())),
        ),
{
    let payload = packet::encoded_payload(p)->Ok_0;
    let h = FrameHeader {
        magic,
        packet_type: packet::raw_type_of(p),
        payload_len: payload.len() as u32,
    };
    let data = frame + tail;
    headers_round_trip(h, payload + tail);
    assert(data =~= header_bytes(h) + (payload + tail));
    packet::packets_round_trip(p, payload);
    assert(data.subrange(FRAME_HEADER_SIZE as int, FRAME_HEADER_SIZE as int + payload.len())
        =~= payload);
    match p {
        PacketView::GetDnsRelay(q) => {
            relay::relay_requests_round_trip(q);
        },
        PacketView::DnsRelay(q) => {
            relay::relay_responses_round_trip(q);
        },
        _ => {},
    }
}

// ---------------------------------------------------------------------
// Streams
// ---------------------------------------------------------------------

/// The packets of all frames that are there, and what is left over.
pub open spec fn unframed(magic: u32, data: Seq<u8>) -> Result<(Seq<PacketView>, Seq<u8>), P2pError>
    decreases data.len(),
{
    match decoded_frame(magic, data) {
        Err(e) => Err(e),
        Ok(None) => Ok((Seq::empty(), data)),
        Ok(Some((p, used))) => match unframed(magic, data.skip(used as int)) {
            Err(e) => Err(e),
            Ok((more, rest)) => Ok((seq![p] + more, rest)),
        },
    }
}

/// What a decoder holds after it was fed, and what it hands out.
pub open spec fn fed(magic: u32, held: Seq<u8>, data: Seq<u8>) -> (
    Seq<u8>,
    Result<Seq<PacketView>, P2pError>,
) {
    if held.len() + data.len() > MAX_MESSAGE + FRAME_HEADER_SIZE {
        (held, Err(P2pError::MessageTooLarge))
    } else {
        match unframed(magic, held + data) {
            Err(e) => (held + data, Err(e)),
            Ok((packets, rest)) => (rest, Ok(packets)),
        }
    }
}

pub open spec fn packet_views(packets: Seq<Packet>) -> Seq<PacketView> {
    packets.map_values(|p: Packet| p@)
}

/// Takes packets out of a stream of bytes that comes in pieces.
#[derive(Debug)]
pub struct FrameDecoder {
    buffer: Vec<u8>,
    magic: u32,
}

impl FrameDecoder {
    /// What was fed and not taken out.
    pub closed spec fn held(self) -> Seq<u8> {
        self.buffer@
    }

    pub closed spec fn network_magic(self) -> u32 {
        self.magic
    }

    pub fn new(network: &NetworkParameters) -> (r: Self)
        ensures
            r.held() == Seq::<u8>::empty(),
            r.network_magic() == network.magic,
    {
        FrameDecoder { buffer: Vec::new(), magic: network.magic }
    }

    pub fn feed(&mut self, data: &[u8]) -> (r: Result<Vec<Packet>, P2pError>)
        ensures
            final(self).network_magic() == old(self).network_magic(),
            final(self).held() == fed(old(self).network_magic(), old(self).held(), data@).0,
            match (r, fed(old(self).network_magic(), old(self).held(), data@).1) {
                (Ok(packets), Ok(views)) => packet_views(packets@) == views,
                (Err(e), Err(f)) => e == f,
                _ => false,
            },
    {
        let ghost before = self.buffer@;
        if data.len() > MAX_MESSAGE + FRAME_HEADER_SIZE || self.buffer.len() > MAX_MESSAGE
            + FRAME_HEADER_SIZE - data.len() {
            return Err(P2pError::MessageTooLarge);
        }
        text::push_bytes(&mut self.buffer, data);
        let ghost all = self.buffer@;
        let total: usize = self.buffer.len();
        let mut packets: Vec<Packet> = Vec::new();
        let mut consumed: usize = 0;
        assert(all.skip(0) =~= all);
        assert(packet_views(packets@) =~= Seq::empty());
        loop
            invariant_except_break
                self.buffer@ == all,
                total == all.len(),
                consumed <= total,
                self.magic == old(self).magic,
                before == old(self).buffer@,
                all == before + data@,
                before.len() + data@.len() <= MAX_MESSAGE + FRAME_HEADER_SIZE,
                match unframed(self.magic, all.skip(consumed as int)) {
                    Err(e) => unframed(self.magic, all) == Err::<(Seq<PacketView>, Seq<u8>), P2pError>(
                        e,
                    ),
                    Ok((more, rest)) => unframed(self.magic, all) == Ok::<
                        (Seq<PacketView>, Seq<u8>),
                        P2pError,
                    >((packet_views(packets@) + more, rest)),
                },
            ensures
                self.buffer@ == all,
                total == all.len(),
                consumed <= total,
                self.magic == old(self).magic,
                before == old(self).buffer@,
                all == before + data@,
                before.len() + data@.len() <= MAX_MESSAGE + FRAME_HEADER_SIZE,
                unframed(self.magic, all) == Ok::<(Seq<PacketView>, Seq<u8>), P2pError>(
                    (packet_views(packets@), all.skip(consumed as int)),
                ),
            decreases total - consumed,
        {
            let ghost left = all.skip(consumed as int);
            let rest = slice_subrange(self.buffer.as_slice(), consumed, total);
            assert(rest@ =~= left);
            match decode_with(self.magic, rest) {
                Err(e) => {
                    return Err(e);
                },
                Ok(None) => {
                    assert(packet_views(packets@) + Seq::<PacketView>::empty() =~= packet_views(
                        packets@,
                    ));
                    break;
                },
                Ok(Some((packet, used))) => {
                    let ghost taken = packet_views(packets@);
                    proof {
                        assert(left.skip(used as int) =~= all.skip(consumed as int + used as int));
                        assert(packet_views(packets@.push(packet)) =~= taken + seq![packet@]);
                        match unframed(self.magic, left.skip(used as int)) {
                            Ok((more, r)) => {
                                assert(taken + (seq![packet@] + more) =~= (taken + seq![packet@])
                                    + more);
                            },
                            Err(_) => {},
                        }
                    }
                    consumed += used;
                    packets.push(packet);
                },
            }
        }
        if consumed > 0 {
            let rest = text::bytes_between(self.buffer.as_slice(), consumed, total);
            assert(rest@ =~= all.skip(consumed as int));
            self.buffer = rest;
        }
        assert(all.skip(0) =~= all);
        Ok(packets)
    }

    pub fn buffered_len(&self) -> (r: usize)
        ensures
            r == self.held().len(),
    {
        self.buffer.len()
    }
}

/// A frame that is all there stays the same frame when more bytes follow, and
/// what is wrong with it stays wrong.
proof fn lemma_more_bytes(magic: u32, data: Seq<u8>, more: Seq<u8>)
    requires
        decoded_frame(magic, data) != Ok::<Option<(PacketView, nat)>, P2pError>(None),
    ensures
        decoded_frame(magic, data + more) == decoded_frame(magic, data),
{
    let all = data + more;
    assert(all.subrange(0, 4) =~= data.subrange(0, 4));
    assert(all.subrange(5, 9) =~= data.subrange(5, 9));
    let end = FRAME_HEADER_SIZE as int + header_of(data).payload_len as int;
    if data.len() >= end {
        assert(all.subrange(FRAME_HEADER_SIZE as int, end) =~= data.subrange(
            FRAME_HEADER_SIZE as int,
            end,
        ));
    }
}

/// It does not matter how a stream is cut: what two pieces give one after the
/// other is what they give at once.
#[verifier::rlimit(50)]
pub proof fn streams_can_be_cut_anywhere(magic: u32, data: Seq<u8>, more: Seq<u8>)
    ensures
        match unframed(magic, data) {
            Err(e) => unframed(magic, data + more) == Err::<(Seq<PacketView>, Seq<u8>), P2pError>(e),
            Ok((first, rest)) => match unframed(magic, rest + more) {
                Err(e) => unframed(magic, data + more) == Err::<
                    (Seq<PacketView>, Seq<u8>),
                    P2pError,
                >(e),
                Ok((second, left)) => unframed(magic, data + more) == Ok::<
                    (Seq<PacketView>, Seq<u8>),
                    P2pError,
                >((first + second, left)),
            },
        },
    decreases data.len(),
{
    match decoded_frame(magic, data) {
        Err(e) => {
            lemma_more_bytes(magic, data, more);
        },
        Ok(None) => {
            match unframed(magic, data + more) {
                Ok((second, left)) => {
                    assert(Seq::<PacketView>::empty() + second =~= second);
                },
                Err(_) => {},
            }
        },
        Ok(Some((p, used))) => {
            lemma_more_bytes(magic, data, more);
            let next = data.skip(used as int);
            streams_can_be_cut_anywhere(magic, next, more);
            assert((data + more).skip(used as int) =~= next + more);
            match unframed(magic, next) {
                Ok((first, rest)) => match unframed(magic, rest + more) {
                    Ok((second, left)) => {
                        assert((seq![p] + first) + second =~= seq![p] + (first + second));
                    },
                    Err(_) => {},
                },
                Err(_) => {},
            }
        },
    }
}

/// The frames of some packets, one after the other.
pub open spec fn stream_of(magic: u32, packets: Seq<PacketView>) -> Seq<u8>
    decreases packets.len(),
{
    if packets.len() == 0 {
        Seq::empty()
    } else {
        encoded_frame(magic, packets.first())->Ok_0 + stream_of(magic, packets.drop_first())
    }
}

/// A stream of frames gives the packets that were written, in their order, and
/// leaves nothing over.
#[verifier::spinoff_prover]
#[verifier::rlimit(60)]
pub proof fn streams_give_back_their_packets(magic: u32, packets: Seq<PacketView>)
    requires
        forall|i: int|
            0 <= i < packets.len() ==> {
                &&& packet::well_sized(#[trigger] packets[i])
                &&& packet::names_plain_addresses(packets[i])
                &&& packets[i] is Unknown ==> !packet::is_known_type(packets[i]->packet_type)
                &&& encoded_frame(magic, packets[i]) is Ok
            },
    ensures
        unframed(magic, stream_of(magic, packets)) == Ok::<(Seq<PacketView>, Seq<u8>), P2pError>(
            (packets, Seq::<u8>::empty()),
        ),
    decreases packets.len(),
{
    if packets.len() > 0 {
        let p = packets[0];
        let frame = encoded_frame(magic, p)->Ok_0;
        let more = packets.drop_first();
        let tail = stream_of(magic, more);
        assert forall|i: int| 0 <= i < more.len() implies {
            &&& packet::well_sized(#[trigger] more[i])
            &&& packet::names_plain_addresses(more[i])
            &&& more[i] is Unknown ==> !packet::is_known_type(more[i]->packet_type)
            &&& encoded_frame(magic, more[i]) is Ok
        } by {
            assert(more[i] == packets[i + 1]);
        }
        streams_give_back_their_packets(magic, more);
        frames_round_trip(magic, p, frame, tail);
        assert((frame + tail).skip(frame.len() as int) =~= tail);
        assert(seq![p] + more =~= packets);
    } else {
        assert(packets =~= Seq::<PacketView>::empty());
    }
}

/// A header is the four bytes of the network, the type, and the four of the length, each
/// number with its low byte first.
pub proof fn headers_have_nine_bytes(h: FrameHeader)
    ensures
        header_bytes(h) == seq![
            (h.magic % 256) as u8,
            (h.magic / 0x100 % 256) as u8,
            (h.magic / 0x1_0000 % 256) as u8,
            (h.magic / 0x100_0000) as u8,
            h.packet_type,
            (h.payload_len % 256) as u8,
            (h.payload_len / 0x100 % 256) as u8,
            (h.payload_len / 0x1_0000 % 256) as u8,
            (h.payload_len / 0x100_0000) as u8,
        ],
{
    wire::numbers_are_written_low_byte_first(h.magic as nat);
    wire::numbers_are_written_low_byte_first(h.payload_len as nat);
    assert(header_bytes(h) =~= seq![
        (h.magic % 256) as u8,
        (h.magic / 0x100 % 256) as u8,
        (h.magic / 0x1_0000 % 256) as u8,
        (h.magic / 0x100_0000) as u8,
        h.packet_type,
        (h.payload_len % 256) as u8,
        (h.payload_len / 0x100 % 256) as u8,
        (h.payload_len / 0x1_0000 % 256) as u8,
        (h.payload_len / 0x100_0000) as u8,
    ]);
}

/// A header is good where it is of this network and its length is within the limits: eight
/// million bytes, and less for what is relayed.
pub proof fn headers_are_held_to_their_limits(magic: u32, h: FrameHeader)
    ensures
        header_error(magic, h) == (if h.magic != magic {
            Some(P2pError::InvalidMagic)
        } else if h.payload_len > 8_000_000 {
            Some(P2pError::MessageTooLarge)
        } else if h.packet_type == 0xf0 && h.payload_len > 4106 {
            Some(P2pError::DnsRelayQueryTooLarge)
        } else if h.packet_type == 0xf1 && h.payload_len > 65546 {
            Some(P2pError::DnsRelayResponseTooLarge)
        } else {
            None
        }),
{
}

/// A packet is framed where its payload can be written and fits; its frame is the header
/// that says so, and the payload.
pub proof fn packets_are_framed(magic: u32, p: PacketView)
    ensures
        ({
            let payload = packet::encoded_payload(p);
            let r = encoded_frame(magic, p);
            &&& r is Ok <==> payload is Ok && payload->Ok_0.len() <= 8_000_000
            &&& r is Ok ==> r->Ok_0 == header_bytes(
                FrameHeader {
                    magic,
                    packet_type: packet::raw_type_of(p),
                    payload_len: payload->Ok_0.len() as u32,
                },
            ) + payload->Ok_0
            &&& payload matches Err(e) ==> r == Err::<Seq<u8>, P2pError>(e)
            &&& payload is Ok && r is Err ==> r->Err_0 == P2pError::MessageTooLarge
        }),
{
}

/// A frame is waited for until its header, and then its payload, are there. A bad header is
/// refused before its payload comes; a bad payload once it is there. A frame that is read
/// takes its own bytes and no more.
pub proof fn frames_are_waited_for(magic: u32, data: Seq<u8>)
    ensures
        ({
            let h = header_of(data);
            let end = 9 + h.payload_len as int;
            let payload = packet::decoded_payload(h.packet_type, data.subrange(9, end));
            let r = decoded_frame(magic, data);
            &&& data.len() < 9 ==> r == Ok::<Option<(PacketView, nat)>, P2pError>(None)
            &&& data.len() >= 9 ==> (header_error(magic, h) matches Some(e) ==> r == Err::<
                Option<(PacketView, nat)>,
                P2pError,
            >(e))
            &&& data.len() >= 9 && header_error(magic, h) is None && data.len() < end ==> r == Ok::<
                Option<(PacketView, nat)>,
                P2pError,
            >(None)
            &&& data.len() >= 9 && header_error(magic, h) is None && data.len() >= end ==> r == (
            match payload {
                Ok(p) => Ok(Some((p, end as nat))),
                Err(e) => Err(e),
            })
        }),
{
}

/// A decoder holds no more than one whole frame may have; within that it hands out what is
/// complete and holds the rest.
pub proof fn decoders_hold_one_frame(magic: u32, held: Seq<u8>, data: Seq<u8>)
    ensures
        ({
            let (after, r) = fed(magic, held, data);
            let all = unframed(magic, held + data);
            &&& held.len() + data.len() > 8_000_009 ==> after == held && r == Err::<
                Seq<PacketView>,
                P2pError,
            >(P2pError::MessageTooLarge)
            &&& held.len() + data.len() <= 8_000_009 ==> (match all {
                Ok((packets, rest)) => after == rest && r == Ok::<Seq<PacketView>, P2pError>(
                    packets,
                ),
                Err(e) => after == held + data && r == Err::<Seq<PacketView>, P2pError>(e),
            })
        }),
{
}

/// A frame that is read is the one that is meant, with the bytes that it takes, and so is a
/// fault.
pub proof fn read_frames_agree(
    r: Result<Option<(Packet, usize)>, P2pError>,
    v: Result<Option<(PacketView, nat)>, P2pError>,
)
    ensures
        same_frame(r, v) <==> {
            &&& r is Ok <==> v is Ok
            &&& r is Ok ==> (r->Ok_0 is Some <==> v->Ok_0 is Some)
            &&& r is Ok && r->Ok_0 is Some ==> r->Ok_0->Some_0.0@ == v->Ok_0->Some_0.0
                && r->Ok_0->Some_0.1 == v->Ok_0->Some_0.1
            &&& r is Err ==> r->Err_0 == v->Err_0
        },
{
}

/// Packets are framed, and frames read, for the network that is given.
pub proof fn frames_are_of_the_network(
    network: &NetworkParameters,
    packet: &Packet,
    data: &[u8],
    encoded: Result<Vec<u8>, P2pError>,
    decoded: Result<Option<(Packet, usize)>, P2pError>,
)
    requires
        call_ensures(encode_frame, (network, packet), encoded),
        call_ensures(decode_frame, (network, data), decoded),
    ensures
        relay::same_bytes(encoded, encoded_frame(network.magic, packet@)),
        same_frame(decoded, decoded_frame(network.magic, data@)),
{
}

} // verus!
