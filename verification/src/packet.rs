//! The packets of the peer protocol and their payloads.

use crate::addr;
use crate::addr::{IpAddr, Ipv4Addr, SocketAddr};
use crate::relay;
use crate::relay::{DnsRelayPacket, GetDnsRelayPacket, RelayRequestView, RelayResponseView};
use crate::text;
use crate::wire;
use crate::wire::{P2pError, ParseError, WireReader};
use vstd::prelude::*;

verus! {

pub const PROTOCOL_VERSION: u32 = 3;

pub const SERVICE_NETWORK: u64 = 1;

pub const ZERO_NONCE: [u8; 8] = [0, 0, 0, 0, 0, 0, 0, 0];

pub const MAX_INV: usize = 50_000;

pub const MAX_ADDR: usize = 1_000;

pub const MAX_HEADERS: usize = 2_000;

pub const MAX_AGENT_LEN: usize = 255;

/// The size of a block header on the wire.
pub const HEADER_SIZE: usize = 236;

/// How this software names itself to peers. The version is that of this package.
pub const LOCAL_AGENT: &'static str = "/hns-dane-browser:0.1.0/";

// ---------------------------------------------------------------------
// Values
// ---------------------------------------------------------------------

/// A block hash, a tree root, or a key.
#[derive(Clone, Copy, Debug, PartialEq, Eq)]
pub struct Digest {
    pub bytes: [u8; 32],
}

impl View for Digest {
    type V = Seq<u8>;

    open spec fn view(&self) -> Seq<u8> {
        self.bytes@
    }
}

impl Digest {
    pub fn new(bytes: [u8; 32]) -> (r: Self)
        ensures
            r@ == bytes@,
    {
        Digest { bytes }
    }

    /// The hash of all zeros.
    pub fn zero() -> (r: Self)
        ensures
            r@ == zeros(32),
    {
        let r = Digest { bytes: [0u8; 32] };
        assert(r@ =~= zeros(32));
        r
    }

    pub fn same(&self, other: &Digest) -> (r: bool)
        ensures
            r == (self@ == other@),
    {
        let mut i: usize = 0;
        while i < 32
            invariant
                i <= 32,
                forall|j: int| 0 <= j < i ==> #[trigger] self.bytes@[j] == other.bytes@[j],
            decreases 32 - i,
        {
            if self.bytes[i] != other.bytes[i] {
                return false;
            }
            i += 1;
        }
        assert(self@ =~= other@);
        true
    }
}

/// The height of a block.
#[derive(Clone, Copy, Debug, PartialEq, Eq, PartialOrd, Ord, Structural)]
pub struct Height(pub u32);

/// A block header in its wire form.
#[derive(Debug, PartialEq, Eq)]
pub struct BlockHeader {
    bytes: Vec<u8>,
}

impl View for BlockHeader {
    type V = Seq<u8>;

    closed spec fn view(&self) -> Seq<u8> {
        self.bytes@
    }
}

impl BlockHeader {
    #[verifier::type_invariant]
    spec fn has_its_size(self) -> bool {
        self.bytes@.len() == HEADER_SIZE
    }

    pub fn parse(bytes: &[u8]) -> (r: Result<Self, P2pError>)
        ensures
            match r {
                Ok(h) => bytes@.len() == HEADER_SIZE && h@ == bytes@,
                Err(e) => bytes@.len() != HEADER_SIZE && e == P2pError::Parse(
                    ParseError::UnexpectedEof,
                ),
            },
    {
        if bytes.len() != HEADER_SIZE {
            return Err(P2pError::Parse(ParseError::UnexpectedEof));
        }
        let v = text::bytes_between(bytes, 0, bytes.len());
        assert(v@ == bytes@);
        Ok(BlockHeader { bytes: v })
    }

    pub fn as_bytes(&self) -> (r: &[u8])
        ensures
            r@ == self@,
            r@.len() == HEADER_SIZE,
    {
        proof {
            use_type_invariant(self);
        }
        self.bytes.as_slice()
    }

    pub fn copy(&self) -> (r: Self)
        ensures
            r@ == self@,
    {
        proof {
            use_type_invariant(self);
        }
        let v = text::bytes_between(self.bytes.as_slice(), 0, self.bytes.len());
        assert(v@ == self.bytes@);
        BlockHeader { bytes: v }
    }
}

/// The address of a peer, as peers tell it.
#[derive(Clone, Copy, Debug, PartialEq, Eq, Structural)]
pub struct NetAddress {
    pub time: u64,
    pub services: u64,
    pub address: IpAddr,
    pub port: u16,
}

impl Default for NetAddress {
    fn default() -> (r: Self)
        ensures
            r == default_address(),
    {
        NetAddress {
            time: 0,
            services: SERVICE_NETWORK,
            address: IpAddr::V4(Ipv4Addr { bits: 0 }),
            port: 0,
        }
    }
}

pub open spec fn default_address() -> NetAddress {
    NetAddress {
        time: 0,
        services: SERVICE_NETWORK,
        address: IpAddr::V4(Ipv4Addr { bits: 0 }),
        port: 0,
    }
}

impl NetAddress {
    pub fn from_socket(socket: SocketAddr, services: u64) -> (r: Self)
        ensures
            r == (NetAddress {
                time: 0,
                services,
                address: addr::socket_ip(socket),
                port: addr::socket_port(socket),
            }),
    {
        NetAddress { time: 0, services, address: socket.ip(), port: socket.port() }
    }
}

/// What a peer says of itself first.
#[derive(Clone, Debug, PartialEq, Eq)]
pub struct VersionPacket {
    pub version: u32,
    pub services: u64,
    pub time: u64,
    pub remote: NetAddress,
    pub nonce: [u8; 8],
    pub agent: String,
    pub height: Height,
    pub no_relay: bool,
}

#[verifier::ext_equal]
pub struct VersionView {
    pub version: u32,
    pub services: u64,
    pub time: u64,
    pub remote: NetAddress,
    pub nonce: Seq<u8>,
    pub agent: Seq<char>,
    pub height: u32,
    pub no_relay: bool,
}

impl View for VersionPacket {
    type V = VersionView;

    open spec fn view(&self) -> VersionView {
        VersionView {
            version: self.version,
            services: self.services,
            time: self.time,
            remote: self.remote,
            nonce: self.nonce@,
            agent: self.agent@,
            height: self.height.0,
            no_relay: self.no_relay,
        }
    }
}

pub open spec fn default_version() -> VersionView {
    VersionView {
        version: PROTOCOL_VERSION,
        services: SERVICE_NETWORK,
        time: 0,
        remote: default_address(),
        nonce: zeros(8),
        agent: LOCAL_AGENT@,
        height: 0,
        no_relay: true,
    }
}

impl Default for VersionPacket {
    fn default() -> (r: Self)
        ensures
            r@ == default_version(),
    {
        let r = VersionPacket {
            version: PROTOCOL_VERSION,
            services: SERVICE_NETWORK,
            time: 0,
            remote: NetAddress {
                time: 0,
                services: SERVICE_NETWORK,
                address: IpAddr::V4(Ipv4Addr { bits: 0 }),
                port: 0,
            },
            nonce: ZERO_NONCE,
            agent: LOCAL_AGENT.to_owned(),
            height: Height(0),
            no_relay: true,
        };
        assert(r.nonce@ =~= zeros(8));
        r
    }
}

impl VersionPacket {
    pub fn copy(&self) -> (r: Self)
        ensures
            r@ == self@,
    {
        VersionPacket {
            version: self.version,
            services: self.services,
            time: self.time,
            remote: self.remote,
            nonce: self.nonce,
            agent: self.agent.as_str().to_owned(),
            height: self.height,
            no_relay: self.no_relay,
        }
    }
}

#[derive(Clone, Debug, PartialEq, Eq)]
pub struct LocatorPacket {
    pub locator: Vec<Digest>,
    pub stop: Digest,
}

#[derive(Debug, PartialEq, Eq)]
pub struct HeadersPacket {
    pub items: Vec<BlockHeader>,
}

#[derive(Clone, Debug, PartialEq, Eq)]
pub struct AddrPacket {
    pub items: Vec<NetAddress>,
}

#[derive(Clone, Copy, Debug, PartialEq, Eq)]
pub struct ProofRequest {
    pub root: Digest,
    pub key: Digest,
}

#[derive(Clone, Debug, PartialEq, Eq)]
pub struct ProofPacket {
    pub root: Digest,
    pub key: Digest,
    pub proof: Vec<u8>,
}

#[verifier::ext_equal]
pub struct ProofView {
    pub root: Seq<u8>,
    pub key: Seq<u8>,
    pub proof: Seq<u8>,
}

impl View for ProofPacket {
    type V = ProofView;

    open spec fn view(&self) -> ProofView {
        ProofView { root: self.root@, key: self.key@, proof: self.proof@ }
    }
}

#[derive(Debug, PartialEq, Eq)]
pub enum Packet {
    Version(VersionPacket),
    Verack,
    Ping([u8; 8]),
    Pong([u8; 8]),
    GetAddr,
    Addr(AddrPacket),
    GetHeaders(LocatorPacket),
    Headers(HeadersPacket),
    SendHeaders,
    GetProof(ProofRequest),
    Proof(ProofPacket),
    GetDnsRelay(GetDnsRelayPacket),
    DnsRelay(DnsRelayPacket),
    Unknown { packet_type: u8, payload: Vec<u8> },
}

pub open spec fn hash_views(hashes: Seq<Digest>) -> Seq<Seq<u8>> {
    hashes.map_values(|h: Digest| h@)
}

pub open spec fn header_views(headers: Seq<BlockHeader>) -> Seq<Seq<u8>> {
    headers.map_values(|h: BlockHeader| h@)
}

#[verifier::ext_equal]
pub enum PacketView {
    Version(VersionView),
    Verack,
    Ping(Seq<u8>),
    Pong(Seq<u8>),
    GetAddr,
    Addr(Seq<NetAddress>),
    GetHeaders { locator: Seq<Seq<u8>>, stop: Seq<u8> },
    Headers(Seq<Seq<u8>>),
    SendHeaders,
    GetProof { root: Seq<u8>, key: Seq<u8> },
    Proof(ProofView),
    GetDnsRelay(RelayRequestView),
    DnsRelay(RelayResponseView),
    Unknown { packet_type: u8, payload: Seq<u8> },
}

impl View for Packet {
    type V = PacketView;

    open spec fn view(&self) -> PacketView {
        match *self {
            Packet::Version(p) => PacketView::Version(p@),
            Packet::Verack => PacketView::Verack,
            Packet::Ping(n) => PacketView::Ping(n@),
            Packet::Pong(n) => PacketView::Pong(n@),
            Packet::GetAddr => PacketView::GetAddr,
            Packet::Addr(p) => PacketView::Addr(p.items@),
            Packet::GetHeaders(p) => PacketView::GetHeaders {
                locator: hash_views(p.locator@),
                stop: p.stop@,
            },
            Packet::Headers(p) => PacketView::Headers(header_views(p.items@)),
            Packet::SendHeaders => PacketView::SendHeaders,
            Packet::GetProof(p) => PacketView::GetProof { root: p.root@, key: p.key@ },
            Packet::Proof(p) => PacketView::Proof(p@),
            Packet::GetDnsRelay(p) => PacketView::GetDnsRelay(p@),
            Packet::DnsRelay(p) => PacketView::DnsRelay(p@),
            Packet::Unknown { packet_type, payload } => PacketView::Unknown {
                packet_type,
                payload: payload@,
            },
        }
    }
}

#[derive(Clone, Copy, Debug, PartialEq, Eq, Structural)]
pub enum PacketType {
    Version,
    Verack,
    Ping,
    Pong,
    GetAddr,
    Addr,
    GetHeaders,
    Headers,
    SendHeaders,
    GetProof,
    Proof,
    Unknown,
    ExperimentalGetDnsRelay,
    ExperimentalDnsRelay,
}

pub open spec fn type_code(t: PacketType) -> u8 {
    match t {
        PacketType::Version => 0,
        PacketType::Verack => 1,
        PacketType::Ping => 2,
        PacketType::Pong => 3,
        PacketType::GetAddr => 4,
        PacketType::Addr => 5,
        PacketType::GetHeaders => 10,
        PacketType::Headers => 11,
        PacketType::SendHeaders => 12,
        PacketType::GetProof => 26,
        PacketType::Proof => 27,
        PacketType::Unknown => 30,
        PacketType::ExperimentalGetDnsRelay => relay::EXPERIMENTAL_GET_DNS_RELAY,
        PacketType::ExperimentalDnsRelay => relay::EXPERIMENTAL_DNS_RELAY,
    }
}

impl PacketType {
    /// The number of the type on the wire.
    pub fn code(self) -> (r: u8)
        ensures
            r == type_code(self),
    {
        match self {
            PacketType::Version => 0,
            PacketType::Verack => 1,
            PacketType::Ping => 2,
            PacketType::Pong => 3,
            PacketType::GetAddr => 4,
            PacketType::Addr => 5,
            PacketType::GetHeaders => 10,
            PacketType::Headers => 11,
            PacketType::SendHeaders => 12,
            PacketType::GetProof => 26,
            PacketType::Proof => 27,
            PacketType::Unknown => 30,
            PacketType::ExperimentalGetDnsRelay => relay::EXPERIMENTAL_GET_DNS_RELAY,
            PacketType::ExperimentalDnsRelay => relay::EXPERIMENTAL_DNS_RELAY,
        }
    }
}

pub open spec fn type_of(p: PacketView) -> PacketType {
    match p {
        PacketView::Version(_) => PacketType::Version,
        PacketView::Verack => PacketType::Verack,
        PacketView::Ping(_) => PacketType::Ping,
        PacketView::Pong(_) => PacketType::Pong,
        PacketView::GetAddr => PacketType::GetAddr,
        PacketView::Addr(_) => PacketType::Addr,
        PacketView::GetHeaders { .. } => PacketType::GetHeaders,
        PacketView::Headers(_) => PacketType::Headers,
        PacketView::SendHeaders => PacketType::SendHeaders,
        PacketView::GetProof { .. } => PacketType::GetProof,
        PacketView::Proof(_) => PacketType::Proof,
        PacketView::GetDnsRelay(_) => PacketType::ExperimentalGetDnsRelay,
        PacketView::DnsRelay(_) => PacketType::ExperimentalDnsRelay,
        PacketView::Unknown { .. } => PacketType::Unknown,
    }
}

/// The number that a packet has on the wire; packets of unknown types keep
/// theirs.
pub open spec fn raw_type_of(p: PacketView) -> u8 {
    match p {
        PacketView::Unknown { packet_type, .. } => packet_type,
        _ => type_code(type_of(p)),
    }
}

// ---------------------------------------------------------------------
// Writing
// ---------------------------------------------------------------------

pub open spec fn zeros(n: nat) -> Seq<u8> {
    Seq::new(n, |i: int| 0u8)
}

fn push_zeros(out: &mut Vec<u8>, n: usize)
    ensures
        final(out)@ == old(out)@ + zeros(n as nat),
{
    let ghost start = out@;
    let mut i: usize = 0;
    assert(start + zeros(0) == start);
    while i < n
        invariant
            i <= n,
            out@ == start + zeros(i as nat),
        decreases n - i,
    {
        out.push(0);
        i += 1;
        assert(out@ =~= start + zeros(i as nat));
    }
}

/// The bytes of an address: 88 of them.
pub open spec fn net_bytes(a: NetAddress) -> Seq<u8> {
    wire::le_bytes(a.time as nat, 8) + wire::le_bytes(a.services as nat, 8) + seq![0u8]
        + wire::ip_bytes(a.address) + zeros(20) + wire::le_bytes(a.port as nat, 2) + zeros(33)
}

fn push_net(out: &mut Vec<u8>, a: NetAddress)
    ensures
        final(out)@ == old(out)@ + net_bytes(a),
{
    let ghost start = out@;
    wire::push_le(out, a.time, 8);
    wire::push_le(out, a.services, 8);
    out.push(0);
    wire::push_ip(out, a.address);
    push_zeros(out, 20);
    wire::push_le(out, a.port as u64, 2);
    push_zeros(out, 33);
    assert(out@ =~= start + net_bytes(a));
}

pub open spec fn flag(b: bool) -> u8 {
    if b {
        1
    } else {
        0
    }
}

pub open spec fn version_bytes(v: VersionView) -> Seq<u8> {
    let agent = vstd::utf8::encode_utf8(v.agent);
    wire::le_bytes(v.version as nat, 4) + wire::le_bytes(v.services as nat, 8) + wire::le_bytes(
        v.time as nat,
        8,
    ) + net_bytes(v.remote) + v.nonce + seq![agent.len() as u8] + agent + wire::le_bytes(
        v.height as nat,
        4,
    ) + seq![flag(v.no_relay)]
}

fn push_version(out: &mut Vec<u8>, v: &VersionPacket) -> (r: Result<(), P2pError>)
    ensures
        match r {
            Ok(()) => vstd::utf8::encode_utf8(v@.agent).len() <= MAX_AGENT_LEN && final(out)@
                == old(out)@ + version_bytes(v@),
            Err(e) => vstd::utf8::encode_utf8(v@.agent).len() > MAX_AGENT_LEN && e
                == P2pError::AgentTooLong,
        },
{
    let agent = v.agent.as_str().as_bytes();
    if agent.len() > MAX_AGENT_LEN {
        return Err(P2pError::AgentTooLong);
    }
    let ghost start = out@;
    wire::push_le(out, v.version as u64, 4);
    wire::push_le(out, v.services, 8);
    wire::push_le(out, v.time, 8);
    push_net(out, v.remote);
    text::push_bytes(out, v.nonce.as_slice());
    out.push(agent.len() as u8);
    text::push_bytes(out, agent);
    wire::push_le(out, v.height.0 as u64, 4);
    out.push(
        if v.no_relay {
            1
        } else {
            0
        },
    );
    assert(out@ =~= start + version_bytes(v@));
    Ok(())
}

/// Some byte strings, one after the other.
pub open spec fn joined(items: Seq<Seq<u8>>) -> Seq<u8>
    decreases items.len(),
{
    if items.len() == 0 {
        Seq::empty()
    } else {
        joined(items.drop_last()) + items.last()
    }
}

pub open spec fn net_list(items: Seq<NetAddress>) -> Seq<Seq<u8>> {
    items.map_values(|a: NetAddress| net_bytes(a))
}

/// A count and what it counts.
pub open spec fn counted(items: Seq<Seq<u8>>) -> Seq<u8> {
    wire::varint_bytes(items.len()) + joined(items)
}

/// The payload of a packet, or why it has none.
pub open spec fn encoded_payload(p: PacketView) -> Result<Seq<u8>, P2pError> {
    match p {
        PacketView::Version(v) => if vstd::utf8::encode_utf8(v.agent).len() > MAX_AGENT_LEN {
            Err(P2pError::AgentTooLong)
        } else {
            Ok(version_bytes(v))
        },
        PacketView::Verack | PacketView::GetAddr | PacketView::SendHeaders => Ok(
            Seq::<u8>::empty(),
        ),
        PacketView::Ping(nonce) => Ok(nonce),
        PacketView::Pong(nonce) => Ok(nonce),
        PacketView::Addr(items) => if items.len() > MAX_ADDR {
            Err(P2pError::CountLimit)
        } else {
            Ok(counted(net_list(items)))
        },
        PacketView::GetHeaders { locator, stop } => if locator.len() > MAX_INV {
            Err(P2pError::CountLimit)
        } else {
            Ok(counted(locator) + stop)
        },
        PacketView::Headers(items) => if items.len() > MAX_HEADERS {
            Err(P2pError::CountLimit)
        } else {
            Ok(counted(items))
        },
        PacketView::GetProof { root, key } => Ok(root + key),
        PacketView::Proof(p) => Ok(p.root + p.key + p.proof),
        PacketView::GetDnsRelay(p) => relay::encoded_request(p),
        PacketView::DnsRelay(p) => relay::encoded_response(p),
        PacketView::Unknown { payload, .. } => Ok(payload),
    }
}

proof fn lemma_joined_push(items: Seq<Seq<u8>>, item: Seq<u8>)
    ensures
        joined(items.push(item)) == joined(items) + item,
{
    assert(items.push(item).drop_last() == items);
}

fn push_nets(out: &mut Vec<u8>, items: &Vec<NetAddress>)
    ensures
        final(out)@ == old(out)@ + counted(net_list(items@)),
{
    let ghost start = out@;
    let n: usize = items.len();
    wire::write_varint(out, n as u64);
    let ghost head = out@;
    let ghost list = net_list(items@);
    let mut i: usize = 0;
    assert(list.take(0) == Seq::<Seq<u8>>::empty());
    assert(head + Seq::<u8>::empty() == head);
    while i < n
        invariant
            i <= n,
            n == items@.len(),
            list == net_list(items@),
            out@ == head + joined(list.take(i as int)),
        decreases n - i,
    {
        push_net(out, items[i]);
        proof {
            lemma_joined_push(list.take(i as int), list[i as int]);
            assert(list.take(i as int + 1) == list.take(i as int).push(list[i as int]));
            assert(list[i as int] == net_bytes(items@[i as int]));
            assert(out@ =~= head + joined(list.take(i as int + 1)));
        }
        i += 1;
    }
    assert(list.take(i as int) == list);
    assert(out@ =~= start + counted(list));
}

fn push_hashes(out: &mut Vec<u8>, items: &Vec<Digest>)
    ensures
        final(out)@ == old(out)@ + counted(hash_views(items@)),
{
    let ghost start = out@;
    let n: usize = items.len();
    wire::write_varint(out, n as u64);
    let ghost head = out@;
    let ghost list = hash_views(items@);
    let mut i: usize = 0;
    assert(list.take(0) == Seq::<Seq<u8>>::empty());
    assert(head + Seq::<u8>::empty() == head);
    while i < n
        invariant
            i <= n,
            n == items@.len(),
            list == hash_views(items@),
            out@ == head + joined(list.take(i as int)),
        decreases n - i,
    {
        text::push_bytes(out, items[i].bytes.as_slice());
        proof {
            lemma_joined_push(list.take(i as int), list[i as int]);
            assert(list.take(i as int + 1) == list.take(i as int).push(list[i as int]));
            assert(list[i as int] == items@[i as int]@);
            assert(out@ =~= head + joined(list.take(i as int + 1)));
        }
        i += 1;
    }
    assert(list.take(i as int) == list);
    assert(out@ =~= start + counted(list));
}

fn push_headers(out: &mut Vec<u8>, items: &Vec<BlockHeader>)
    ensures
        final(out)@ == old(out)@ + counted(header_views(items@)),
{
    let ghost start = out@;
    let n: usize = items.len();
    wire::write_varint(out, n as u64);
    let ghost head = out@;
    let ghost list = header_views(items@);
    let mut i: usize = 0;
    assert(list.take(0) == Seq::<Seq<u8>>::empty());
    assert(head + Seq::<u8>::empty() == head);
    while i < n
        invariant
            i <= n,
            n == items@.len(),
            list == header_views(items@),
            out@ == head + joined(list.take(i as int)),
        decreases n - i,
    {
        text::push_bytes(out, items[i].as_bytes());
        proof {
            lemma_joined_push(list.take(i as int), list[i as int]);
            assert(list.take(i as int + 1) == list.take(i as int).push(list[i as int]));
            assert(list[i as int] == items@[i as int]@);
            assert(out@ =~= head + joined(list.take(i as int + 1)));
        }
        i += 1;
    }
    assert(list.take(i as int) == list);
    assert(out@ =~= start + counted(list));
}

impl Packet {
    pub fn packet_type(&self) -> (r: PacketType)
        ensures
            r == type_of(self@),
    {
        match self {
            Packet::Version(_) => PacketType::Version,
            Packet::Verack => PacketType::Verack,
            Packet::Ping(_) => PacketType::Ping,
            Packet::Pong(_) => PacketType::Pong,
            Packet::GetAddr => PacketType::GetAddr,
            Packet::Addr(_) => PacketType::Addr,
            Packet::GetHeaders(_) => PacketType::GetHeaders,
            Packet::Headers(_) => PacketType::Headers,
            Packet::SendHeaders => PacketType::SendHeaders,
            Packet::GetProof(_) => PacketType::GetProof,
            Packet::Proof(_) => PacketType::Proof,
            Packet::GetDnsRelay(_) => PacketType::ExperimentalGetDnsRelay,
            Packet::DnsRelay(_) => PacketType::ExperimentalDnsRelay,
            Packet::Unknown { .. } => PacketType::Unknown,
        }
    }

    /// The number that this packet has on the wire.
    pub fn raw_packet_type(&self) -> (r: u8)
        ensures
            r == raw_type_of(self@),
    {
        match self {
            Packet::Unknown { packet_type, .. } => *packet_type,
            _ => self.packet_type().code(),
        }
    }

    pub fn encode_payload(&self) -> (r: Result<Vec<u8>, P2pError>)
        ensures
            relay::same_bytes(r, encoded_payload(self@)),
    {
        let mut out: Vec<u8> = Vec::new();
        match self {
            Packet::Version(v) => {
                match push_version(&mut out, v) {
                    Err(e) => {
                        return Err(e);
                    },
                    Ok(()) => {},
                }
                assert(out@ =~= version_bytes(v@));
            },
            Packet::Verack | Packet::GetAddr | Packet::SendHeaders => {},
            Packet::Ping(nonce) | Packet::Pong(nonce) => {
                text::push_bytes(&mut out, nonce.as_slice());
                assert(out@ =~= nonce@);
            },
            Packet::Addr(p) => {
                if p.items.len() > MAX_ADDR {
                    return Err(P2pError::CountLimit);
                }
                push_nets(&mut out, &p.items);
                assert(out@ =~= counted(net_list(p.items@)));
            },
            Packet::GetHeaders(p) => {
                assert(hash_views(p.locator@).len() == p.locator@.len());
                if p.locator.len() > MAX_INV {
                    return Err(P2pError::CountLimit);
                }
                push_hashes(&mut out, &p.locator);
                text::push_bytes(&mut out, p.stop.bytes.as_slice());
                assert(out@ =~= counted(hash_views(p.locator@)) + p.stop@);
            },
            Packet::Headers(p) => {
                assert(header_views(p.items@).len() == p.items@.len());
                if p.items.len() > MAX_HEADERS {
                    return Err(P2pError::CountLimit);
                }
                push_headers(&mut out, &p.items);
                assert(out@ =~= counted(header_views(p.items@)));
            },
            Packet::GetProof(p) => {
                text::push_bytes(&mut out, p.root.bytes.as_slice());
                text::push_bytes(&mut out, p.key.bytes.as_slice());
                assert(out@ =~= p.root@ + p.key@);
            },
            Packet::Proof(p) => {
                text::push_bytes(&mut out, p.root.bytes.as_slice());
                text::push_bytes(&mut out, p.key.bytes.as_slice());
                text::push_bytes(&mut out, p.proof.as_slice());
                assert(out@ =~= p.root@ + p.key@ + p.proof@);
            },
            Packet::GetDnsRelay(p) => {
                return p.encode();
            },
            Packet::DnsRelay(p) => {
                return p.encode();
            },
            Packet::Unknown { payload, .. } => {
                text::push_bytes(&mut out, payload.as_slice());
                assert(out@ =~= payload@);
            },
        }
        Ok(out)
    }
}

// ---------------------------------------------------------------------
// Reading
// ---------------------------------------------------------------------

/// The size of an address on the wire.
pub const ADDRESS_SIZE: usize = 88;

/// The address of 88 bytes. Only type zero says where the peer is.
pub open spec fn net_of(b: Seq<u8>) -> NetAddress {
    NetAddress {
        time: wire::le_number(b.subrange(0, 8)) as u64,
        services: wire::le_number(b.subrange(8, 16)) as u64,
        address: wire::ip_of_bytes(
            if b[16] == 0 {
                b.subrange(17, 33)
            } else {
                zeros(16)
            },
        ),
        port: wire::le_number(b.subrange(53, 55)) as u16,
    }
}

/// Where the user agent of a version begins.
pub const AGENT_START: usize = 117;

/// The version that the bytes begin with, and the rest.
pub open spec fn take_version(s: Seq<u8>) -> Result<(VersionView, Seq<u8>), P2pError> {
    let eof = P2pError::Parse(ParseError::UnexpectedEof);
    if s.len() < AGENT_START {
        Err(eof)
    } else {
        let end = AGENT_START + s[116];
        if s.len() < end {
            Err(eof)
        } else {
            let agent = s.subrange(AGENT_START as int, end);
            if !vstd::utf8::valid_utf8(agent) {
                Err(P2pError::Parse(ParseError::InvalidDnsLabel))
            } else if s.len() < end + 5 {
                Err(eof)
            } else {
                Ok(
                    (
                        VersionView {
                            version: wire::le_number(s.subrange(0, 4)) as u32,
                            services: wire::le_number(s.subrange(4, 12)) as u64,
                            time: wire::le_number(s.subrange(12, 20)) as u64,
                            remote: net_of(s.subrange(20, 108)),
                            nonce: s.subrange(108, 116),
                            agent: vstd::utf8::decode_utf8(agent),
                            height: wire::le_number(s.subrange(end, end + 4)) as u32,
                            no_relay: s[end + 4] == 1,
                        },
                        s.skip(end + 5),
                    ),
                )
            }
        }
    }
}

/// Equally long pieces, one after the other.
pub open spec fn pieces(s: Seq<u8>, n: nat, size: nat) -> Seq<Seq<u8>> {
    Seq::new(n, |i: int| s.subrange(i * size, i * size + size))
}

/// So many pieces and the rest.
pub open spec fn take_pieces(s: Seq<u8>, n: nat, size: nat) -> Result<
    (Seq<Seq<u8>>, Seq<u8>),
    P2pError,
> {
    if s.len() < n * size {
        Err(P2pError::Parse(ParseError::UnexpectedEof))
    } else {
        Ok((pieces(s, n, size), s.skip((n * size) as int)))
    }
}

/// A count within the limit, what it counts, and the rest.
pub open spec fn take_counted(s: Seq<u8>, limit: nat, size: nat) -> Result<
    (Seq<Seq<u8>>, Seq<u8>),
    P2pError,
> {
    match wire::take_varint(s) {
        Err(e) => Err(e),
        Ok((n, rest)) => if n > limit {
            Err(P2pError::CountLimit)
        } else {
            take_pieces(rest, n, size)
        },
    }
}

/// What is left of a payload must be nothing.
pub open spec fn ended<T>(r: Result<(T, Seq<u8>), P2pError>, f: spec_fn(T) -> PacketView) -> Result<
    PacketView,
    P2pError,
> {
    match r {
        Err(e) => Err(e),
        Ok((v, rest)) => if rest.len() != 0 {
            Err(P2pError::TrailingBytes)
        } else {
            Ok(f(v))
        },
    }
}

/// A locator: counted hashes, and the one to stop at.
pub open spec fn take_locator(s: Seq<u8>) -> Result<((Seq<Seq<u8>>, Seq<u8>), Seq<u8>), P2pError> {
    match take_counted(s, MAX_INV as nat, 32) {
        Err(e) => Err(e),
        Ok((locator, rest)) => match wire::take_bytes(rest, 32) {
            Err(e) => Err(e),
            Ok((stop, rest)) => Ok(((locator, stop), rest)),
        },
    }
}

/// The packet of a type and a payload.
pub open spec fn decoded_payload(packet_type: u8, payload: Seq<u8>) -> Result<
    PacketView,
    P2pError,
> {
    if packet_type == 0 {
        ended(take_version(payload), |v: VersionView| PacketView::Version(v))
    } else if packet_type == 1 {
        ended(Ok(((), payload)), |u: ()| PacketView::Verack)
    } else if packet_type == 2 {
        ended(wire::take_bytes(payload, 8), |n: Seq<u8>| PacketView::Ping(n))
    } else if packet_type == 3 {
        ended(wire::take_bytes(payload, 8), |n: Seq<u8>| PacketView::Pong(n))
    } else if packet_type == 4 {
        ended(Ok(((), payload)), |u: ()| PacketView::GetAddr)
    } else if packet_type == 5 {
        ended(
            take_counted(payload, MAX_ADDR as nat, ADDRESS_SIZE as nat),
            |items: Seq<Seq<u8>>| PacketView::Addr(items.map_values(|b: Seq<u8>| net_of(b))),
        )
    } else if packet_type == 10 {
        ended(
            take_locator(payload),
            |p: (Seq<Seq<u8>>, Seq<u8>)| PacketView::GetHeaders { locator: p.0, stop: p.1 },
        )
    } else if packet_type == 11 {
        ended(
            take_counted(payload, MAX_HEADERS as nat, HEADER_SIZE as nat),
            |items: Seq<Seq<u8>>| PacketView::Headers(items),
        )
    } else if packet_type == 12 {
        ended(Ok(((), payload)), |u: ()| PacketView::SendHeaders)
    } else if packet_type == 26 {
        ended(
            wire::take_bytes(payload, 64),
            |b: Seq<u8>| PacketView::GetProof { root: b.take(32), key: b.skip(32) },
        )
    } else if packet_type == 27 {
        match wire::take_bytes(payload, 64) {
            Err(e) => Err(e),
            Ok((b, proof)) => Ok(
                PacketView::Proof(ProofView { root: b.take(32), key: b.skip(32), proof }),
            ),
        }
    } else if packet_type == relay::EXPERIMENTAL_GET_DNS_RELAY {
        match relay::decoded_request(payload) {
            Err(e) => Err(e),
            Ok(p) => Ok(PacketView::GetDnsRelay(p)),
        }
    } else if packet_type == relay::EXPERIMENTAL_DNS_RELAY {
        match relay::decoded_response(payload) {
            Err(e) => Err(e),
            Ok(p) => Ok(PacketView::DnsRelay(p)),
        }
    } else {
        Ok(PacketView::Unknown { packet_type, payload })
    }
}

pub open spec fn same_packet(
    r: Result<Packet, P2pError>,
    v: Result<PacketView, P2pError>,
) -> bool {
    match (r, v) {
        (Ok(p), Ok(q)) => p@ == q,
        (Err(e), Err(f)) => e == f,
        _ => false,
    }
}

fn array_of_8(b: &Vec<u8>) -> (r: [u8; 8])
    requires
        b@.len() == 8,
    ensures
        r@ == b@,
{
    let r: [u8; 8] = [b[0], b[1], b[2], b[3], b[4], b[5], b[6], b[7]];
    assert(r@ =~= b@);
    r
}

fn hash_of(b: &Vec<u8>) -> (r: Digest)
    requires
        b@.len() == 32,
    ensures
        r@ == b@,
{
    let mut bytes: [u8; 32] = [0u8; 32];
    let mut i: usize = 0;
    while i < 32
        invariant
            i <= 32,
            b@.len() == 32,
            forall|j: int| 0 <= j < i ==> #[trigger] bytes@[j] == b@[j],
        decreases 32 - i,
    {
        bytes[i] = b[i];
        i += 1;
    }
    assert(bytes@ =~= b@);
    Digest { bytes }
}

fn number_at(b: &[u8], from: usize, to: usize) -> (r: u64)
    requires
        from <= to <= b@.len(),
        to - from <= 8,
    ensures
        r == wire::le_number(b@.subrange(from as int, to as int)),
        r < addr::power(256, (to - from) as nat),
{
    let v = text::bytes_between(b, from, to);
    proof {
        wire::lemma_le_number_bound(v@);
    }
    wire::number_of(v.as_slice())
}

fn net_from(b: &[u8]) -> (r: NetAddress)
    requires
        b@.len() == ADDRESS_SIZE,
    ensures
        r == net_of(b@),
{
    proof {
        wire::lemma_byte_powers();
    }
    let raw: Vec<u8> = if b[16] == 0 {
        text::bytes_between(b, 17, 33)
    } else {
        let mut z: Vec<u8> = Vec::new();
        push_zeros(&mut z, 16);
        assert(z@ =~= zeros(16));
        z
    };
    NetAddress {
        time: number_at(b, 0, 8),
        services: number_at(b, 8, 16),
        address: wire::ip_from_bytes(raw.as_slice()),
        port: number_at(b, 53, 55) as u16,
    }
}

/// A position among equal pieces lies within what they make up.
proof fn lemma_piece_within(i: int, n: nat, size: nat)
    requires
        0 <= i < n,
    ensures
        0 <= i * size,
        i * size + size == (i + 1) * size,
        (i + 1) * size <= n * size,
{
    assert(0 <= i * size && i * size + size == (i + 1) * size && (i + 1) * size <= n * size)
        by (nonlinear_arith)
        requires
            0 <= i < n,
            0 <= size,
    ;
}

fn read_pieces(reader: &mut WireReader<'_>, n: usize, size: usize) -> (r: Result<
    Vec<Vec<u8>>,
    P2pError,
>)
    requires
        n * size <= usize::MAX,
    ensures
        match (r, take_pieces(old(reader).rest(), n as nat, size as nat)) {
            (Ok(v), Ok((items, rest))) => v@.map_values(|b: Vec<u8>| b@) == items
                && final(reader).rest() == rest,
            (Err(e), Err(f)) => e == f,
            _ => false,
        },
{
    let ghost start = reader.rest();
    if reader.remaining() < n * size {
        return Err(P2pError::Parse(ParseError::UnexpectedEof));
    }
    let mut out: Vec<Vec<u8>> = Vec::new();
    let mut i: usize = 0;
    assert(start.skip(0 * size as int) == start);
    while i < n
        invariant
            i <= n,
            out@.len() == i,
            n as nat * size as nat <= start.len(),
            reader.rest() == start.skip(i as int * size as int),
            forall|j: int|
                0 <= j < i ==> (#[trigger] out@[j])@ == pieces(start, n as nat, size as nat)[j],
        decreases n - i,
    {
        proof {
            lemma_piece_within(i as int, n as nat, size as nat);
        }
        let ghost before = reader.rest();
        match reader.read_bytes(size) {
            Err(e) => {
                return Err(e);
            },
            Ok(b) => {
                proof {
                    assert(b@ =~= pieces(start, n as nat, size as nat)[i as int]);
                    assert(before.skip(size as int) =~= start.skip((i + 1) * size as int));
                }
                out.push(b);
            },
        }
        i += 1;
    }
    assert(out@.map_values(|b: Vec<u8>| b@) =~= pieces(start, n as nat, size as nat));
    Ok(out)
}

fn read_counted(reader: &mut WireReader<'_>, limit: usize, size: usize) -> (r: Result<
    Vec<Vec<u8>>,
    P2pError,
>)
    requires
        limit * size <= u32::MAX,
    ensures
        match (r, take_counted(old(reader).rest(), limit as nat, size as nat)) {
            (Ok(v), Ok((items, rest))) => v@.map_values(|b: Vec<u8>| b@) == items
                && final(reader).rest() == rest,
            (Err(e), Err(f)) => e == f,
            _ => false,
        },
{
    match wire::read_varint(reader) {
        Err(e) => Err(e),
        Ok(n) => {
            if n > limit as u64 {
                return Err(P2pError::CountLimit);
            }
            assert(n * size <= limit * size) by (nonlinear_arith)
                requires
                    n <= limit,
                    0 <= size,
            ;
            read_pieces(reader, n as usize, size)
        },
    }
}

fn read_version(reader: &mut WireReader<'_>) -> (r: Result<VersionPacket, P2pError>)
    ensures
        match (r, take_version(old(reader).rest())) {
            (Ok(p), Ok((v, rest))) => p@ == v && final(reader).rest() == rest,
            (Err(e), Err(f)) => e == f,
            _ => false,
        },
{
    let ghost s = reader.rest();
    let head = match reader.read_bytes(AGENT_START) {
        Ok(b) => b,
        Err(e) => {
            return Err(e);
        },
    };
    let agent_len: usize = head[116] as usize;
    let agent_bytes = match reader.read_bytes(agent_len) {
        Ok(b) => b,
        Err(e) => {
            return Err(e);
        },
    };
    let ghost end = AGENT_START as int + agent_len as int;
    assert(agent_bytes@ =~= s.subrange(AGENT_START as int, end));
    let agent = match wire::utf8_text(agent_bytes.as_slice()) {
        Some(t) => t,
        None => {
            return Err(P2pError::Parse(ParseError::InvalidDnsLabel));
        },
    };
    assert(reader.rest() =~= s.skip(end));
    let tail = match reader.read_bytes(5) {
        Ok(b) => b,
        Err(e) => {
            return Err(e);
        },
    };
    let remote = text::bytes_between(head.as_slice(), 20, 108);
    let nonce = text::bytes_between(head.as_slice(), 108, 116);
    proof {
        wire::lemma_byte_powers();
        assert(reader.rest() =~= s.skip(end + 5));
        assert(head@.subrange(0, 4) =~= s.subrange(0, 4));
        assert(head@.subrange(4, 12) =~= s.subrange(4, 12));
        assert(head@.subrange(12, 20) =~= s.subrange(12, 20));
        assert(remote@ =~= s.subrange(20, 108));
        assert(nonce@ =~= s.subrange(108, 116));
        assert(tail@.subrange(0, 4) =~= s.subrange(end, end + 4));
    }
    Ok(
        VersionPacket {
            version: number_at(head.as_slice(), 0, 4) as u32,
            services: number_at(head.as_slice(), 4, 12),
            time: number_at(head.as_slice(), 12, 20),
            remote: net_from(remote.as_slice()),
            nonce: array_of_8(&nonce),
            agent,
            height: Height(number_at(tail.as_slice(), 0, 4) as u32),
            no_relay: tail[4] == 1,
        },
    )
}

fn read_nets(reader: &mut WireReader<'_>) -> (r: Result<Vec<NetAddress>, P2pError>)
    ensures
        match (r, take_counted(old(reader).rest(), MAX_ADDR as nat, ADDRESS_SIZE as nat)) {
            (Ok(v), Ok((items, rest))) => v@ == items.map_values(|b: Seq<u8>| net_of(b))
                && final(reader).rest() == rest,
            (Err(e), Err(f)) => e == f,
            _ => false,
        },
{
    let ghost s = reader.rest();
    let raw = match read_counted(reader, MAX_ADDR, ADDRESS_SIZE) {
        Ok(v) => v,
        Err(e) => {
            return Err(e);
        },
    };
    let ghost items = raw@.map_values(|b: Vec<u8>| b@);
    proof {
        lemma_counted_sizes(s, MAX_ADDR as nat, ADDRESS_SIZE as nat);
    }
    let mut out: Vec<NetAddress> = Vec::new();
    let mut i: usize = 0;
    while i < raw.len()
        invariant
            i <= raw@.len(),
            out@.len() == i,
            items == raw@.map_values(|b: Vec<u8>| b@),
            forall|j: int| 0 <= j < items.len() ==> (#[trigger] items[j]).len() == ADDRESS_SIZE,
            forall|j: int| 0 <= j < i ==> #[trigger] out@[j] == net_of(items[j]),
        decreases raw@.len() - i,
    {
        assert(items[i as int] == raw@[i as int]@);
        out.push(net_from(raw[i].as_slice()));
        i += 1;
    }
    assert(out@ =~= items.map_values(|b: Seq<u8>| net_of(b)));
    Ok(out)
}

/// Pieces have the size that was asked for.
proof fn lemma_counted_sizes(s: Seq<u8>, limit: nat, size: nat)
    ensures
        match take_counted(s, limit, size) {
            Ok((items, _)) => forall|j: int|
                0 <= j < items.len() ==> (#[trigger] items[j]).len() == size,
            Err(_) => true,
        },
{
    match wire::take_varint(s) {
        Ok((n, rest)) => {
            if n <= limit && rest.len() >= n * size {
                assert forall|j: int| 0 <= j < n implies (#[trigger] pieces(rest, n, size)[j]).len()
                    == size by {
                    lemma_piece_within(j, n, size);
                }
            }
        },
        Err(_) => {},
    }
}

fn read_hashes(reader: &mut WireReader<'_>) -> (r: Result<Vec<Digest>, P2pError>)
    ensures
        match (r, take_counted(old(reader).rest(), MAX_INV as nat, 32)) {
            (Ok(v), Ok((items, rest))) => hash_views(v@) == items && final(reader).rest() == rest,
            (Err(e), Err(f)) => e == f,
            _ => false,
        },
{
    let ghost s = reader.rest();
    let raw = match read_counted(reader, MAX_INV, 32) {
        Ok(v) => v,
        Err(e) => {
            return Err(e);
        },
    };
    let ghost items = raw@.map_values(|b: Vec<u8>| b@);
    proof {
        lemma_counted_sizes(s, MAX_INV as nat, 32);
    }
    let mut out: Vec<Digest> = Vec::new();
    let mut i: usize = 0;
    while i < raw.len()
        invariant
            i <= raw@.len(),
            out@.len() == i,
            items == raw@.map_values(|b: Vec<u8>| b@),
            forall|j: int| 0 <= j < items.len() ==> (#[trigger] items[j]).len() == 32,
            forall|j: int| 0 <= j < i ==> (#[trigger] out@[j])@ == items[j],
        decreases raw@.len() - i,
    {
        assert(items[i as int] == raw@[i as int]@);
        out.push(hash_of(&raw[i]));
        i += 1;
    }
    assert(hash_views(out@) =~= items);
    Ok(out)
}

fn read_headers(reader: &mut WireReader<'_>) -> (r: Result<Vec<BlockHeader>, P2pError>)
    ensures
        match (r, take_counted(old(reader).rest(), MAX_HEADERS as nat, HEADER_SIZE as nat)) {
            (Ok(v), Ok((items, rest))) => header_views(v@) == items && final(reader).rest() == rest,
            (Err(e), Err(f)) => e == f,
            _ => false,
        },
{
    let ghost s = reader.rest();
    let raw = match read_counted(reader, MAX_HEADERS, HEADER_SIZE) {
        Ok(v) => v,
        Err(e) => {
            return Err(e);
        },
    };
    let ghost items = raw@.map_values(|b: Vec<u8>| b@);
    proof {
        lemma_counted_sizes(s, MAX_HEADERS as nat, HEADER_SIZE as nat);
    }
    let mut out: Vec<BlockHeader> = Vec::new();
    let mut i: usize = 0;
    while i < raw.len()
        invariant
            i <= raw@.len(),
            out@.len() == i,
            items == raw@.map_values(|b: Vec<u8>| b@),
            forall|j: int| 0 <= j < items.len() ==> (#[trigger] items[j]).len() == HEADER_SIZE,
            forall|j: int| 0 <= j < i ==> (#[trigger] out@[j])@ == items[j],
        decreases raw@.len() - i,
    {
        assert(items[i as int] == raw@[i as int]@);
        match BlockHeader::parse(raw[i].as_slice()) {
            Ok(h) => {
                out.push(h);
            },
            Err(e) => {
                assert(false);
                return Err(e);
            },
        }
        i += 1;
    }
    assert(header_views(out@) =~= items);
    Ok(out)
}

fn read_hash(reader: &mut WireReader<'_>) -> (r: Result<Digest, P2pError>)
    ensures
        match (r, wire::take_bytes(old(reader).rest(), 32)) {
            (Ok(h), Ok((b, rest))) => h@ == b && final(reader).rest() == rest,
            (Err(e), Err(f)) => e == f,
            _ => false,
        },
{
    match reader.read_bytes(32) {
        Ok(b) => Ok(hash_of(&b)),
        Err(e) => Err(e),
    }
}

/// A root and a key.
fn read_root_and_key(reader: &mut WireReader<'_>) -> (r: Result<(Digest, Digest), P2pError>)
    ensures
        match (r, wire::take_bytes(old(reader).rest(), 64)) {
            (Ok((root, key)), Ok((b, rest))) => root@ == b.take(32) && key@ == b.skip(32)
                && final(reader).rest() == rest,
            (Err(e), Err(f)) => e == f,
            _ => false,
        },
{
    let ghost s = reader.rest();
    match read_hash(reader) {
        Err(e) => Err(e),
        Ok(root) => match read_hash(reader) {
            Err(e) => Err(e),
            Ok(key) => {
                proof {
                    assert(root@ =~= s.take(64).take(32));
                    assert(key@ =~= s.take(64).skip(32));
                    assert(reader.rest() =~= s.skip(64));
                }
                Ok((root, key))
            },
        },
    }
}

/// Nothing may be left of a payload.
fn finish(reader: &WireReader<'_>, packet: Packet) -> (r: Result<Packet, P2pError>)
    ensures
        same_packet(
            r,
            if reader.rest().len() != 0 {
                Err(P2pError::TrailingBytes)
            } else {
                Ok(packet@)
            },
        ),
{
    if reader.remaining() != 0 {
        return Err(P2pError::TrailingBytes);
    }
    Ok(packet)
}

fn decode_version(payload: &[u8]) -> (r: Result<Packet, P2pError>)
    ensures
        same_packet(
            r,
            ended(take_version(payload@), |v: VersionView| PacketView::Version(v)),
        ),
{
    let mut reader = WireReader::new(payload);
    match read_version(&mut reader) {
        Ok(v) => finish(&reader, Packet::Version(v)),
        Err(e) => Err(e),
    }
}

fn decode_nonce(payload: &[u8]) -> (r: Result<[u8; 8], P2pError>)
    ensures
        match (r, wire::take_bytes(payload@, 8)) {
            (Ok(n), Ok((b, rest))) => n@ == b && rest.len() == 0,
            (Err(e), Ok((b, rest))) => rest.len() != 0 && e == P2pError::TrailingBytes,
            (Err(e), Err(f)) => e == f,
            _ => false,
        },
{
    let mut reader = WireReader::new(payload);
    match reader.read_bytes(8) {
        Ok(b) => if reader.remaining() != 0 {
            Err(P2pError::TrailingBytes)
        } else {
            Ok(array_of_8(&b))
        },
        Err(e) => Err(e),
    }
}

fn decode_addresses(payload: &[u8]) -> (r: Result<Packet, P2pError>)
    ensures
        same_packet(
            r,
            ended(
                take_counted(payload@, MAX_ADDR as nat, ADDRESS_SIZE as nat),
                |items: Seq<Seq<u8>>| PacketView::Addr(items.map_values(|b: Seq<u8>| net_of(b))),
            ),
        ),
{
    let mut reader = WireReader::new(payload);
    match read_nets(&mut reader) {
        Ok(items) => finish(&reader, Packet::Addr(AddrPacket { items })),
        Err(e) => Err(e),
    }
}

fn decode_locator(payload: &[u8]) -> (r: Result<Packet, P2pError>)
    ensures
        same_packet(
            r,
            ended(
                take_locator(payload@),
                |p: (Seq<Seq<u8>>, Seq<u8>)| PacketView::GetHeaders { locator: p.0, stop: p.1 },
            ),
        ),
{
    let mut reader = WireReader::new(payload);
    match read_hashes(&mut reader) {
        Err(e) => Err(e),
        Ok(locator) => match read_hash(&mut reader) {
            Err(e) => Err(e),
            Ok(stop) => finish(&reader, Packet::GetHeaders(LocatorPacket { locator, stop })),
        },
    }
}

fn decode_headers(payload: &[u8]) -> (r: Result<Packet, P2pError>)
    ensures
        same_packet(
            r,
            ended(
                take_counted(payload@, MAX_HEADERS as nat, HEADER_SIZE as nat),
                |items: Seq<Seq<u8>>| PacketView::Headers(items),
            ),
        ),
{
    let mut reader = WireReader::new(payload);
    match read_headers(&mut reader) {
        Ok(items) => finish(&reader, Packet::Headers(HeadersPacket { items })),
        Err(e) => Err(e),
    }
}

fn decode_proof_request(payload: &[u8]) -> (r: Result<Packet, P2pError>)
    ensures
        same_packet(
            r,
            ended(
                wire::take_bytes(payload@, 64),
                |b: Seq<u8>| PacketView::GetProof { root: b.take(32), key: b.skip(32) },
            ),
        ),
{
    let mut reader = WireReader::new(payload);
    match read_root_and_key(&mut reader) {
        Ok((root, key)) => finish(&reader, Packet::GetProof(ProofRequest { root, key })),
        Err(e) => Err(e),
    }
}

fn decode_proof(payload: &[u8]) -> (r: Result<Packet, P2pError>)
    ensures
        same_packet(
            r,
            match wire::take_bytes(payload@, 64) {
                Err(e) => Err(e),
                Ok((b, proof)) => Ok(
                    PacketView::Proof(ProofView { root: b.take(32), key: b.skip(32), proof }),
                ),
            },
        ),
{
    let mut reader = WireReader::new(payload);
    let (root, key) = match read_root_and_key(&mut reader) {
        Ok(pair) => pair,
        Err(e) => {
            return Err(e);
        },
    };
    let ghost left = reader.rest();
    let n: usize = reader.remaining();
    match reader.read_bytes(n) {
        Ok(proof) => {
            assert(proof@ =~= left);
            Ok(Packet::Proof(ProofPacket { root, key, proof }))
        },
        Err(e) => Err(e),
    }
}

fn decode_empty(payload: &[u8], packet: Packet) -> (r: Result<Packet, P2pError>)
    ensures
        same_packet(
            r,
            if payload@.len() != 0 {
                Err(P2pError::TrailingBytes)
            } else {
                Ok(packet@)
            },
        ),
{
    if payload.len() != 0 {
        return Err(P2pError::TrailingBytes);
    }
    Ok(packet)
}

impl Packet {
    #[verifier::rlimit(30)]
    pub fn decode_payload(packet_type: u8, payload: &[u8]) -> (r: Result<Self, P2pError>)
        ensures
            same_packet(r, decoded_payload(packet_type, payload@)),
    {
        if packet_type == 0 {
            decode_version(payload)
        } else if packet_type == 1 {
            decode_empty(payload, Packet::Verack)
        } else if packet_type == 2 {
            match decode_nonce(payload) {
                Ok(nonce) => Ok(Packet::Ping(nonce)),
                Err(e) => Err(e),
            }
        } else if packet_type == 3 {
            match decode_nonce(payload) {
                Ok(nonce) => Ok(Packet::Pong(nonce)),
                Err(e) => Err(e),
            }
        } else if packet_type == 4 {
            decode_empty(payload, Packet::GetAddr)
        } else if packet_type == 5 {
            decode_addresses(payload)
        } else if packet_type == 10 {
            decode_locator(payload)
        } else if packet_type == 11 {
            decode_headers(payload)
        } else if packet_type == 12 {
            decode_empty(payload, Packet::SendHeaders)
        } else if packet_type == 26 {
            decode_proof_request(payload)
        } else if packet_type == 27 {
            decode_proof(payload)
        } else if packet_type == relay::EXPERIMENTAL_GET_DNS_RELAY {
            match GetDnsRelayPacket::decode(payload) {
                Ok(p) => Ok(Packet::GetDnsRelay(p)),
                Err(e) => Err(e),
            }
        } else if packet_type == relay::EXPERIMENTAL_DNS_RELAY {
            match DnsRelayPacket::decode(payload) {
                Ok(p) => Ok(Packet::DnsRelay(p)),
                Err(e) => Err(e),
            }
        } else {
            let copy = text::bytes_between(payload, 0, payload.len());
            assert(copy@ =~= payload@);
            Ok(Packet::Unknown { packet_type, payload: copy })
        }
    }
}

// ---------------------------------------------------------------------
// What is read of what was written
// ---------------------------------------------------------------------

/// Nonces, hashes and headers have their sizes.
pub open spec fn well_sized(p: PacketView) -> bool {
    match p {
        PacketView::Version(v) => v.nonce.len() == 8,
        PacketView::Ping(nonce) => nonce.len() == 8,
        PacketView::Pong(nonce) => nonce.len() == 8,
        PacketView::GetHeaders { locator, stop } => stop.len() == 32 && forall|i: int|
            0 <= i < locator.len() ==> (#[trigger] locator[i]).len() == 32,
        PacketView::Headers(items) => forall|i: int|
            0 <= i < items.len() ==> (#[trigger] items[i]).len() == HEADER_SIZE,
        PacketView::GetProof { root, key } => root.len() == 32 && key.len() == 32,
        PacketView::Proof(p) => p.root.len() == 32 && p.key.len() == 32,
        _ => true,
    }
}

/// IPv6 addresses that stand for IPv4 ones are read back as the latter.
pub open spec fn names_plain_addresses(p: PacketView) -> bool {
    match p {
        PacketView::Version(v) => !wire::is_mapped(v.remote.address),
        PacketView::Addr(items) => forall|i: int|
            0 <= i < items.len() ==> !wire::is_mapped((#[trigger] items[i]).address),
        _ => true,
    }
}

/// The numbers of the types that have a packet of their own.
pub open spec fn is_known_type(code: u8) -> bool {
    code <= 5 || 10 <= code <= 12 || code == 26 || code == 27 || code
        == relay::EXPERIMENTAL_GET_DNS_RELAY || code == relay::EXPERIMENTAL_DNS_RELAY
}

proof fn lemma_net(a: NetAddress)
    requires
        !wire::is_mapped(a.address),
    ensures
        net_bytes(a).len() == ADDRESS_SIZE,
        net_of(net_bytes(a)) == a,
{
    let b = net_bytes(a);
    wire::lemma_byte_powers();
    wire::lemma_le_number_of_bytes(a.time as nat, 8);
    wire::lemma_le_number_of_bytes(a.services as nat, 8);
    wire::lemma_le_number_of_bytes(a.port as nat, 2);
    wire::lemma_ip_bytes_len(a.address);
    wire::addresses_round_trip(a.address);
    assert(b.subrange(0, 8) =~= wire::le_bytes(a.time as nat, 8));
    assert(b.subrange(8, 16) =~= wire::le_bytes(a.services as nat, 8));
    assert(b.subrange(17, 33) =~= wire::ip_bytes(a.address));
    assert(b.subrange(53, 55) =~= wire::le_bytes(a.port as nat, 2));
}

proof fn lemma_version(v: VersionView)
    requires
        v.nonce.len() == 8,
        !wire::is_mapped(v.remote.address),
        vstd::utf8::encode_utf8(v.agent).len() <= MAX_AGENT_LEN,
    ensures
        take_version(version_bytes(v)) == Ok::<(VersionView, Seq<u8>), P2pError>(
            (v, Seq::<u8>::empty()),
        ),
{
    let agent = vstd::utf8::encode_utf8(v.agent);
    let s = version_bytes(v);
    let end = AGENT_START as int + agent.len();
    wire::lemma_byte_powers();
    wire::lemma_le_number_of_bytes(v.version as nat, 4);
    wire::lemma_le_number_of_bytes(v.services as nat, 8);
    wire::lemma_le_number_of_bytes(v.time as nat, 8);
    wire::lemma_le_number_of_bytes(v.height as nat, 4);
    lemma_net(v.remote);
    vstd::utf8::encode_utf8_valid_utf8(v.agent);
    vstd::utf8::encode_utf8_decode_utf8(v.agent);
    assert(s.len() == end + 5);
    assert(s[116] == agent.len() as u8);
    assert(s.subrange(0, 4) =~= wire::le_bytes(v.version as nat, 4));
    assert(s.subrange(4, 12) =~= wire::le_bytes(v.services as nat, 8));
    assert(s.subrange(12, 20) =~= wire::le_bytes(v.time as nat, 8));
    assert(s.subrange(20, 108) =~= net_bytes(v.remote));
    assert(s.subrange(108, 116) =~= v.nonce);
    assert(s.subrange(AGENT_START as int, end) =~= agent);
    assert(s.subrange(end, end + 4) =~= wire::le_bytes(v.height as nat, 4));
    assert(s[end + 4] == flag(v.no_relay));
    assert(s.skip(end + 5) =~= Seq::<u8>::empty());
}

/// Joined pieces are told apart by their size.
proof fn lemma_joined(items: Seq<Seq<u8>>, size: nat)
    requires
        forall|i: int| 0 <= i < items.len() ==> (#[trigger] items[i]).len() == size,
    ensures
        joined(items).len() == items.len() * size,
        forall|i: int|
            0 <= i < items.len() ==> joined(items).subrange(i * size, i * size + size)
                == #[trigger] items[i],
    decreases items.len(),
{
    if items.len() == 0 {
        assert(items.len() * size == 0) by (nonlinear_arith)
            requires
                items.len() == 0,
        ;
    } else {
        let front = items.drop_last();
        assert forall|i: int| 0 <= i < front.len() implies (#[trigger] front[i]).len() == size by {
            assert(front[i] == items[i]);
        }
        lemma_joined(front, size);
        lemma_piece_within(items.len() - 1, items.len(), size);
        assert(items[items.len() - 1].len() == size);
        assert forall|i: int| 0 <= i < items.len() implies joined(items).subrange(
            i * size,
            i * size + size,
        ) == #[trigger] items[i] by {
            lemma_piece_within(i, items.len(), size);
            if i < front.len() {
                lemma_piece_within(i, front.len(), size);
                assert(front[i] == items[i]);
                assert(joined(items).subrange(i * size, i * size + size) =~= joined(front).subrange(
                    i * size,
                    i * size + size,
                ));
            } else {
                assert(joined(items).subrange(i * size, i * size + size) =~= items.last());
            }
        }
    }
}

proof fn lemma_counted(items: Seq<Seq<u8>>, limit: nat, size: nat, tail: Seq<u8>)
    requires
        items.len() <= limit <= u64::MAX,
        forall|i: int| 0 <= i < items.len() ==> (#[trigger] items[i]).len() == size,
    ensures
        take_counted(counted(items) + tail, limit, size) == Ok::<(Seq<Seq<u8>>, Seq<u8>), P2pError>(
            (items, tail),
        ),
{
    let n = items.len();
    let body = joined(items) + tail;
    assert(counted(items) + tail =~= wire::varint_bytes(n) + body);
    wire::counts_round_trip(n, body);
    lemma_joined(items, size);
    assert(pieces(body, n, size) =~= items) by {
        assert forall|i: int| 0 <= i < n implies pieces(body, n, size)[i] == #[trigger] items[i] by {
            lemma_piece_within(i, n, size);
            assert(body.subrange(i * size, i * size + size) =~= joined(items).subrange(
                i * size,
                i * size + size,
            ));
        }
    }
    assert(body.skip((n * size) as int) =~= tail);
}

proof fn lemma_addresses(items: Seq<NetAddress>)
    requires
        items.len() <= MAX_ADDR,
        forall|i: int| 0 <= i < items.len() ==> !wire::is_mapped((#[trigger] items[i]).address),
    ensures
        decoded_payload(5, counted(net_list(items))) == Ok::<PacketView, P2pError>(
            PacketView::Addr(items),
        ),
{
    let list = net_list(items);
    let payload = counted(list);
    assert forall|i: int| 0 <= i < list.len() implies (#[trigger] list[i]).len() == ADDRESS_SIZE
        && net_of(list[i]) == items[i] by {
        assert(!wire::is_mapped(items[i].address));
        lemma_net(items[i]);
    }
    lemma_counted(list, MAX_ADDR as nat, ADDRESS_SIZE as nat, Seq::empty());
    assert(payload + Seq::<u8>::empty() =~= payload);
    assert(list.map_values(|b: Seq<u8>| net_of(b)) =~= items);
}

proof fn lemma_locator(locator: Seq<Seq<u8>>, stop: Seq<u8>)
    requires
        locator.len() <= MAX_INV,
        stop.len() == 32,
        forall|i: int| 0 <= i < locator.len() ==> (#[trigger] locator[i]).len() == 32,
    ensures
        decoded_payload(10, counted(locator) + stop) == Ok::<PacketView, P2pError>(
            PacketView::GetHeaders { locator, stop },
        ),
{
    lemma_counted(locator, MAX_INV as nat, 32, stop);
    assert(stop.take(32) =~= stop);
    assert(stop.skip(32) =~= Seq::<u8>::empty());
}

proof fn lemma_headers(items: Seq<Seq<u8>>)
    requires
        items.len() <= MAX_HEADERS,
        forall|i: int| 0 <= i < items.len() ==> (#[trigger] items[i]).len() == HEADER_SIZE,
    ensures
        decoded_payload(11, counted(items)) == Ok::<PacketView, P2pError>(
            PacketView::Headers(items),
        ),
{
    let payload = counted(items);
    lemma_counted(items, MAX_HEADERS as nat, HEADER_SIZE as nat, Seq::empty());
    assert(payload + Seq::<u8>::empty() =~= payload);
}

proof fn lemma_proofs(root: Seq<u8>, key: Seq<u8>, proof: Seq<u8>)
    requires
        root.len() == 32,
        key.len() == 32,
    ensures
        decoded_payload(26, root + key) == Ok::<PacketView, P2pError>(
            PacketView::GetProof { root, key },
        ),
        decoded_payload(27, root + key + proof) == Ok::<PacketView, P2pError>(
            PacketView::Proof(ProofView { root, key, proof }),
        ),
{
    let short = root + key;
    let long = root + key + proof;
    assert(short.take(64) =~= short);
    assert(short.take(32) =~= root);
    assert(short.skip(32) =~= key);
    assert(long.take(64) =~= short);
    assert(long.skip(64) =~= proof);
}

proof fn lemma_nonces(nonce: Seq<u8>)
    requires
        nonce.len() == 8,
    ensures
        decoded_payload(2, nonce) == Ok::<PacketView, P2pError>(PacketView::Ping(nonce)),
        decoded_payload(3, nonce) == Ok::<PacketView, P2pError>(PacketView::Pong(nonce)),
{
    assert(nonce.take(8) =~= nonce);
}

/// Every packet that can be written is read back as it was, unless it names an
/// IPv6 address that stands for an IPv4 one or calls a known type unknown.
#[verifier::rlimit(40)]
pub proof fn packets_round_trip(p: PacketView, payload: Seq<u8>)
    requires
        well_sized(p),
        names_plain_addresses(p),
        p is Unknown ==> !is_known_type(p->packet_type),
        encoded_payload(p) == Ok::<Seq<u8>, P2pError>(payload),
    ensures
        decoded_payload(raw_type_of(p), payload) == Ok::<PacketView, P2pError>(p),
{
    match p {
        PacketView::Version(v) => {
            lemma_version(v);
        },
        PacketView::Ping(nonce) => {
            lemma_nonces(nonce);
        },
        PacketView::Pong(nonce) => {
            lemma_nonces(nonce);
        },
        PacketView::Addr(items) => {
            lemma_addresses(items);
        },
        PacketView::GetHeaders { locator, stop } => {
            lemma_locator(locator, stop);
        },
        PacketView::Headers(items) => {
            lemma_headers(items);
        },
        PacketView::GetProof { root, key } => {
            lemma_proofs(root, key, Seq::empty());
        },
        PacketView::Proof(q) => {
            lemma_proofs(q.root, q.key, q.proof);
        },
        PacketView::GetDnsRelay(q) => {
            relay::relay_requests_round_trip(q);
        },
        PacketView::DnsRelay(q) => {
            relay::relay_responses_round_trip(q);
        },
        _ => {},
    }
}

/// Whatever is read has well-sized parts, and packets of unknown types are
/// written again exactly as they came, under the type that they came with.
pub proof fn read_packets_are_well_sized(packet_type: u8, payload: Seq<u8>, p: PacketView)
    requires
        decoded_payload(packet_type, payload) == Ok::<PacketView, P2pError>(p),
    ensures
        well_sized(p),
        raw_type_of(p) == packet_type,
        p is Unknown ==> encoded_payload(p) == Ok::<Seq<u8>, P2pError>(payload),
{
    if packet_type == 10 {
        lemma_counted_sizes(payload, MAX_INV as nat, 32);
    } else if packet_type == 11 {
        lemma_counted_sizes(payload, MAX_HEADERS as nat, HEADER_SIZE as nat);
    }
}

// ---------------------------------------------------------------------
// Addresses that were told
// ---------------------------------------------------------------------

pub open spec fn is_unspecified(ip: IpAddr) -> bool {
    match ip {
        IpAddr::V4(a) => a.bits == 0,
        IpAddr::V6(a) => a.bits == 0,
    }
}

/// Whether an address offers the services at a place that can be reached.
pub open spec fn serves(a: NetAddress, required: u64) -> bool {
    a.services & required == required && a.port != 0 && !is_unspecified(a.address)
}

/// Where the peer of an address is.
pub open spec fn place_of(a: NetAddress) -> SocketAddr {
    addr::socket_at(a.address, a.port)
}

/// Where the peers that offer the services are, each once, as they come first.
pub open spec fn serving(items: Seq<NetAddress>, required: u64) -> Seq<SocketAddr>
    decreases items.len(),
{
    if items.len() == 0 {
        Seq::empty()
    } else {
        let before = serving(items.drop_last(), required);
        let a = items.last();
        let socket = place_of(a);
        if serves(a, required) && !before.contains(socket) {
            before.push(socket)
        } else {
            before
        }
    }
}

/// Whether an address says nothing of where a peer is.
pub fn unspecified(ip: IpAddr) -> (r: bool)
    ensures
        r == is_unspecified(ip),
{
    match ip {
        IpAddr::V4(a) => a.bits == 0,
        IpAddr::V6(a) => a.bits == 0,
    }
}

/// Whether an address is among some.
pub fn holds_address(list: &Vec<SocketAddr>, address: SocketAddr) -> (r: bool)
    ensures
        r == list@.contains(address),
{
    let mut i: usize = 0;
    while i < list.len()
        invariant
            i <= list@.len(),
            forall|j: int| 0 <= j < i ==> #[trigger] list@[j] != address,
        decreases list@.len() - i,
    {
        if list[i] == address {
            assert(list@[i as int] == address);
            return true;
        }
        i += 1;
    }
    false
}

impl AddrPacket {
    pub fn service_sockets(&self, required_services: u64) -> (r: Vec<SocketAddr>)
        ensures
            r@ == serving(self.items@, required_services),
    {
        let mut out: Vec<SocketAddr> = Vec::new();
        let mut i: usize = 0;
        assert(self.items@.take(0) == Seq::<NetAddress>::empty());
        while i < self.items.len()
            invariant
                i <= self.items@.len(),
                out@ == serving(self.items@.take(i as int), required_services),
            decreases self.items@.len() - i,
        {
            let a = self.items[i];
            assert(self.items@.take(i as int + 1).drop_last() == self.items@.take(i as int));
            if a.services & required_services == required_services && a.port != 0 && !unspecified(
                a.address,
            ) {
                let socket = SocketAddr::new(a.address, a.port);
                if !holds_address(&out, socket) {
                    out.push(socket);
                }
            }
            i += 1;
        }
        assert(self.items@.take(i as int) == self.items@);
        out
    }
}

/// No address is handed out twice, and each offers what was asked for.
pub proof fn serving_addresses_are_distinct(items: Seq<NetAddress>, required: u64)
    ensures
        serving(items, required).no_duplicates(),
        forall|s: SocketAddr| #[trigger]
            serving(items, required).contains(s) <==> exists|i: int|
                0 <= i < items.len() && serves(#[trigger] items[i], required) && s == place_of(
                    items[i],
                ),
    decreases items.len(),
{
    if items.len() > 0 {
        let front = items.drop_last();
        serving_addresses_are_distinct(front, required);
        let before = serving(front, required);
        let after = serving(items, required);
        let a = items.last();
        let last = place_of(a);
        assert(before.push(last).contains(last)) by {
            assert(before.push(last)[before.len() as int] == last);
        }
        assert forall|s: SocketAddr| #[trigger] after.contains(s) <==> exists|i: int|
            0 <= i < items.len() && serves(#[trigger] items[i], required) && s == place_of(
                items[i],
            ) by {
            if after.contains(s) {
                let k = choose|k: int| 0 <= k < after.len() && after[k] == s;
                if k < before.len() {
                    assert(before[k] == s);
                    assert(before.contains(s));
                    let i = choose|i: int|
                        0 <= i < front.len() && serves(#[trigger] front[i], required) && s == place_of(
                            front[i],
                        );
                    assert(items[i] == front[i]);
                } else {
                    assert(items[items.len() - 1] == a);
                }
            }
            if exists|i: int|
                0 <= i < items.len() && serves(#[trigger] items[i], required) && s == place_of(
                    items[i],
                ) {
                let i = choose|i: int|
                    0 <= i < items.len() && serves(#[trigger] items[i], required) && s == place_of(
                        items[i],
                    );
                if i < front.len() {
                    assert(front[i] == items[i]);
                    assert(before.contains(s));
                    let k = choose|k: int| 0 <= k < before.len() && before[k] == s;
                    assert(after[k] == s);
                } else {
                    assert(s == last);
                }
            }
        }
    }
}

/// Each packet has its number.
pub proof fn packets_have_their_numbers(p: PacketView)
    ensures
        raw_type_of(p) == (match p {
            PacketView::Version(_) => 0u8,
            PacketView::Verack => 1,
            PacketView::Ping(_) => 2,
            PacketView::Pong(_) => 3,
            PacketView::GetAddr => 4,
            PacketView::Addr(_) => 5,
            PacketView::GetHeaders { .. } => 10,
            PacketView::Headers(_) => 11,
            PacketView::SendHeaders => 12,
            PacketView::GetProof { .. } => 26,
            PacketView::Proof(_) => 27,
            PacketView::GetDnsRelay(_) => 0xf0,
            PacketView::DnsRelay(_) => 0xf1,
            PacketView::Unknown { packet_type, .. } => packet_type,
        }),
        is_known_type(raw_type_of(p)) || p is Unknown,
{
}

/// A packet is written exactly where its list or its agent is within the limit, and what
/// relays itself says so. The plain ones are written as what they hold.
pub proof fn packets_are_held_to_their_limits(p: PacketView)
    ensures
        ({
            let r = encoded_payload(p);
            let one = |b: Seq<u8>| r == Ok::<Seq<u8>, P2pError>(b);
            match p {
                PacketView::Version(v) => {
                    let agent = vstd::utf8::encode_utf8(v.agent);
                    &&& r is Ok <==> agent.len() <= 255
                    &&& r is Err ==> r->Err_0 == P2pError::AgentTooLong
                },
                PacketView::Addr(items) => {
                    &&& r is Ok <==> items.len() <= 1_000
                    &&& r is Err ==> r->Err_0 == P2pError::CountLimit
                },
                PacketView::GetHeaders { locator, .. } => {
                    &&& r is Ok <==> locator.len() <= 50_000
                    &&& r is Err ==> r->Err_0 == P2pError::CountLimit
                },
                PacketView::Headers(items) => {
                    &&& r is Ok <==> items.len() <= 2_000
                    &&& r is Err ==> r->Err_0 == P2pError::CountLimit
                },
                PacketView::GetDnsRelay(q) => r == relay::encoded_request(q),
                PacketView::DnsRelay(a) => r == relay::encoded_response(a),
                PacketView::Verack | PacketView::GetAddr | PacketView::SendHeaders => one(
                    Seq::empty(),
                ),
                PacketView::Ping(nonce) => one(nonce),
                PacketView::Pong(nonce) => one(nonce),
                PacketView::GetProof { root, key } => one(root + key),
                PacketView::Proof(proof) => one(proof.root + proof.key + proof.proof),
                PacketView::Unknown { payload, .. } => one(payload),
            }
        }),
{
}

/// The address of a node is written in eighty-eight bytes: the time, the services, a zero,
/// the address, twenty zeros, the port, and zeros for a key.
pub proof fn addresses_have_their_layout(a: NetAddress)
    ensures
        ({
            let b = net_bytes(a);
            &&& b.len() == 88
            &&& b.subrange(0, 8) == wire::le_bytes(a.time as nat, 8)
            &&& b.subrange(8, 16) == wire::le_bytes(a.services as nat, 8)
            &&& b[16] == 0
            &&& b.subrange(17, 33) == wire::ip_bytes(a.address)
            &&& forall|i: int| 33 <= i < 53 ==> #[trigger] b[i] == 0
            &&& b.subrange(53, 55) == wire::le_bytes(a.port as nat, 2)
            &&& forall|i: int| 55 <= i < 88 ==> #[trigger] b[i] == 0
        }),
{
    wire::lemma_le_bytes_len(a.time as nat, 8);
    wire::lemma_le_bytes_len(a.services as nat, 8);
    wire::lemma_le_bytes_len(a.port as nat, 2);
    wire::lemma_ip_bytes_len(a.address);
    let b = net_bytes(a);
    assert(b.subrange(0, 8) =~= wire::le_bytes(a.time as nat, 8));
    assert(b.subrange(8, 16) =~= wire::le_bytes(a.services as nat, 8));
    assert(b.subrange(17, 33) =~= wire::ip_bytes(a.address));
    assert(b.subrange(53, 55) =~= wire::le_bytes(a.port as nat, 2));
}

/// A version packet is the version, the services, the time, the address it is for, the
/// nonce, the length of the agent, the agent, the height and the flag.
pub proof fn versions_have_their_layout(v: VersionView)
    requires
        v.nonce.len() == 8,
        vstd::utf8::encode_utf8(v.agent).len() <= 255,
    ensures
        ({
            let b = version_bytes(v);
            let agent = vstd::utf8::encode_utf8(v.agent);
            let end = 117 + agent.len() as int;
            &&& b.len() == end + 5
            &&& b.subrange(0, 4) == wire::le_bytes(v.version as nat, 4)
            &&& b.subrange(4, 12) == wire::le_bytes(v.services as nat, 8)
            &&& b.subrange(12, 20) == wire::le_bytes(v.time as nat, 8)
            &&& b.subrange(20, 108) == net_bytes(v.remote)
            &&& b.subrange(108, 116) == v.nonce
            &&& b[116] == agent.len()
            &&& b.subrange(117, end) == agent
            &&& b.subrange(end, end + 4) == wire::le_bytes(v.height as nat, 4)
            &&& b[end + 4] == if v.no_relay {
                1u8
            } else {
                0
            }
        }),
{
    wire::lemma_le_bytes_len(v.version as nat, 4);
    wire::lemma_le_bytes_len(v.services as nat, 8);
    wire::lemma_le_bytes_len(v.time as nat, 8);
    wire::lemma_le_bytes_len(v.height as nat, 4);
    addresses_have_their_layout(v.remote);
    let b = version_bytes(v);
    let agent = vstd::utf8::encode_utf8(v.agent);
    let end = 117 + agent.len() as int;
    assert(b.subrange(0, 4) =~= wire::le_bytes(v.version as nat, 4));
    assert(b.subrange(4, 12) =~= wire::le_bytes(v.services as nat, 8));
    assert(b.subrange(12, 20) =~= wire::le_bytes(v.time as nat, 8));
    assert(b.subrange(20, 108) =~= net_bytes(v.remote));
    assert(b.subrange(108, 116) =~= v.nonce);
    assert(b.subrange(117, end) =~= agent);
    assert(b.subrange(end, end + 4) =~= wire::le_bytes(v.height as nat, 4));
}

/// A list is its count and its items, one behind the other.
pub proof fn lists_are_counted(items: Seq<Seq<u8>>, item: Seq<u8>)
    ensures
        counted(items) == wire::varint_bytes(items.len()) + joined(items),
        joined(Seq::empty()) == Seq::<u8>::empty(),
        joined(items.push(item)) == joined(items) + item,
{
    assert(items.push(item).drop_last() =~= items);
}

/// The plain packets are read exactly where their payload has the right length; what is
/// missing and what is too much are told apart.
pub proof fn plain_packets_have_their_length(packet_type: u8, payload: Seq<u8>)
    requires
        1 <= packet_type <= 4 || packet_type == 12 || packet_type == 26,
    ensures
        ({
            let length = if packet_type == 2 || packet_type == 3 {
                8
            } else if packet_type == 26 {
                64
            } else {
                0int
            };
            let r = decoded_payload(packet_type, payload);
            &&& r is Ok <==> payload.len() == length
            &&& payload.len() < length ==> r->Err_0 == P2pError::Parse(ParseError::UnexpectedEof)
            &&& payload.len() > length ==> r->Err_0 == P2pError::TrailingBytes
            &&& r is Ok ==> encoded_payload(r->Ok_0) == Ok::<Seq<u8>, P2pError>(payload)
        }),
{
    if payload.len() == 8 {
        assert(payload.take(8) =~= payload);
    }
    if payload.len() == 64 {
        assert(payload.take(64) =~= payload);
        assert(payload.take(32) + payload.skip(32) =~= payload);
    }
    if payload.len() == 0 {
        assert(payload =~= Seq::<u8>::empty());
    }
}

/// A proof is what follows its root and its key, however long it is.
pub proof fn proofs_follow_their_keys(payload: Seq<u8>)
    ensures
        ({
            let r = decoded_payload(27, payload);
            &&& r is Ok <==> payload.len() >= 64
            &&& r is Ok ==> r->Ok_0 == PacketView::Proof(
                ProofView {
                    root: payload.subrange(0, 32),
                    key: payload.subrange(32, 64),
                    proof: payload.subrange(64, payload.len() as int),
                },
            )
            &&& r is Err ==> r->Err_0 == P2pError::Parse(ParseError::UnexpectedEof)
        }),
{
    if payload.len() >= 64 {
        assert(payload.take(64).take(32) =~= payload.subrange(0, 32));
        assert(payload.take(64).skip(32) =~= payload.subrange(32, 64));
        assert(payload.skip(64) =~= payload.subrange(64, payload.len() as int));
    }
}

/// Lists are read up to their limits: a thousand addresses, two thousand headers, fifty
/// thousand hashes. A longer one is refused at its count.
pub proof fn long_lists_are_refused(payload: Seq<u8>)
    ensures
        wire::take_varint(payload) matches Ok((n, rest)) ==> {
            let refused = Err::<PacketView, P2pError>(P2pError::CountLimit);
            let short = Err::<PacketView, P2pError>(P2pError::Parse(ParseError::UnexpectedEof));
            &&& decoded_payload(5, payload) == refused <==> n > 1_000
            &&& decoded_payload(11, payload) == refused <==> n > 2_000
            &&& decoded_payload(10, payload) == refused <==> n > 50_000
            &&& n <= 1_000 ==> (decoded_payload(5, payload) is Ok <==> rest.len() == n * 88)
            &&& n <= 2_000 ==> (decoded_payload(11, payload) is Ok <==> rest.len() == n * 236)
            &&& n <= 50_000 ==> (decoded_payload(10, payload) is Ok <==> rest.len() == n * 32 + 32)
            &&& n <= 1_000 && rest.len() < n * 88 ==> decoded_payload(5, payload) == short
            &&& n <= 2_000 && rest.len() < n * 236 ==> decoded_payload(11, payload) == short
            &&& n <= 50_000 && rest.len() < n * 32 + 32 ==> decoded_payload(10, payload) == short
        },
{
}

/// A version is read exactly where it is all there and its agent is text; of what is read the
/// flag is set by one alone.
pub proof fn versions_are_read_exactly(payload: Seq<u8>)
    ensures
        ({
            let r = decoded_payload(0, payload);
            let end = 117 + payload[116] as int;
            let agent = payload.subrange(117, end);
            let good = payload.len() >= 117 && payload.len() >= end + 5 && vstd::utf8::valid_utf8(
                agent,
            );
            &&& r is Ok <==> good && payload.len() == end + 5
            &&& r matches Ok(PacketView::Version(v)) ==> v.no_relay == (payload[end + 4] == 1)
            &&& good && payload.len() > end + 5 ==> r->Err_0 == P2pError::TrailingBytes
            &&& payload.len() < 117 || payload.len() < end ==> r == Err::<PacketView, P2pError>(
                P2pError::Parse(ParseError::UnexpectedEof),
            )
            &&& payload.len() >= 117 && payload.len() >= end && !vstd::utf8::valid_utf8(agent)
                ==> r == Err::<PacketView, P2pError>(P2pError::Parse(ParseError::InvalidDnsLabel))
        }),
{
}

/// This node speaks the third version, serves the network, takes no relayed blocks and
/// gives its own name.
pub proof fn this_node_introduces_itself()
    ensures
        default_version().version == 3,
        default_version().services == 1,
        default_version().agent == "/hns-dane-browser:0.1.0/"@,
        default_version().no_relay,
        default_version().height == 0 && default_version().time == 0,
        default_address().services == 1 && default_address().port == 0,
{
}

/// A node serves where it offers all that is asked for and has an address and a port; it is
/// told once, where it is first named.
pub proof fn serving_nodes_are_told_in_order(items: Seq<NetAddress>, a: NetAddress, required: u64)
    ensures
        ({
            let given = match a.address {
                IpAddr::V4(ip) => ip.bits != 0,
                IpAddr::V6(ip) => ip.bits != 0,
            };
            let serves = a.services & required == required && a.port != 0 && given;
            let place = match a.address {
                IpAddr::V4(ip) => SocketAddr::V4 { ip, port: a.port },
                IpAddr::V6(ip) => SocketAddr::V6 { ip, port: a.port, flow: 0, scope: 0 },
            };
            let before = serving(items, required);
            serving(items.push(a), required) == if serves && !before.contains(place) {
                before.push(place)
            } else {
                before
            }
        }),
{
    assert(items.push(a).drop_last() =~= items);
}

/// A packet that is read is the one that is meant, and so is a fault.
pub proof fn read_packets_agree(
    r: Result<Packet, P2pError>,
    v: Result<PacketView, P2pError>,
)
    ensures
        same_packet(r, v) <==> {
            &&& r is Ok <==> v is Ok
            &&& r is Ok ==> r->Ok_0@ == v->Ok_0
            &&& r is Err ==> r->Err_0 == v->Err_0
        },
{
}

/// The address of a node is read from its eighty-eight bytes: the time, the services, the
/// address where its kind is zero and none otherwise, and the port. The rest is passed
/// over.
pub proof fn addresses_are_read_by_place(b: Seq<u8>)
    requires
        b.len() == 88,
    ensures
        ({
            let a = net_of(b);
            &&& a.time == wire::le_number(b.subrange(0, 8))
            &&& a.services == wire::le_number(b.subrange(8, 16))
            &&& a.port == wire::le_number(b.subrange(53, 55))
            &&& b[16] == 0 ==> a.address == wire::ip_of_bytes(b.subrange(17, 33))
            &&& b[16] != 0 ==> a.address == IpAddr::V6(addr::Ipv6Addr { bits: 0 })
        }),
{
    wire::lemma_byte_powers();
    wire::lemma_le_number_bound(b.subrange(0, 8));
    wire::lemma_le_number_bound(b.subrange(8, 16));
    wire::lemma_le_number_bound(b.subrange(53, 55));
    let z = zeros(16);
    let m = wire::mapped_prefix();
    assert(z.take(12)[10] == 0 && m[10] == 0xff);
    let d = wire::as_digits(z);
    assert(d.len() == 16);
    lemma_zero_digits(d);
}

proof fn lemma_zero_digits(d: Seq<int>)
    requires
        forall|i: int| 0 <= i < d.len() ==> #[trigger] d[i] == 0,
    ensures
        addr::from_digits(d, 256) == 0,
    decreases d.len(),
{
    if d.len() > 0 {
        assert forall|i: int| 0 <= i < d.drop_last().len() implies #[trigger] d.drop_last()[i] == 0 by {
            assert(d.drop_last()[i] == d[i]);
        }
        lemma_zero_digits(d.drop_last());
    }
}

/// Packets are written and read as they are meant.
pub proof fn packets_are_written_and_read(
    packet: &Packet,
    written: Result<Vec<u8>, P2pError>,
    packet_type: u8,
    payload: &[u8],
    read: Result<Packet, P2pError>,
)
    requires
        call_ensures(Packet::encode_payload, (packet,), written),
        call_ensures(Packet::decode_payload, (packet_type, payload), read),
    ensures
        relay::same_bytes(written, encoded_payload(packet@)),
        same_packet(read, decoded_payload(packet_type, payload@)),
{
}

} // verus!
