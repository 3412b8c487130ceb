//! Reading and writing the numbers, strings and counts of the peer protocol.

use crate::addr;
use crate::addr::{IpAddr, Ipv4Addr, Ipv6Addr};
use crate::http1;
use crate::http1::IoKind;
use crate::text;
use vstd::prelude::*;

verus! {

#[derive(Clone, Copy, Debug, PartialEq, Eq, Structural)]
pub enum ParseError {
    UnexpectedEof,
    InvalidDnsLabel,
}

/// What is wrong with the contents of a DNS-relay packet.
#[derive(Clone, Copy, Debug, PartialEq, Eq, Structural)]
pub enum RelayPacketFault {
    EmptyQuery,
    EmptyResponse,
    BodyOnError,
}

/// Why a session ends.
#[derive(Clone, Copy, Debug, PartialEq, Eq, Structural)]
pub enum DisconnectReason {
    MissingService,
    Closed,
    UnexpectedPacket,
    HeadersBeforeReady,
    ProofBeforeReady,
}

#[derive(Debug, PartialEq, Eq)]
pub enum P2pError {
    Parse(ParseError),
    NonCanonicalVarint,
    CountLimit,
    AgentTooLong,
    TrailingBytes,
    InvalidMagic,
    MessageTooLarge,
    InvalidDnsRelayRequestId,
    DnsRelayQueryTooLarge,
    DnsRelayResponseTooLarge,
    InvalidDnsRelayStatus,
    InvalidDnsRelayPacket(RelayPacketFault),
    Io(IoKind),
    ConnectionClosed,
    SessionDisconnected(DisconnectReason),
    UnexpectedAction,
    HandshakePacketLimit,
    /// What the store of peers reports.
    Storage(String),
}

pub open spec fn relay_fault_text(f: RelayPacketFault) -> Seq<char> {
    match f {
        RelayPacketFault::EmptyQuery => "DNS-relay query is empty"@,
        RelayPacketFault::EmptyResponse => "OK DNS-relay response is empty"@,
        RelayPacketFault::BodyOnError => "error DNS-relay response has a DNS body"@,
    }
}

impl RelayPacketFault {
    pub fn text(&self) -> (r: &'static str)
        ensures
            r@ == relay_fault_text(*self),
    {
        match self {
            RelayPacketFault::EmptyQuery => "DNS-relay query is empty",
            RelayPacketFault::EmptyResponse => "OK DNS-relay response is empty",
            RelayPacketFault::BodyOnError => "error DNS-relay response has a DNS body",
        }
    }
}

pub open spec fn disconnect_text(d: DisconnectReason) -> Seq<char> {
    match d {
        DisconnectReason::MissingService => "peer lacks required network service"@,
        DisconnectReason::Closed => "session is closed"@,
        DisconnectReason::UnexpectedPacket => "unexpected packet for sync state"@,
        DisconnectReason::HeadersBeforeReady => "headers requested before peer ready"@,
        DisconnectReason::ProofBeforeReady => "proof requested before peer ready"@,
    }
}

impl DisconnectReason {
    pub fn text(&self) -> (r: &'static str)
        ensures
            r@ == disconnect_text(*self),
    {
        match self {
            DisconnectReason::MissingService => "peer lacks required network service",
            DisconnectReason::Closed => "session is closed",
            DisconnectReason::UnexpectedPacket => "unexpected packet for sync state",
            DisconnectReason::HeadersBeforeReady => "headers requested before peer ready",
            DisconnectReason::ProofBeforeReady => "proof requested before peer ready",
        }
    }
}

pub open spec fn parse_error_text(e: ParseError) -> Seq<char> {
    match e {
        ParseError::UnexpectedEof => "unexpected end of input"@,
        ParseError::InvalidDnsLabel => "invalid DNS label"@,
    }
}

impl ParseError {
    /// What went wrong, in words.
    pub fn message(&self) -> (r: &'static str)
        ensures
            r@ == parse_error_text(*self),
    {
        match self {
            ParseError::UnexpectedEof => "unexpected end of input",
            ParseError::InvalidDnsLabel => "invalid DNS label",
        }
    }
}

pub open spec fn p2p_error_text(e: P2pError) -> Seq<char> {
    match e {
        P2pError::Parse(cause) => "parse error: "@ + parse_error_text(cause),
        P2pError::NonCanonicalVarint => "varint is non-canonical"@,
        P2pError::CountLimit => "count exceeds protocol limit"@,
        P2pError::AgentTooLong => "user agent is too long"@,
        P2pError::TrailingBytes => "payload has trailing bytes"@,
        P2pError::InvalidMagic => "invalid network magic"@,
        P2pError::MessageTooLarge => "message exceeds protocol limit"@,
        P2pError::InvalidDnsRelayRequestId => "DNS-relay request identifier must be nonzero"@,
        P2pError::DnsRelayQueryTooLarge => "DNS-relay query exceeds protocol limit"@,
        P2pError::DnsRelayResponseTooLarge => "DNS-relay response exceeds protocol limit"@,
        P2pError::InvalidDnsRelayStatus => "unknown DNS-relay status"@,
        P2pError::InvalidDnsRelayPacket(fault) => "invalid DNS-relay packet: "@ + relay_fault_text(
            fault,
        ),
        P2pError::Io(kind) => "network I/O error: "@ + http1::io_kind_name(kind),
        P2pError::ConnectionClosed => "peer closed the connection"@,
        P2pError::SessionDisconnected(reason) => "peer session disconnected: "@ + disconnect_text(
            reason,
        ),
        P2pError::UnexpectedAction => "unexpected peer session action"@,
        P2pError::HandshakePacketLimit => "peer handshake exceeded the advisory packet limit"@,
        P2pError::Storage(report) => "peer storage error: "@ + report@,
    }
}

impl P2pError {
    /// What went wrong, in words.
    pub fn message(&self) -> (r: String)
        ensures
            r@ == p2p_error_text(*self),
    {
        match self {
            P2pError::Parse(cause) => text::joined("parse error: ", cause.message()),
            P2pError::NonCanonicalVarint => "varint is non-canonical".to_owned(),
            P2pError::CountLimit => "count exceeds protocol limit".to_owned(),
            P2pError::AgentTooLong => "user agent is too long".to_owned(),
            P2pError::TrailingBytes => "payload has trailing bytes".to_owned(),
            P2pError::InvalidMagic => "invalid network magic".to_owned(),
            P2pError::MessageTooLarge => "message exceeds protocol limit".to_owned(),
            P2pError::InvalidDnsRelayRequestId =>
                "DNS-relay request identifier must be nonzero".to_owned(),
            P2pError::DnsRelayQueryTooLarge => "DNS-relay query exceeds protocol limit".to_owned(),
            P2pError::DnsRelayResponseTooLarge =>
                "DNS-relay response exceeds protocol limit".to_owned(),
            P2pError::InvalidDnsRelayStatus => "unknown DNS-relay status".to_owned(),
            P2pError::InvalidDnsRelayPacket(fault) => text::joined(
                "invalid DNS-relay packet: ",
                fault.text(),
            ),
            P2pError::Io(kind) => text::joined("network I/O error: ", kind.name()),
            P2pError::ConnectionClosed => "peer closed the connection".to_owned(),
            P2pError::SessionDisconnected(reason) => text::joined(
                "peer session disconnected: ",
                reason.text(),
            ),
            P2pError::UnexpectedAction => "unexpected peer session action".to_owned(),
            P2pError::HandshakePacketLimit =>
                "peer handshake exceeded the advisory packet limit".to_owned(),
            P2pError::Storage(report) => text::joined("peer storage error: ", report.as_str()),
        }
    }
}

// ---------------------------------------------------------------------
// Numbers
// ---------------------------------------------------------------------

/// The bytes of a number, least significant first.
pub open spec fn le_bytes(n: nat, len: nat) -> Seq<u8>
    decreases len,
{
    if len == 0 {
        Seq::empty()
    } else {
        seq![(n % 256) as u8] + le_bytes(n / 256, (len - 1) as nat)
    }
}

/// The number of some bytes, least significant first.
pub open spec fn le_number(s: Seq<u8>) -> nat
    decreases s.len(),
{
    if s.len() == 0 {
        0
    } else {
        s[0] as nat + 256 * le_number(s.drop_first())
    }
}

pub proof fn lemma_le_bytes_len(n: nat, len: nat)
    ensures
        le_bytes(n, len).len() == len,
    decreases len,
{
    if len > 0 {
        lemma_le_bytes_len(n / 256, (len - 1) as nat);
    }
}

/// The bytes of a number denote it.
pub proof fn lemma_le_number_of_bytes(n: nat, len: nat)
    requires
        n < addr::power(256, len),
    ensures
        le_bytes(n, len).len() == len,
        le_number(le_bytes(n, len)) == n,
    decreases len,
{
    lemma_le_bytes_len(n, len);
    if len > 0 {
        let rest = addr::power(256, (len - 1) as nat);
        assert(n / 256 < rest) by (nonlinear_arith)
            requires
                n < 256 * rest,
        ;
        lemma_le_number_of_bytes(n / 256, (len - 1) as nat);
        let s = le_bytes(n, len);
        assert(s.drop_first() == le_bytes(n / 256, (len - 1) as nat));
        assert(s[0] == (n % 256) as u8);
        assert((n % 256) as u8 as nat == n % 256);
    }
}

pub proof fn lemma_le_number_bound(s: Seq<u8>)
    ensures
        le_number(s) < addr::power(256, s.len()),
    decreases s.len(),
{
    if s.len() > 0 {
        lemma_le_number_bound(s.drop_first());
        let p = addr::power(256, (s.len() - 1) as nat);
        let r = le_number(s.drop_first());
        assert(s[0] + 256 * r < 256 * p) by (nonlinear_arith)
            requires
                r < p,
                s[0] < 256,
        ;
    }
}

pub proof fn lemma_byte_powers()
    ensures
        addr::power(256, 1) == 0x100,
        addr::power(256, 2) == 0x1_0000,
        addr::power(256, 4) == 0x1_0000_0000,
        addr::power(256, 8) == 0x1_0000_0000_0000_0000int,
        addr::power(256, 16) == 0x1_0000_0000_0000_0000_0000_0000_0000_0000int,
{
    reveal_with_fuel(addr::power, 17);
}

/// Appends a number of so many bytes.
pub fn push_le(out: &mut Vec<u8>, value: u64, len: usize)
    requires
        len <= 8,
    ensures
        final(out)@ == old(out)@ + le_bytes(value as nat, len as nat),
{
    let ghost start = out@;
    let mut rest: u64 = value;
    let mut i: usize = 0;
    assert(start + Seq::<u8>::empty() == start);
    while i < len
        invariant
            i <= len,
            out@ + le_bytes(rest as nat, (len - i) as nat) == start + le_bytes(
                value as nat,
                len as nat,
            ),
        decreases len - i,
    {
        let ghost before = out@;
        let byte: u8 = (rest % 256) as u8;
        out.push(byte);
        proof {
            let tail = le_bytes(rest as nat / 256, (len - i - 1) as nat);
            assert(le_bytes(rest as nat, (len - i) as nat) == seq![byte] + tail);
            assert(before + (seq![byte] + tail) == out@ + tail);
        }
        rest = rest / 256;
        i += 1;
    }
    assert(out@ + Seq::<u8>::empty() == out@);
}

/// The number of at most eight bytes.
pub fn number_of(bytes: &[u8]) -> (r: u64)
    requires
        bytes@.len() <= 8,
    ensures
        r == le_number(bytes@),
{
    let mut n: u64 = 0;
    let mut i: usize = bytes.len();
    proof {
        assert(bytes@.skip(bytes@.len() as int) == Seq::<u8>::empty());
        lemma_byte_powers();
    }
    while i > 0
        invariant
            i <= bytes@.len() <= 8,
            n == le_number(bytes@.skip(i as int)),
        decreases i,
    {
        i -= 1;
        proof {
            let s = bytes@.skip(i as int);
            assert(s.drop_first() == bytes@.skip(i as int + 1));
            assert(s[0] == bytes@[i as int]);
            lemma_le_number_bound(s);
            lemma_power_bound(s.len());
        }
        n = n * 256 + bytes[i] as u64;
    }
    assert(bytes@.skip(0) == bytes@);
    n
}

proof fn lemma_power_bound(len: nat)
    requires
        len <= 8,
    ensures
        addr::power(256, len) <= 0x1_0000_0000_0000_0000int,
    decreases 8 - len,
{
    lemma_byte_powers();
    if len < 8 {
        lemma_power_bound(len + 1);
        assert(addr::power(256, len + 1) == 256 * addr::power(256, len));
    }
}

// ---------------------------------------------------------------------
// Reading
// ---------------------------------------------------------------------

/// The first bytes and the rest.
pub open spec fn take_bytes(s: Seq<u8>, n: nat) -> Result<(Seq<u8>, Seq<u8>), P2pError> {
    if s.len() < n {
        Err(P2pError::Parse(ParseError::UnexpectedEof))
    } else {
        Ok((s.take(n as int), s.skip(n as int)))
    }
}

/// A number of so many bytes and the rest.
pub open spec fn take_number(s: Seq<u8>, n: nat) -> Result<(nat, Seq<u8>), P2pError> {
    match take_bytes(s, n) {
        Err(e) => Err(e),
        Ok((b, rest)) => Ok((le_number(b), rest)),
    }
}

/// What was written first is what is read first.
pub proof fn lemma_take_written(b: Seq<u8>, tail: Seq<u8>)
    ensures
        take_bytes(b + tail, b.len()) == Ok::<(Seq<u8>, Seq<u8>), P2pError>((b, tail)),
{
    assert((b + tail).take(b.len() as int) == b);
    assert((b + tail).skip(b.len() as int) == tail);
}

pub proof fn lemma_take_number(n: nat, len: nat, tail: Seq<u8>)
    requires
        n < addr::power(256, len),
    ensures
        take_number(le_bytes(n, len) + tail, len) == Ok::<(nat, Seq<u8>), P2pError>((n, tail)),
{
    lemma_le_number_of_bytes(n, len);
    lemma_take_written(le_bytes(n, len), tail);
}

/// A position in some bytes.
pub struct WireReader<'a> {
    data: &'a [u8],
    position: usize,
}

impl<'a> WireReader<'a> {
    /// What has not been read yet.
    pub closed spec fn rest(self) -> Seq<u8> {
        self.data@.skip(self.position as int)
    }

    #[verifier::type_invariant]
    spec fn within(self) -> bool {
        self.position <= self.data@.len()
    }

    pub fn new(data: &'a [u8]) -> (r: Self)
        ensures
            r.rest() == data@,
    {
        let r = WireReader { data, position: 0 };
        assert(r.rest() == data@);
        r
    }

    pub fn remaining(&self) -> (r: usize)
        ensures
            r == self.rest().len(),
    {
        proof {
            use_type_invariant(self);
        }
        self.data.len() - self.position
    }

    pub fn read_bytes(&mut self, n: usize) -> (r: Result<Vec<u8>, P2pError>)
        ensures
            match (r, take_bytes(old(self).rest(), n as nat)) {
                (Ok(b), Ok((v, rest))) => b@ == v && final(self).rest() == rest,
                (Err(e), Err(f)) => e == f,
                _ => false,
            },
    {
        proof {
            use_type_invariant(&*self);
        }
        let start: usize = self.position;
        let total: usize = self.data.len();
        if total - start < n {
            return Err(P2pError::Parse(ParseError::UnexpectedEof));
        }
        let v = text::bytes_between(self.data, start, start + n);
        proof {
            assert(v@ == self.rest().take(n as int));
            assert(self.data@.skip(start as int + n as int) == self.rest().skip(n as int));
        }
        self.position = start + n;
        Ok(v)
    }

    /// A number of at most eight bytes.
    pub fn read_number(&mut self, n: usize) -> (r: Result<u64, P2pError>)
        requires
            n <= 8,
        ensures
            match (r, take_number(old(self).rest(), n as nat)) {
                (Ok(b), Ok((v, rest))) => b == v && final(self).rest() == rest,
                (Err(e), Err(f)) => e == f,
                _ => false,
            },
            r matches Ok(b) ==> b < addr::power(256, n as nat),
    {
        match self.read_bytes(n) {
            Err(e) => Err(e),
            Ok(b) => {
                proof {
                    lemma_le_number_bound(b@);
                }
                Ok(number_of(b.as_slice()))
            },
        }
    }

    pub fn read_u8(&mut self) -> (r: Result<u8, P2pError>)
        ensures
            match (r, take_number(old(self).rest(), 1)) {
                (Ok(b), Ok((v, rest))) => b == v && final(self).rest() == rest,
                (Err(e), Err(f)) => e == f,
                _ => false,
            },
    {
        proof {
            lemma_byte_powers();
        }
        match self.read_number(1) {
            Err(e) => Err(e),
            Ok(n) => Ok(n as u8),
        }
    }
}

// ---------------------------------------------------------------------
// Counts
// ---------------------------------------------------------------------

/// The bytes of a count: as few as hold it.
pub open spec fn varint_bytes(n: nat) -> Seq<u8> {
    if n <= 0xfc {
        seq![n as u8]
    } else if n <= 0xffff {
        seq![0xfdu8] + le_bytes(n, 2)
    } else if n <= 0xffff_ffff {
        seq![0xfeu8] + le_bytes(n, 4)
    } else {
        seq![0xffu8] + le_bytes(n, 8)
    }
}

/// A number that must be larger than what fewer bytes can hold.
pub open spec fn take_wide(s: Seq<u8>, len: nat, least: nat) -> Result<(nat, Seq<u8>), P2pError> {
    match take_number(s, len) {
        Err(e) => Err(e),
        Ok((n, rest)) => if n < least {
            Err(P2pError::NonCanonicalVarint)
        } else {
            Ok((n, rest))
        },
    }
}

/// A count and the rest.
pub open spec fn take_varint(s: Seq<u8>) -> Result<(nat, Seq<u8>), P2pError> {
    match take_number(s, 1) {
        Err(e) => Err(e),
        Ok((first, rest)) => if first <= 0xfc {
            Ok((first, rest))
        } else if first == 0xfd {
            take_wide(rest, 2, 0xfd)
        } else if first == 0xfe {
            take_wide(rest, 4, 0x1_0000)
        } else {
            take_wide(rest, 8, 0x1_0000_0000)
        },
    }
}

proof fn lemma_take_first(b: u8, tail: Seq<u8>)
    ensures
        take_number(seq![b] + tail, 1) == Ok::<(nat, Seq<u8>), P2pError>((b as nat, tail)),
{
    let s = seq![b] + tail;
    assert(s.take(1) == seq![b]);
    assert(s.skip(1) == tail);
    let one = seq![b];
    assert(one.drop_first() == Seq::<u8>::empty());
    assert(le_number(one) == one[0] as nat + 256 * le_number(one.drop_first()));
    assert(le_number(Seq::<u8>::empty()) == 0);
}

/// Every count is read back as it was written.
pub proof fn counts_round_trip(n: nat, tail: Seq<u8>)
    requires
        n <= u64::MAX,
    ensures
        take_varint(varint_bytes(n) + tail) == Ok::<(nat, Seq<u8>), P2pError>((n, tail)),
{
    lemma_byte_powers();
    if n <= 0xfc {
        lemma_take_first(n as u8, tail);
    } else if n <= 0xffff {
        let b = le_bytes(n, 2);
        assert(varint_bytes(n) + tail == seq![0xfdu8] + (b + tail));
        lemma_take_first(0xfd, b + tail);
        lemma_take_number(n, 2, tail);
    } else if n <= 0xffff_ffff {
        let b = le_bytes(n, 4);
        assert(varint_bytes(n) + tail == seq![0xfeu8] + (b + tail));
        lemma_take_first(0xfe, b + tail);
        lemma_take_number(n, 4, tail);
    } else {
        let b = le_bytes(n, 8);
        assert(varint_bytes(n) + tail == seq![0xffu8] + (b + tail));
        lemma_take_first(0xff, b + tail);
        lemma_take_number(n, 8, tail);
    }
}

pub fn write_varint(out: &mut Vec<u8>, value: u64)
    ensures
        final(out)@ == old(out)@ + varint_bytes(value as nat),
{
    let ghost start = out@;
    if value <= 0xfc {
        out.push(value as u8);
        assert(out@ == start + seq![value as u8]);
    } else if value <= 0xffff {
        out.push(0xfd);
        push_le(out, value, 2);
        assert(out@ == start + (seq![0xfdu8] + le_bytes(value as nat, 2)));
    } else if value <= 0xffff_ffff {
        out.push(0xfe);
        push_le(out, value, 4);
        assert(out@ == start + (seq![0xfeu8] + le_bytes(value as nat, 4)));
    } else {
        out.push(0xff);
        push_le(out, value, 8);
        assert(out@ == start + (seq![0xffu8] + le_bytes(value as nat, 8)));
    }
}

pub fn read_varint(reader: &mut WireReader<'_>) -> (r: Result<u64, P2pError>)
    ensures
        match (r, take_varint(old(reader).rest())) {
            (Ok(n), Ok((v, rest))) => n == v && final(reader).rest() == rest,
            (Err(e), Err(f)) => e == f,
            _ => false,
        },
{
    let first: u8 = match reader.read_u8() {
        Ok(b) => b,
        Err(e) => {
            return Err(e);
        },
    };
    if first <= 0xfc {
        return Ok(first as u64);
    }
    let (len, least): (usize, u64) = if first == 0xfd {
        (2, 0xfd)
    } else if first == 0xfe {
        (4, 0x1_0000)
    } else {
        (8, 0x1_0000_0000)
    };
    match reader.read_number(len) {
        Err(e) => Err(e),
        Ok(n) => if n < least {
            Err(P2pError::NonCanonicalVarint)
        } else {
            Ok(n)
        },
    }
}

// ---------------------------------------------------------------------
// Addresses
// ---------------------------------------------------------------------

pub open spec fn as_bytes(digits: Seq<int>) -> Seq<u8> {
    digits.map_values(|d: int| d as u8)
}

pub open spec fn as_digits(bytes: Seq<u8>) -> Seq<int> {
    bytes.map_values(|b: u8| b as int)
}

/// The prefix of an IPv4 address among IPv6 addresses.
pub open spec fn mapped_prefix() -> Seq<u8> {
    seq![0, 0, 0, 0, 0, 0, 0, 0, 0, 0, 0xff, 0xff]
}

/// The sixteen bytes of an address.
pub open spec fn ip_bytes(ip: IpAddr) -> Seq<u8> {
    match ip {
        IpAddr::V4(a) => mapped_prefix() + as_bytes(addr::base_digits(a.bits as nat, 256, 4)),
        IpAddr::V6(a) => as_bytes(addr::base_digits(a.bits as nat, 256, 16)),
    }
}

/// The address of sixteen bytes; mapped addresses are IPv4 addresses.
pub open spec fn ip_of_bytes(b: Seq<u8>) -> IpAddr {
    if b.take(12) == mapped_prefix() {
        IpAddr::V4(Ipv4Addr { bits: addr::from_digits(as_digits(b.skip(12)), 256) as u32 })
    } else {
        IpAddr::V6(Ipv6Addr { bits: addr::from_digits(as_digits(b), 256) as u128 })
    }
}

/// Whether an address is an IPv4 address in IPv6 form, which the wire does not
/// tell from the IPv4 address.
pub open spec fn is_mapped(ip: IpAddr) -> bool {
    ip is V6 && ip_bytes(ip).take(12) == mapped_prefix()
}

proof fn lemma_digits_are_bytes(n: nat, len: nat)
    ensures
        addr::base_digits(n, 256, len).len() == len,
        as_bytes(addr::base_digits(n, 256, len)).len() == len,
        as_digits(as_bytes(addr::base_digits(n, 256, len))) == addr::base_digits(n, 256, len),
{
    addr::lemma_base_digits_len(n, 256, len);
    let d = addr::base_digits(n, 256, len);
    assert forall|i: int| 0 <= i < len implies as_digits(as_bytes(d))[i] == #[trigger] d[i] by {
        assert(0 <= d[i] < 256);
    }
    assert(as_digits(as_bytes(d)) =~= d);
}

/// Every address but the mapped ones is read back as it was written.
pub proof fn addresses_round_trip(ip: IpAddr)
    requires
        !is_mapped(ip),
    ensures
        ip_bytes(ip).len() == 16,
        ip_of_bytes(ip_bytes(ip)) == ip,
{
    lemma_byte_powers();
    match ip {
        IpAddr::V4(a) => {
            lemma_digits_are_bytes(a.bits as nat, 4);
            addr::lemma_from_base_digits(a.bits as nat, 256, 4);
            let b = ip_bytes(ip);
            assert(b.take(12) == mapped_prefix());
            assert(b.skip(12) == as_bytes(addr::base_digits(a.bits as nat, 256, 4)));
        },
        IpAddr::V6(a) => {
            lemma_digits_are_bytes(a.bits as nat, 16);
            addr::lemma_from_base_digits(a.bits as nat, 256, 16);
        },
    }
}

pub proof fn lemma_ip_bytes_len(ip: IpAddr)
    ensures
        ip_bytes(ip).len() == 16,
{
    match ip {
        IpAddr::V4(a) => {
            lemma_digits_are_bytes(a.bits as nat, 4);
        },
        IpAddr::V6(a) => {
            lemma_digits_are_bytes(a.bits as nat, 16);
        },
    }
}

/// Appends the most significant byte first.
fn push_be(out: &mut Vec<u8>, value: u128, len: usize)
    requires
        len <= 16,
    ensures
        final(out)@ == old(out)@ + as_bytes(addr::base_digits(value as nat, 256, len as nat)),
{
    let mut reversed: Vec<u8> = Vec::new();
    let mut rest: u128 = value;
    let mut i: usize = 0;
    let ghost whole = as_bytes(addr::base_digits(value as nat, 256, len as nat));
    proof {
        lemma_digits_are_bytes(value as nat, len as nat);
    }
    while i < len
        invariant
            i <= len,
            reversed@.len() == i,
            whole.len() == len,
            as_bytes(addr::base_digits(rest as nat, 256, (len - i) as nat)) == whole.take(
                len - i,
            ),
            forall|j: int| 0 <= j < i ==> #[trigger] reversed@[j] == whole[len - 1 - j],
        decreases len - i,
    {
        let byte: u8 = (rest % 256) as u8;
        proof {
            let d = addr::base_digits(rest as nat, 256, (len - i) as nat);
            let t = addr::base_digits(rest as nat / 256, 256, (len - i - 1) as nat);
            assert(d == t.push((rest as nat % 256) as int));
            lemma_digits_are_bytes(rest as nat, (len - i) as nat);
            assert(as_bytes(d).drop_last() =~= as_bytes(t));
            assert(as_bytes(d).last() == byte);
            assert(whole.take(len - i).drop_last() == whole.take(len - i - 1));
            assert(whole.take(len - i).last() == whole[len - i - 1]);
        }
        reversed.push(byte);
        rest = rest / 256;
        i += 1;
    }
    let ghost start = out@;
    let mut k: usize = len;
    assert(start + whole.take(0) == start);
    while k > 0
        invariant
            k <= len,
            reversed@.len() == len,
            whole.len() == len,
            out@ == start + whole.take(len - k),
            forall|j: int| 0 <= j < len ==> #[trigger] reversed@[j] == whole[len - 1 - j],
        decreases k,
    {
        k -= 1;
        out.push(reversed[k]);
        proof {
            assert(reversed@[k as int] == whole[len - 1 - k]);
            assert(whole.take(len - k) == whole.take(len - k - 1).push(whole[len - k - 1]));
        }
    }
    assert(whole.take(len as int) == whole);
}

fn number_be(bytes: &[u8]) -> (r: u128)
    requires
        bytes@.len() <= 16,
    ensures
        r == addr::from_digits(as_digits(bytes@), 256),
{
    let mut n: u128 = 0;
    let mut i: usize = 0;
    let ghost d = as_digits(bytes@);
    assert(d.take(0) == Seq::<int>::empty());
    while i < bytes.len()
        invariant
            i <= bytes@.len() <= 16,
            d == as_digits(bytes@),
            d.len() == bytes@.len(),
            n == addr::from_digits(d.take(i as int), 256),
        decreases bytes.len() - i,
    {
        proof {
            let next = d.take(i as int + 1);
            assert(next.drop_last() == d.take(i as int));
            assert(next.last() == bytes@[i as int]);
            assert forall|j: int| 0 <= j < next.len() implies 0 <= #[trigger] next[j] < 256 by {
                assert(next[j] == bytes@[j]);
            }
            addr::lemma_from_digits_bound(next, 256);
            lemma_wide_power_bound(next.len());
        }
        n = n * 256 + bytes[i] as u128;
        i += 1;
    }
    assert(d.take(i as int) == d);
    n
}

proof fn lemma_wide_power_bound(len: nat)
    requires
        len <= 16,
    ensures
        addr::power(256, len) <= 0x1_0000_0000_0000_0000_0000_0000_0000_0000int,
    decreases 16 - len,
{
    lemma_byte_powers();
    if len < 16 {
        lemma_wide_power_bound(len + 1);
        assert(addr::power(256, len + 1) == 256 * addr::power(256, len));
    }
}

/// Appends the sixteen bytes of an address.
pub fn push_ip(out: &mut Vec<u8>, ip: IpAddr)
    ensures
        final(out)@ == old(out)@ + ip_bytes(ip),
{
    let ghost start = out@;
    match ip {
        IpAddr::V4(a) => {
            let prefix: Vec<u8> = vec![0, 0, 0, 0, 0, 0, 0, 0, 0, 0, 0xff, 0xff];
            assert(prefix@ == mapped_prefix());
            text::push_bytes(out, prefix.as_slice());
            push_be(out, a.bits as u128, 4);
            assert(out@ == start + ip_bytes(ip));
        },
        IpAddr::V6(a) => {
            push_be(out, a.bits, 16);
        },
    }
}

/// The address of sixteen bytes.
pub fn ip_from_bytes(bytes: &[u8]) -> (r: IpAddr)
    requires
        bytes@.len() == 16,
    ensures
        r == ip_of_bytes(bytes@),
{
    let prefix: Vec<u8> = vec![0, 0, 0, 0, 0, 0, 0, 0, 0, 0, 0xff, 0xff];
    assert(prefix@ == mapped_prefix());
    let head = text::bytes_between(bytes, 0, 12);
    assert(head@ == bytes@.take(12));
    if text::same_bytes(head.as_slice(), prefix.as_slice()) {
        let tail = text::bytes_between(bytes, 12, 16);
        assert(tail@ == bytes@.skip(12));
        let n: u128 = number_be(tail.as_slice());
        proof {
            let d = as_digits(tail@);
            assert forall|j: int| 0 <= j < d.len() implies 0 <= #[trigger] d[j] < 256 by {
                assert(d[j] == tail@[j]);
            }
            addr::lemma_from_digits_bound(d, 256);
            lemma_byte_powers();
        }
        IpAddr::V4(Ipv4Addr { bits: n as u32 })
    } else {
        IpAddr::V6(Ipv6Addr { bits: number_be(bytes) })
    }
}

// ---------------------------------------------------------------------
// Text
// ---------------------------------------------------------------------

/// Calls `std::str::from_utf8`: the characters that the bytes encode, or `None`
/// where they encode none.
#[verifier::external_body]
pub(crate) fn utf8_text(bytes: &[u8]) -> (r: Option<String>)
    ensures
        match r {
            Some(s) => vstd::utf8::valid_utf8(bytes@) && s@ == vstd::utf8::decode_utf8(bytes@),
            None => !vstd::utf8::valid_utf8(bytes@),
        },
{
    match std::str::from_utf8(bytes) {
        Ok(s) => Some(s.to_owned()),
        Err(_) => None,
    }
}

/// Numbers are written with their low byte first, and are read so.
pub proof fn numbers_are_written_low_byte_first(n: nat)
    requires
        n <= u64::MAX,
    ensures
        le_bytes(n, 2) == seq![(n % 256) as u8, (n / 0x100 % 256) as u8],
        le_bytes(n, 4) == seq![
            (n % 256) as u8,
            (n / 0x100 % 256) as u8,
            (n / 0x1_0000 % 256) as u8,
            (n / 0x100_0000 % 256) as u8,
        ],
        le_bytes(n, 8) == seq![
            (n % 256) as u8,
            (n / 0x100 % 256) as u8,
            (n / 0x1_0000 % 256) as u8,
            (n / 0x100_0000 % 256) as u8,
            (n / 0x1_0000_0000 % 256) as u8,
            (n / 0x100_0000_0000 % 256) as u8,
            (n / 0x1_0000_0000_0000 % 256) as u8,
            (n / 0x100_0000_0000_0000 % 256) as u8,
        ],
        le_number(le_bytes(n, 8)) == n,
{
    reveal_with_fuel(le_bytes, 9);
    lemma_byte_powers();
    lemma_le_number_of_bytes(n, 8);
    assert(n / 256 / 256 == n / 0x1_0000);
    assert(n / 256 / 256 / 256 == n / 0x100_0000);
    assert(n / 256 / 256 / 256 / 256 == n / 0x1_0000_0000);
    assert(n / 256 / 256 / 256 / 256 / 256 == n / 0x100_0000_0000);
    assert(n / 256 / 256 / 256 / 256 / 256 / 256 == n / 0x1_0000_0000_0000);
    assert(n / 256 / 256 / 256 / 256 / 256 / 256 / 256 == n / 0x100_0000_0000_0000);
    assert(le_bytes(n, 2) =~= seq![(n % 256) as u8, (n / 0x100 % 256) as u8]);
    assert(le_bytes(n, 4) =~= seq![
        (n % 256) as u8,
        (n / 0x100 % 256) as u8,
        (n / 0x1_0000 % 256) as u8,
        (n / 0x100_0000 % 256) as u8,
    ]);
    assert(le_bytes(n, 8) =~= seq![
        (n % 256) as u8,
        (n / 0x100 % 256) as u8,
        (n / 0x1_0000 % 256) as u8,
        (n / 0x100_0000 % 256) as u8,
        (n / 0x1_0000_0000 % 256) as u8,
        (n / 0x100_0000_0000 % 256) as u8,
        (n / 0x1_0000_0000_0000 % 256) as u8,
        (n / 0x100_0000_0000_0000 % 256) as u8,
    ]);
}

/// What bytes are read as is written as those bytes.
pub proof fn bytes_are_written_back(s: Seq<u8>)
    ensures
        le_bytes(le_number(s), s.len()) == s,
    decreases s.len(),
{
    if s.len() > 0 {
        bytes_are_written_back(s.drop_first());
        let n = le_number(s);
        assert(n % 256 == s[0] as nat);
        assert(n / 256 == le_number(s.drop_first()));
        assert(le_bytes(n, s.len()) =~= s);
    } else {
        assert(le_bytes(le_number(s), s.len()) =~= s);
    }
}

/// A count up to two hundred and fifty-two is its byte; a greater one follows a mark that
/// tells its width, which is the least that holds it.
pub proof fn counts_have_their_shortest_form(n: nat)
    ensures
        n <= 252 ==> varint_bytes(n) == seq![n as u8],
        252 < n <= 0xffff ==> varint_bytes(n) == seq![0xfdu8] + le_bytes(n, 2),
        0xffff < n <= 0xffff_ffff ==> varint_bytes(n) == seq![0xfeu8] + le_bytes(n, 4),
        0xffff_ffff < n ==> varint_bytes(n) == seq![0xffu8] + le_bytes(n, 8),
{
}

/// A count is read exactly where it is all there and in its shortest form, and what was read
/// is written as it was.
pub proof fn counts_are_read_in_one_form(s: Seq<u8>)
    ensures
        match take_varint(s) {
            Ok((n, rest)) => n <= u64::MAX && varint_bytes(n) + rest == s,
            Err(e) => {
                let width = if s.len() == 0 || s[0] <= 252 {
                    1
                } else if s[0] == 0xfd {
                    3
                } else if s[0] == 0xfe {
                    5
                } else {
                    9int
                };
                &&& s.len() < width ==> e == P2pError::Parse(ParseError::UnexpectedEof)
                &&& s.len() >= width ==> e == P2pError::NonCanonicalVarint && width > 1
                    && varint_bytes(le_number(s.subrange(1, width))).len() < width
            },
        },
{
    lemma_byte_powers();
    if s.len() > 0 {
        let first = s.take(1);
        assert(first.drop_first() =~= Seq::empty());
        assert(le_number(first.drop_first()) == 0);
        assert(le_number(first) == s[0] as nat);
        let rest = s.skip(1);
        assert(s =~= seq![s[0]] + rest);
        lemma_wide_form(s, 2);
        lemma_wide_form(s, 4);
        lemma_wide_form(s, 8);
        if s[0] <= 252 {
            assert(varint_bytes(s[0] as nat) + rest =~= s);
        }
    }
}

proof fn lemma_wide_form(s: Seq<u8>, len: nat)
    requires
        s.len() > 0,
        0 < len <= 8,
    ensures
        s.len() > len ==> {
            let n = le_number(s.skip(1).take(len as int));
            &&& n < addr::power(256, len)
            &&& seq![s[0]] + le_bytes(n, len) + s.skip(1).skip(len as int) == s
            &&& s.skip(1).take(len as int) == s.subrange(1, 1 + len as int)
            &&& le_bytes(n, len).len() == len
        },
        forall|n: nat| #[trigger] le_bytes(n, 2).len() == 2,
        forall|n: nat| #[trigger] le_bytes(n, 4).len() == 4,
{
    if s.len() > len {
        let b = s.skip(1).take(len as int);
        bytes_are_written_back(b);
        lemma_le_number_bound(b);
        assert(seq![s[0]] + b + s.skip(1).skip(len as int) =~= s);
        assert(b =~= s.subrange(1, 1 + len as int));
    }
    assert forall|n: nat| #[trigger] le_bytes(n, 2).len() == 2 by {
        lemma_le_bytes_len(n, 2);
    }
    assert forall|n: nat| #[trigger] le_bytes(n, 4).len() == 4 by {
        lemma_le_bytes_len(n, 4);
    }
}

/// An address of the older kind has ten zeros and two bytes of ones before its four.
pub proof fn older_addresses_are_mapped(a: Ipv4Addr)
    ensures
        ip_bytes(IpAddr::V4(a)) == seq![
            0u8,
            0,
            0,
            0,
            0,
            0,
            0,
            0,
            0,
            0,
            0xff,
            0xff,
            (a.bits / 0x100_0000) as u8,
            (a.bits / 0x1_0000 % 256) as u8,
            (a.bits / 0x100 % 256) as u8,
            (a.bits % 256) as u8,
        ],
{
    addr::octets_are_the_bits(a);
    assert(ip_bytes(IpAddr::V4(a)) =~= seq![
        0u8,
        0,
        0,
        0,
        0,
        0,
        0,
        0,
        0,
        0,
        0xff,
        0xff,
        (a.bits / 0x100_0000) as u8,
        (a.bits / 0x1_0000 % 256) as u8,
        (a.bits / 0x100 % 256) as u8,
        (a.bits % 256) as u8,
    ]);
}

/// An address of the newer kind is its sixteen bytes, the highest first.
pub proof fn newer_addresses_are_their_bytes(a: Ipv6Addr, i: int)
    requires
        0 <= i < 16,
    ensures
        ip_bytes(IpAddr::V6(a))[i] == a.bits as nat / addr::power(256, (15 - i) as nat) % 256,
{
    lemma_base_digit(a.bits as nat, 16, i);
    addr::lemma_base_digits_len(a.bits as nat, 256, 16);
}

proof fn lemma_base_digit(n: nat, len: nat, i: int)
    requires
        0 <= i < len,
    ensures
        addr::base_digits(n, 256, len).len() == len,
        addr::base_digits(n, 256, len)[i] == n / addr::power(256, (len - 1 - i) as nat) % 256,
    decreases len,
{
    addr::lemma_base_digits_len(n, 256, len);
    addr::lemma_base_digits_len(n / 256, 256, (len - 1) as nat);
    if i == len - 1 {
        assert(addr::power(256, 0) == 1);
        assert(n / 1 == n);
    } else {
        lemma_base_digit(n / 256, (len - 1) as nat, i);
        let k = (len - 2 - i) as nat;
        let p = addr::power(256, k);
        lemma_power_positive(k);
        assert(addr::power(256, k + 1) == 256 * p);
        vstd::arithmetic::div_mod::lemma_div_denominator(n as int, 256, p as int);
    }
}

proof fn lemma_power_positive(k: nat)
    ensures
        addr::power(256, k) > 0,
    decreases k,
{
    if k > 0 {
        lemma_power_positive((k - 1) as nat);
    }
}

/// Bytes are taken from the front, all that are asked for or none.
pub proof fn bytes_are_taken_whole(s: Seq<u8>, n: nat)
    ensures
        take_bytes(s, n) is Ok <==> n <= s.len(),
        take_bytes(s, n) matches Ok((b, rest)) ==> b.len() == n && b + rest == s,
        take_bytes(s, n) matches Err(e) ==> e == P2pError::Parse(ParseError::UnexpectedEof),
{
    if n <= s.len() {
        assert(s.take(n as int) + s.skip(n as int) =~= s);
    }
}

/// Each fault is told in its own words.
pub proof fn faults_of_relaying_have_their_words(f: RelayPacketFault)
    ensures
        relay_fault_text(f) == (match f {
            RelayPacketFault::EmptyQuery => "DNS-relay query is empty"@,
            RelayPacketFault::EmptyResponse => "OK DNS-relay response is empty"@,
            RelayPacketFault::BodyOnError => "error DNS-relay response has a DNS body"@,
        }),
{
}

/// Each reason to disconnect is told in its own words.
pub proof fn disconnections_have_their_words(d: DisconnectReason)
    ensures
        disconnect_text(d) == (match d {
            DisconnectReason::MissingService => "peer lacks required network service"@,
            DisconnectReason::Closed => "session is closed"@,
            DisconnectReason::UnexpectedPacket => "unexpected packet for sync state"@,
            DisconnectReason::HeadersBeforeReady => "headers requested before peer ready"@,
            DisconnectReason::ProofBeforeReady => "proof requested before peer ready"@,
        }),
{
}

/// Each fault is told in its own words.
pub proof fn faults_of_parsing_have_their_words(e: ParseError)
    ensures
        parse_error_text(e) == (match e {
            ParseError::UnexpectedEof => "unexpected end of input"@,
            ParseError::InvalidDnsLabel => "invalid DNS label"@,
        }),
{
}

/// Each failure is told in its own words.
pub proof fn failures_of_peers_have_their_words(e: P2pError)
    ensures
        p2p_error_text(e) == (match e {
            P2pError::Parse(cause) => "parse error: "@ + parse_error_text(cause),
            P2pError::NonCanonicalVarint => "varint is non-canonical"@,
            P2pError::CountLimit => "count exceeds protocol limit"@,
            P2pError::AgentTooLong => "user agent is too long"@,
            P2pError::TrailingBytes => "payload has trailing bytes"@,
            P2pError::InvalidMagic => "invalid network magic"@,
            P2pError::MessageTooLarge => "message exceeds protocol limit"@,
            P2pError::InvalidDnsRelayRequestId => "DNS-relay request identifier must be nonzero"@,
            P2pError::DnsRelayQueryTooLarge => "DNS-relay query exceeds protocol limit"@,
            P2pError::DnsRelayResponseTooLarge => "DNS-relay response exceeds protocol limit"@,
            P2pError::InvalidDnsRelayStatus => "unknown DNS-relay status"@,
            P2pError::InvalidDnsRelayPacket(fault) => "invalid DNS-relay packet: "@ + relay_fault_text(
                fault,
            ),
            P2pError::Io(kind) => "network I/O error: "@ + http1::io_kind_name(kind),
            P2pError::ConnectionClosed => "peer closed the connection"@,
            P2pError::SessionDisconnected(reason) => "peer session disconnected: "@ + disconnect_text(
                reason,
            ),
            P2pError::UnexpectedAction => "unexpected peer session action"@,
            P2pError::HandshakePacketLimit => "peer handshake exceeded the advisory packet limit"@,
            P2pError::Storage(report) => "peer storage error: "@ + report@,
        }),
{
}

} // verus!
