//! Resolving through peers: which are connected to, which is asked, and what its
//! answer or failure means for it.

use crate::addr::SocketAddr;
use crate::http1::IoKind;
use crate::packet;
use crate::packet::{NetAddress, Packet, PacketView, VersionPacket, VersionView};
use crate::peers;
use crate::peers::{PeerManager, PeerState};
use crate::relay;
use crate::relay::{
    DnsMessage, DnsRelayStatus, DnsRelayValidationError, GetDnsRelayPacket,
    EXPERIMENTAL_DNS_RELAY_SERVICE,
};
use crate::selection;
use crate::selection::{DnsRelayPeerCapability, PurposeView};
use crate::sync;
use crate::sync::{
    HeaderSyncSession, NextView, PeerConnection, PeerGoal, PeerNext, PeerTurn, SessionView, TurnView,
};
use crate::text;
use crate::wire;
use crate::wire::P2pError;
use vstd::prelude::*;

verus! {

pub const DEFAULT_DNS_RELAY_TIMEOUT_SECONDS: u64 = 3;

pub const DEFAULT_MAX_DNS_RELAY_CONNECTIONS: usize = 2;

pub const DEFAULT_DNS_RELAY_ALTERNATE_RETRIES: usize = 1;

pub const MAX_DNS_RELAY_HANDSHAKE_ATTEMPTS_PER_RESOLUTION: usize = 4;

pub const DEFAULT_DNS_RELAY_COOLDOWN_SECONDS: u64 = 30;

pub const DEFAULT_DNS_RELAY_MALFORMED_BAN_SECONDS: u64 = 600;

pub const MAX_ADVISORY_PACKETS_PER_EXCHANGE: usize = 32;

pub const MAX_PACKETS_PER_HANDSHAKE: usize = 32;

/// How many random numbers are tried for a request.
pub const MAX_REQUEST_ID_DRAWS: usize = 16;

// ---------------------------------------------------------------------
// Errors
// ---------------------------------------------------------------------

#[derive(Debug, PartialEq, Eq)]
pub enum DnsRelayClientError {
    InvalidQuery(DnsRelayValidationError),
    NoCapablePeer,
    RandomnessUnavailable,
    Transport(P2pError),
    Status(DnsRelayStatus),
    InvalidResponse(DnsRelayValidationError),
    UnsolicitedResponse(u64),
    UnexpectedPacket,
    AdvisoryPacketLimit,
}

pub open spec fn relay_client_error_text(e: DnsRelayClientError) -> Seq<char> {
    match e {
        DnsRelayClientError::InvalidQuery(cause) => "invalid DNS relay query: "@
            + relay::validation_error_text(cause),
        DnsRelayClientError::NoCapablePeer =>
            "no live peer advertised the experimental DNS-relay service"@,
        DnsRelayClientError::RandomnessUnavailable => "request-id randomness is unavailable"@,
        DnsRelayClientError::Transport(cause) => "DNS-relay peer transport failed: "@
            + wire::p2p_error_text(cause),
        DnsRelayClientError::Status(status) => "DNS-relay peer returned status "@
            + relay::status_name(status),
        DnsRelayClientError::InvalidResponse(cause) => "DNS-relay response failed validation: "@
            + relay::validation_error_text(cause),
        DnsRelayClientError::UnsolicitedResponse(id) =>
            "DNS-relay peer returned unsolicited request id "@ + text::decimal(id as nat),
        DnsRelayClientError::UnexpectedPacket => "DNS-relay peer sent an unexpected packet"@,
        DnsRelayClientError::AdvisoryPacketLimit =>
            "DNS-relay peer sent too many unrelated packets"@,
    }
}

impl DnsRelayClientError {
    /// What went wrong, in words.
    pub fn message(&self) -> (r: String)
        ensures
            r@ == relay_client_error_text(*self),
    {
        match self {
            DnsRelayClientError::InvalidQuery(cause) => text::joined(
                "invalid DNS relay query: ",
                cause.message(),
            ),
            DnsRelayClientError::NoCapablePeer =>
                "no live peer advertised the experimental DNS-relay service".to_owned(),
            DnsRelayClientError::RandomnessUnavailable =>
                "request-id randomness is unavailable".to_owned(),
            DnsRelayClientError::Transport(cause) => {
                let cause = cause.message();
                text::joined("DNS-relay peer transport failed: ", cause.as_str())
            },
            DnsRelayClientError::Status(status) => text::joined(
                "DNS-relay peer returned status ",
                status.name(),
            ),
            DnsRelayClientError::InvalidResponse(cause) => text::joined(
                "DNS-relay response failed validation: ",
                cause.message(),
            ),
            DnsRelayClientError::UnsolicitedResponse(id) => {
                let id = text::decimal_text(*id);
                text::joined("DNS-relay peer returned unsolicited request id ", id.as_str())
            },
            DnsRelayClientError::UnexpectedPacket =>
                "DNS-relay peer sent an unexpected packet".to_owned(),
            DnsRelayClientError::AdvisoryPacketLimit =>
                "DNS-relay peer sent too many unrelated packets".to_owned(),
        }
    }
}

/// What a failure means for the peer.
#[derive(Clone, Copy, Debug, PartialEq, Eq, Structural)]
pub enum AttemptPeerAction {
    Keep,
    Close,
    Backoff,
    Transport,
    Malformed,
}

#[derive(Debug, PartialEq, Eq)]
pub struct AttemptFailure {
    pub retryable: bool,
    pub peer_action: AttemptPeerAction,
    pub error: DnsRelayClientError,
}

pub open spec fn transport_failure(e: DnsRelayClientError) -> AttemptFailure {
    AttemptFailure { retryable: true, peer_action: AttemptPeerAction::Transport, error: e }
}

pub open spec fn malformed_failure(e: DnsRelayClientError) -> AttemptFailure {
    AttemptFailure { retryable: true, peer_action: AttemptPeerAction::Malformed, error: e }
}

/// A query that is called invalid is not tried elsewhere; a refusal leaves the
/// peer alone; every other status has it rest.
pub open spec fn status_failure(s: DnsRelayStatus) -> AttemptFailure {
    AttemptFailure {
        retryable: s != DnsRelayStatus::InvalidQuery,
        peer_action: if s == DnsRelayStatus::InvalidQuery || s == DnsRelayStatus::Refused {
            AttemptPeerAction::Keep
        } else {
            AttemptPeerAction::Backoff
        },
        error: DnsRelayClientError::Status(s),
    }
}

/// What a failed read means. A status of the future closes the connection and is
/// not held against the peer.
pub open spec fn read_failure(e: P2pError) -> AttemptFailure {
    if e == P2pError::InvalidDnsRelayStatus {
        AttemptFailure {
            retryable: true,
            peer_action: AttemptPeerAction::Close,
            error: DnsRelayClientError::Transport(e),
        }
    } else {
        transport_failure(DnsRelayClientError::Transport(e))
    }
}

impl AttemptFailure {
    pub fn transport(error: DnsRelayClientError) -> (r: Self)
        ensures
            r == transport_failure(error),
    {
        AttemptFailure { retryable: true, peer_action: AttemptPeerAction::Transport, error }
    }

    pub fn malformed(error: DnsRelayClientError) -> (r: Self)
        ensures
            r == malformed_failure(error),
    {
        AttemptFailure { retryable: true, peer_action: AttemptPeerAction::Malformed, error }
    }

    pub fn status(status: DnsRelayStatus) -> (r: Self)
        requires
            status != DnsRelayStatus::Success,
        ensures
            r == status_failure(status),
    {
        let (retryable, peer_action) = match status {
            DnsRelayStatus::InvalidQuery => (false, AttemptPeerAction::Keep),
            DnsRelayStatus::Refused => (true, AttemptPeerAction::Keep),
            _ => (true, AttemptPeerAction::Backoff),
        };
        AttemptFailure { retryable, peer_action, error: DnsRelayClientError::Status(status) }
    }

    /// What a failed read means.
    pub fn of_read(error: P2pError) -> (r: Self)
        ensures
            r == read_failure(error),
    {
        if matches!(error, P2pError::InvalidDnsRelayStatus) {
            AttemptFailure {
                retryable: true,
                peer_action: AttemptPeerAction::Close,
                error: DnsRelayClientError::Transport(error),
            }
        } else {
            AttemptFailure::transport(DnsRelayClientError::Transport(error))
        }
    }
}

// ---------------------------------------------------------------------
// Time
// ---------------------------------------------------------------------

/// How long is left until a deadline, of which none is left once it is reached.
pub fn remaining_until(remaining_nanos: Option<u128>) -> (r: Result<u128, P2pError>)
    ensures
        match remaining_nanos {
            Some(n) => if n > 0 {
                r == Ok::<u128, P2pError>(n)
            } else {
                r == Err::<u128, P2pError>(P2pError::Io(IoKind::TimedOut))
            },
            None => r == Err::<u128, P2pError>(P2pError::Io(IoKind::TimedOut)),
        },
{
    match remaining_nanos {
        Some(n) => if n > 0 {
            Ok(n)
        } else {
            Err(P2pError::Io(IoKind::TimedOut))
        },
        None => Err(P2pError::Io(IoKind::TimedOut)),
    }
}

/// A failure at or after the deadline is that the deadline was missed.
pub fn deadline_io_error(kind: IoKind, deadline_reached: bool) -> (r: P2pError)
    ensures
        r == P2pError::Io(
            if deadline_reached || kind == IoKind::TimedOut || kind == IoKind::WouldBlock {
                IoKind::TimedOut
            } else {
                kind
            },
        ),
{
    if deadline_reached || kind == IoKind::TimedOut || kind == IoKind::WouldBlock {
        P2pError::Io(IoKind::TimedOut)
    } else {
        P2pError::Io(kind)
    }
}

/// How far a frame has been written.
#[derive(Clone, Copy, Debug, PartialEq, Eq, Structural)]
pub struct FrameWrite {
    pub total: usize,
    pub written: usize,
}

impl FrameWrite {
    pub fn new(total: usize) -> (r: Self)
        ensures
            r == (FrameWrite { total, written: 0 }),
    {
        FrameWrite { total, written: 0 }
    }

    /// Where the next write begins, or `None` where all is written and only a flush
    /// is left.
    pub fn next(&self) -> (r: Option<usize>)
        ensures
            r == if self.written < self.total {
                Some(self.written)
            } else {
                None
            },
    {
        if self.written < self.total {
            Some(self.written)
        } else {
            None
        }
    }

    /// Takes in how much one write took.
    pub fn wrote(&mut self, size: usize) -> (r: Result<(), P2pError>)
        ensures
            final(self).total == old(self).total,
            match r {
                Ok(()) => size > 0 && final(self).written == if old(self).written + size
                    > usize::MAX {
                    usize::MAX as int
                } else {
                    old(self).written + size
                },
                Err(e) => size == 0 && e == P2pError::Io(IoKind::WriteZero) && *final(self)
                    == *old(self),
            },
    {
        if size == 0 {
            return Err(P2pError::Io(IoKind::WriteZero));
        }
        if self.written > usize::MAX - size {
            self.written = usize::MAX;
        } else {
            self.written = self.written + size;
        }
        Ok(())
    }
}

// ---------------------------------------------------------------------
// Handshakes
// ---------------------------------------------------------------------

/// What this side says of itself: no services, so that peers do not take it for a
/// source of chain data.
pub open spec fn requester_version() -> VersionView {
    VersionView {
        services: 0,
        remote: NetAddress { services: 0, ..packet::default_address() },
        ..packet::default_version()
    }
}

pub fn relay_requester_version() -> (r: VersionPacket)
    ensures
        r@ == requester_version(),
{
    let mut v = VersionPacket::default();
    v.services = 0;
    v.remote = NetAddress { services: 0, ..NetAddress::default() };
    v
}

/// A handshake with a bound on the packets that it takes.
#[derive(Debug)]
pub struct RelayHandshake {
    session: HeaderSyncSession,
    received: usize,
}

/// A turn that would go on although no more packets are taken.
pub open spec fn bounded_turn(turn: TurnView, received: nat, limit: nat) -> TurnView {
    if turn.next == NextView::Receive && received >= limit {
        TurnView { next: NextView::Fail(P2pError::HandshakePacketLimit), ..turn }
    } else {
        turn
    }
}

impl RelayHandshake {
    pub closed spec fn state(self) -> SessionView {
        self.session@
    }

    pub closed spec fn count(self) -> nat {
        self.received as nat
    }

    pub fn new(local_version: VersionPacket) -> (r: Self)
        ensures
            r.count() == 0,
            r.state().local == local_version@,
            r.state().state == sync::HeaderSyncState::AwaitingVersion,
            r.state().remote is None,
            !r.state().acknowledged,
    {
        RelayHandshake { session: HeaderSyncSession::new(local_version), received: 0 }
    }

    /// What opens the handshake.
    pub fn start(&self) -> (r: Result<Packet, P2pError>)
        ensures
            packet::same_packet(r, Ok(PacketView::Version(self.state().local))),
    {
        sync::apply_action(self.session.start())
    }

    pub fn on_packet(&mut self, packet: Packet) -> (r: PeerTurn)
        requires
            old(self).count() < MAX_PACKETS_PER_HANDSHAKE,
        ensures
            final(self).count() == old(self).count() + 1,
            final(self).state() == sync::taken(
                PeerGoal::Handshake,
                old(self).state(),
                packet@,
            ).0,
            r@ == bounded_turn(
                sync::taken(PeerGoal::Handshake, old(self).state(), packet@).1,
                final(self).count(),
                MAX_PACKETS_PER_HANDSHAKE as nat,
            ),
    {
        self.received = self.received + 1;
        let mut turn = PeerConnection::handshake(&mut self.session, packet);
        let ended = match turn.next {
            PeerNext::Receive => self.received >= MAX_PACKETS_PER_HANDSHAKE,
            _ => false,
        };
        if ended {
            turn.next = PeerNext::Fail(P2pError::HandshakePacketLimit);
        }
        turn
    }
}

// ---------------------------------------------------------------------
// Cooldowns
// ---------------------------------------------------------------------

#[derive(Clone, Copy, Debug, PartialEq, Eq, Structural)]
pub struct Cooldown {
    pub address: SocketAddr,
    pub until: u64,
}

/// Until when an address rests, by the first entry for it.
pub open spec fn rests_until(entries: Seq<Cooldown>, address: SocketAddr) -> Option<u64>
    decreases entries.len(),
{
    if entries.len() == 0 {
        None
    } else if entries[0].address == address {
        Some(entries[0].until)
    } else {
        rests_until(entries.drop_first(), address)
    }
}

proof fn lemma_rests_at(entries: Seq<Cooldown>, address: SocketAddr, i: int)
    requires
        0 <= i <= entries.len(),
        forall|j: int| 0 <= j < i ==> (#[trigger] entries[j]).address != address,
        i < entries.len() ==> entries[i].address == address,
    ensures
        rests_until(entries, address) == if i < entries.len() {
            Some(entries[i].until)
        } else {
            None
        },
    decreases entries.len(),
{
    if i > 0 {
        let t = entries.drop_first();
        assert(entries[0].address != address);
        assert forall|j: int| 0 <= j < i - 1 implies (#[trigger] t[j]).address != address by {
            assert(t[j] == entries[j + 1]);
        }
        lemma_rests_at(t, address, i - 1);
    }
}

proof fn lemma_other_entry(entries: Seq<Cooldown>, i: int, until: u64, other: SocketAddr)
    requires
        0 <= i < entries.len(),
        entries[i].address != other,
    ensures
        rests_until(entries.update(i, Cooldown { address: entries[i].address, until }), other)
            == rests_until(entries, other),
    decreases entries.len(),
{
    let after = entries.update(i, Cooldown { address: entries[i].address, until });
    if i == 0 {
        assert(after.drop_first() =~= entries.drop_first());
    } else {
        let t = entries.drop_first();
        assert(after.drop_first() =~= t.update(
            i - 1,
            Cooldown { address: t[i - 1].address, until },
        ));
        lemma_other_entry(t, i - 1, until, other);
    }
}

proof fn lemma_pushed_entry(entries: Seq<Cooldown>, entry: Cooldown, other: SocketAddr)
    requires
        entry.address != other,
    ensures
        rests_until(entries.push(entry), other) == rests_until(entries, other),
    decreases entries.len(),
{
    let after = entries.push(entry);
    if entries.len() > 0 {
        assert(after.drop_first() =~= entries.drop_first().push(entry));
        lemma_pushed_entry(entries.drop_first(), entry, other);
    } else {
        assert(after.drop_first() =~= Seq::<Cooldown>::empty());
        assert(after[0] == entry);
        reveal_with_fuel(rests_until, 2);
    }
}

/// Which addresses rest, and until when.
#[derive(Debug)]
pub struct Cooldowns {
    entries: Vec<Cooldown>,
}

impl Cooldowns {
    pub closed spec fn until(self, address: SocketAddr) -> Option<u64> {
        rests_until(self.entries@, address)
    }

    pub fn new() -> (r: Self)
        ensures
            forall|a: SocketAddr| #[trigger] r.until(a) is None,
    {
        Cooldowns { entries: Vec::new() }
    }

    pub fn get(&self, address: SocketAddr) -> (r: Option<u64>)
        ensures
            r == self.until(address),
    {
        let mut i: usize = 0;
        while i < self.entries.len()
            invariant
                i <= self.entries@.len(),
                forall|j: int| 0 <= j < i ==> (#[trigger] self.entries@[j]).address != address,
            decreases self.entries@.len() - i,
        {
            if self.entries[i].address == address {
                proof {
                    lemma_rests_at(self.entries@, address, i as int);
                }
                return Some(self.entries[i].until);
            }
            i += 1;
        }
        proof {
            lemma_rests_at(self.entries@, address, i as int);
        }
        None
    }

    pub fn insert(&mut self, address: SocketAddr, until: u64)
        ensures
            forall|a: SocketAddr| #[trigger]
                final(self).until(a) == if a == address {
                    Some(until)
                } else {
                    old(self).until(a)
                },
    {
        let ghost before = self.entries@;
        let mut i: usize = 0;
        while i < self.entries.len()
            invariant
                i <= self.entries@.len(),
                self.entries@ == before,
                before == old(self).entries@,
                forall|j: int| 0 <= j < i ==> (#[trigger] before[j]).address != address,
            decreases self.entries@.len() - i,
        {
            if self.entries[i].address == address {
                self.entries.set(i, Cooldown { address, until });
                proof {
                    lemma_rests_at(self.entries@, address, i as int);
                    assert forall|a: SocketAddr| #[trigger] self.until(a) == if a == address {
                        Some(until)
                    } else {
                        old(self).until(a)
                    } by {
                        if a != address {
                            lemma_other_entry(before, i as int, until, a);
                        }
                    }
                }
                return ;
            }
            i += 1;
        }
        self.entries.push(Cooldown { address, until });
        proof {
            lemma_rests_at(self.entries@, address, before.len() as int);
            assert forall|a: SocketAddr| #[trigger] self.until(a) == if a == address {
                Some(until)
            } else {
                old(self).until(a)
            } by {
                if a != address {
                    lemma_pushed_entry(before, Cooldown { address, until }, a);
                }
            }
        }
    }
}

// ---------------------------------------------------------------------
// The client
// ---------------------------------------------------------------------

/// A live connection, as far as the choice among them goes.
#[derive(Clone, Copy, Debug, PartialEq, Eq, Structural)]
pub struct LiveRelay {
    pub address: SocketAddr,
    pub services: u64,
}

/// What is known of peers and connections between and during resolutions. The
/// transports stand beside it, in the same order as the connections.
#[derive(Debug)]
pub struct DnsRelayClient {
    pub peers: PeerManager,
    pub connections: Vec<LiveRelay>,
    pub cooldowns: Cooldowns,
    pub pending: Vec<u64>,
    pub proof_peer: Option<SocketAddr>,
    pub max_connections: usize,
    pub alternate_retries: usize,
}

/// Connections go to different addresses.
pub open spec fn connections_differ(c: Seq<LiveRelay>) -> bool {
    forall|i: int, j: int|
        0 <= i < j < c.len() ==> (#[trigger] c[i]).address != (#[trigger] c[j]).address
}

pub open spec fn is_connected(c: Seq<LiveRelay>, address: SocketAddr) -> bool {
    exists|i: int| 0 <= i < c.len() && (#[trigger] c[i]).address == address
}

/// When a peer that is told to rest now may be asked again.
pub open spec fn rest_end(now: u64) -> u64 {
    if now + DEFAULT_DNS_RELAY_COOLDOWN_SECONDS > u64::MAX {
        u64::MAX
    } else {
        (now + DEFAULT_DNS_RELAY_COOLDOWN_SECONDS) as u64
    }
}

fn rest_from(now: u64) -> (r: u64)
    ensures
        r == rest_end(now),
{
    if now > u64::MAX - DEFAULT_DNS_RELAY_COOLDOWN_SECONDS {
        u64::MAX
    } else {
        now + DEFAULT_DNS_RELAY_COOLDOWN_SECONDS
    }
}

/// The cooldowns after an address was told to rest.
pub open spec fn rested(before: Cooldowns, after: Cooldowns, address: SocketAddr, now: u64) -> bool {
    forall|a: SocketAddr| #[trigger]
        after.until(a) == if a == address {
            Some(rest_end(now))
        } else {
            before.until(a)
        }
}

/// A list from which one element was taken: the last takes its place.
pub open spec fn swapped_out(c: Seq<LiveRelay>, i: int) -> Seq<LiveRelay> {
    c.update(i, c.last()).drop_last()
}

/// Whether a peer is known and banned.
pub open spec fn is_unavailable(
    m: Map<SocketAddr, PeerState>,
    address: SocketAddr,
    now: u64,
) -> bool {
    m.contains_key(address) && peers::banned(m[address], now)
}

/// The connections that stay, and the places from which the others were taken,
/// in order.
pub open spec fn without_banned(
    m: Map<SocketAddr, PeerState>,
    c: Seq<LiveRelay>,
    now: u64,
    i: int,
) -> (Seq<LiveRelay>, Seq<usize>)
    decreases c.len() - i,
{
    if i < 0 || i >= c.len() {
        (c, Seq::empty())
    } else if is_unavailable(m, c[i].address, now) {
        let (stay, places) = without_banned(m, swapped_out(c, i), now, i);
        (stay, seq![i as usize] + places)
    } else {
        without_banned(m, c, now, i + 1)
    }
}

/// A list with one address moved to its end, where it holds it.
pub open spec fn moved_last(c: Seq<SocketAddr>, address: Option<SocketAddr>) -> Seq<SocketAddr> {
    match address {
        Some(a) => if c.contains(a) {
            c.remove(text::find(c, a)).push(a)
        } else {
            c
        },
        None => c,
    }
}

/// Whether an address may be connected to.
pub open spec fn may_connect(
    address: SocketAddr,
    connected: Seq<SocketAddr>,
    exclude: Seq<SocketAddr>,
    cooldowns: Cooldowns,
    now: u64,
) -> bool {
    !connected.contains(address) && !exclude.contains(address) && match cooldowns.until(address) {
        Some(until) => until <= now,
        None => true,
    }
}

/// How an attempt to connect went.
#[derive(Clone, Copy, Debug, PartialEq, Eq, Structural)]
pub enum ConnectAttempt {
    ConnectFailed,
    HandshakeFailed,
    /// The services that the peer said it offers.
    Handshaken { services: u64 },
}

/// Where an address first stands in a list.
fn position(list: &Vec<SocketAddr>, address: SocketAddr) -> (r: Option<usize>)
    ensures
        match r {
            Some(i) => i < list@.len() && list@[i as int] == address && list@.contains(address)
                && i == text::find(list@, address),
            None => !list@.contains(address),
        },
{
    let mut i: usize = 0;
    while i < list.len()
        invariant
            i <= list@.len(),
            forall|j: int| 0 <= j < i ==> #[trigger] list@[j] != address,
        decreases list@.len() - i,
    {
        if list[i] == address {
            proof {
                text::lemma_find(list@, address, i as int);
                assert(list@[i as int] == address);
            }
            return Some(i);
        }
        i += 1;
    }
    None
}

impl DnsRelayClient {
    pub open spec fn wf(self) -> bool {
        &&& self.peers.wf()
        &&& connections_differ(self.connections@)
    }

    pub fn new(peers: PeerManager) -> (r: Self)
        requires
            peers.wf(),
        ensures
            r.wf(),
            r.peers == peers,
            r.connections@ == Seq::<LiveRelay>::empty(),
            r.pending@ == Seq::<u64>::empty(),
            forall|a: SocketAddr| #[trigger] r.cooldowns.until(a) is None,
            r.proof_peer is None,
            r.max_connections == DEFAULT_MAX_DNS_RELAY_CONNECTIONS,
            r.alternate_retries == DEFAULT_DNS_RELAY_ALTERNATE_RETRIES,
    {
        DnsRelayClient {
            peers,
            connections: Vec::new(),
            cooldowns: Cooldowns::new(),
            pending: Vec::new(),
            proof_peer: None,
            max_connections: DEFAULT_MAX_DNS_RELAY_CONNECTIONS,
            alternate_retries: DEFAULT_DNS_RELAY_ALTERNATE_RETRIES,
        }
    }

    pub fn set_proof_peer(&mut self, proof_peer: Option<SocketAddr>)
        ensures
            *final(self) == (DnsRelayClient { proof_peer, ..*old(self) }),
    {
        self.proof_peer = proof_peer;
    }

    pub fn peer_manager(&self) -> (r: &PeerManager)
        ensures
            *r == self.peers,
    {
        &self.peers
    }

    pub fn peer_manager_mut(&mut self) -> (r: &mut PeerManager)
        ensures
            *r == old(self).peers,
            *final(self) == (DnsRelayClient { peers: *final(r), ..*old(self) }),
    {
        &mut self.peers
    }

    pub fn connection_count(&self) -> (r: usize)
        ensures
            r == self.connections@.len(),
    {
        self.connections.len()
    }

    pub fn pending_len(&self) -> (r: usize)
        ensures
            r == self.pending@.len(),
    {
        self.pending.len()
    }

    /// Takes the connection at a place out; its transport is to be closed.
    pub fn remove_connection(&mut self, index: usize)
        requires
            old(self).wf(),
            index < old(self).connections@.len(),
        ensures
            final(self).wf(),
            final(self).connections@ == swapped_out(old(self).connections@, index as int),
            final(self).peers == old(self).peers,
            final(self).cooldowns == old(self).cooldowns,
            final(self).pending == old(self).pending,
            final(self).proof_peer == old(self).proof_peer,
            final(self).max_connections == old(self).max_connections,
            final(self).alternate_retries == old(self).alternate_retries,
    {
        let ghost before = self.connections@;
        let _taken = self.connections.swap_remove(index);
        proof {
            lemma_swapped_out(before, index as int);
            assert(self.connections@ =~= swapped_out(before, index as int));
        }
    }

    /// Drops the connections to banned peers; gives the places from which they are
    /// taken, one after the other.
    pub fn drop_banned(&mut self, now: u64) -> (r: Vec<usize>)
        requires
            old(self).wf(),
        ensures
            final(self).wf(),
            (final(self).connections@, r@) == without_banned(
                old(self).peers@,
                old(self).connections@,
                now,
                0,
            ),
            final(self).peers == old(self).peers,
            final(self).cooldowns == old(self).cooldowns,
            final(self).pending == old(self).pending,
            final(self).proof_peer == old(self).proof_peer,
            final(self).max_connections == old(self).max_connections,
            final(self).alternate_retries == old(self).alternate_retries,
    {
        let ghost all = self.connections@;
        let ghost m = self.peers@;
        let mut places: Vec<usize> = Vec::new();
        let mut i: usize = 0;
        proof {
            let (stay, more) = without_banned(m, all, now, 0);
            assert(places@ + more =~= more);
        }
        while i < self.connections.len()
            invariant
                self.wf(),
                i <= self.connections@.len(),
                m == self.peers@,
                all == old(self).connections@,
                self.peers == old(self).peers,
                self.cooldowns == old(self).cooldowns,
                self.pending == old(self).pending,
                self.proof_peer == old(self).proof_peer,
                self.max_connections == old(self).max_connections,
                self.alternate_retries == old(self).alternate_retries,
                without_banned(m, all, now, 0).0 == without_banned(
                    m,
                    self.connections@,
                    now,
                    i as int,
                ).0,
                without_banned(m, all, now, 0).1 == places@ + without_banned(
                    m,
                    self.connections@,
                    now,
                    i as int,
                ).1,
            decreases self.connections@.len() - i,
        {
            let address = self.connections[i].address;
            let unavailable = match self.peers.get(address) {
                Some(p) => p.is_banned(now),
                None => false,
            };
            if unavailable {
                let ghost before = self.connections@;
                let ghost held = places@;
                self.remove_connection(i);
                places.push(i);
                proof {
                    let (stay, more) = without_banned(m, swapped_out(before, i as int), now, i as int);
                    assert(held + (seq![i] + more) =~= held.push(i) + more);
                }
            } else {
                i += 1;
            }
        }
        assert(places@ + Seq::<usize>::empty() =~= places@);
        places
    }

    /// The addresses that may be connected to, in order.
    pub fn candidates(&self, now: u64) -> (r: Vec<SocketAddr>)
        requires
            self.wf(),
        ensures
            self.connections@.len() >= self.max_connections ==> r@ == Seq::<SocketAddr>::empty(),
            self.connections@.len() < self.max_connections ==> exists|s: Seq<PeerState>| #[trigger]
                selection::is_ranking(self.peers@, PurposeView::Outbound, now, s) && r@ == moved_last(
                    selection::chosen(s, self.peers@.len()),
                    self.proof_peer,
                ),
    {
        if self.connections.len() >= self.max_connections {
            return Vec::new();
        }
        let count: usize = self.peers.len();
        let mut list = self.peers.select_outbound(count, now);
        match self.proof_peer {
            Some(a) => {
                match position(&list, a) {
                    Some(i) => {
                        let ghost before = list@;
                        let taken = list.remove(i);
                        list.push(taken);
                        assert(list@ =~= before.remove(i as int).push(a));
                    },
                    None => {},
                }
            },
            None => {},
        }
        list
    }

    /// Takes in how an attempt to connect went; gives whether the connection is
    /// kept.
    pub fn record_attempt(&mut self, address: SocketAddr, now: u64, attempt: ConnectAttempt) -> (r:
        bool)
        requires
            old(self).wf(),
            !is_connected(old(self).connections@, address),
        ensures
            final(self).wf(),
            final(self).pending == old(self).pending,
            final(self).proof_peer == old(self).proof_peer,
            final(self).max_connections == old(self).max_connections,
            final(self).alternate_retries == old(self).alternate_retries,
            match attempt {
                ConnectAttempt::ConnectFailed | ConnectAttempt::HandshakeFailed => {
                    &&& !r
                    &&& final(self).connections == old(self).connections
                    &&& rested(old(self).cooldowns, final(self).cooldowns, address, now)
                    &&& final(self).peers@ == old(self).peers@.insert(
                        address,
                        peers::after_transient_failure(
                            peers::known_or_fresh(old(self).peers@, address),
                        ),
                    )
                },
                ConnectAttempt::Handshaken { services } => {
                    &&& r == (services & EXPERIMENTAL_DNS_RELAY_SERVICE != 0)
                    &&& final(self).peers@ == old(self).peers@.insert(
                        address,
                        peers::after_connection(
                            peers::known_or_fresh(old(self).peers@, address),
                            now,
                        ),
                    )
                    &&& if r {
                        final(self).connections@ == old(self).connections@.push(
                            LiveRelay { address, services },
                        ) && final(self).cooldowns == old(self).cooldowns
                    } else {
                        final(self).connections == old(self).connections && rested(
                            old(self).cooldowns,
                            final(self).cooldowns,
                            address,
                            now,
                        )
                    }
                },
            },
    {
        match attempt {
            ConnectAttempt::ConnectFailed | ConnectAttempt::HandshakeFailed => {
                self.peers.record_transient_failure(address);
                self.cooldowns.insert(address, rest_from(now));
                false
            },
            ConnectAttempt::Handshaken { services } => {
                self.peers.record_connection(address, now);
                if services & EXPERIMENTAL_DNS_RELAY_SERVICE == 0 {
                    self.cooldowns.insert(address, rest_from(now));
                    return false;
                }
                self.connections.push(LiveRelay { address, services });
                true
            },
        }
    }
}

proof fn lemma_swapped_out(c: Seq<LiveRelay>, i: int)
    requires
        connections_differ(c),
        0 <= i < c.len(),
    ensures
        connections_differ(swapped_out(c, i)),
        forall|x: LiveRelay| #[trigger]
            swapped_out(c, i).contains(x) <==> c.contains(x) && x != c[i],
{
    let after = swapped_out(c, i);
    assert forall|j: int, k: int| 0 <= j < k < after.len() implies (#[trigger] after[j]).address
        != (#[trigger] after[k]).address by {
        let x = if j == i {
            c.len() - 1
        } else {
            j
        };
        let y = if k == i {
            c.len() - 1
        } else {
            k
        };
        assert(after[j] == c[x] && after[k] == c[y]);
        if x < y {
            assert(c[x].address != c[y].address);
        } else {
            assert(c[y].address != c[x].address);
        }
    }
    assert forall|x: LiveRelay| #[trigger] after.contains(x) <==> c.contains(x) && x != c[i] by {
        if after.contains(x) {
            let j = choose|j: int| 0 <= j < after.len() && after[j] == x;
            let y = if j == i {
                c.len() - 1
            } else {
                j
            };
            assert(c[y] == x);
            if y < i {
                assert(c[y].address != c[i].address);
            } else {
                assert(c[i].address != c[y].address);
            }
        }
        if c.contains(x) && x != c[i] {
            let j = choose|j: int| 0 <= j < c.len() && c[j] == x;
            if j == c.len() - 1 {
                assert(after[i] == x);
            } else {
                assert(after[j] == x);
            }
        }
    }
}

// ---------------------------------------------------------------------
// Choosing a connection
// ---------------------------------------------------------------------

/// What the live connections can do.
pub open spec fn live_capabilities(c: Seq<LiveRelay>, cooldowns: Cooldowns) -> Seq<
    DnsRelayPeerCapability,
> {
    c.map_values(
        |l: LiveRelay|
            DnsRelayPeerCapability {
                address: l.address,
                services: l.services,
                fully_handshaken: true,
                cooldown_until: cooldowns.until(l.address),
            },
    )
}

/// The first address that is not excluded.
pub open spec fn first_allowed(c: Seq<SocketAddr>, exclude: Seq<SocketAddr>) -> Option<SocketAddr>
    decreases c.len(),
{
    if c.len() == 0 {
        None
    } else if !exclude.contains(c[0]) {
        Some(c[0])
    } else {
        first_allowed(c.drop_first(), exclude)
    }
}

fn find_allowed(c: &Vec<SocketAddr>, exclude: &Vec<SocketAddr>) -> (r: Option<SocketAddr>)
    ensures
        r == first_allowed(c@, exclude@),
{
    let mut i: usize = 0;
    assert(c@.skip(0) =~= c@);
    while i < c.len()
        invariant
            i <= c@.len(),
            first_allowed(c@, exclude@) == first_allowed(c@.skip(i as int), exclude@),
        decreases c@.len() - i,
    {
        assert(c@.skip(i as int).drop_first() =~= c@.skip(i as int + 1));
        if !packet::holds_address(exclude, c[i]) {
            return Some(c[i]);
        }
        i += 1;
    }
    None
}

impl DnsRelayClient {
    /// The connection to ask next, other than those that were asked, and its
    /// address.
    pub fn select_connection(&self, now: u64, exclude: &Vec<SocketAddr>) -> (r: Option<
        (usize, SocketAddr),
    >)
        requires
            self.wf(),
        ensures
            exists|s: Seq<PeerState>| #[trigger]
                selection::is_ranking(
                    self.peers@,
                    PurposeView::Relay {
                        capabilities: live_capabilities(self.connections@, self.cooldowns),
                        proof_peer: self.proof_peer,
                    },
                    now,
                    s,
                ) && match first_allowed(
                    selection::chosen(s, self.connections@.len()),
                    exclude@,
                ) {
                    Some(a) => r matches Some((i, b)) && b == a && i < self.connections@.len()
                        && self.connections@[i as int].address == a,
                    None => r is None,
                },
            r matches Some((i, a)) ==> !exclude@.contains(a),
    {
        let mut capabilities: Vec<DnsRelayPeerCapability> = Vec::new();
        let mut i: usize = 0;
        while i < self.connections.len()
            invariant
                i <= self.connections@.len(),
                capabilities@.len() == i,
                forall|j: int|
                    0 <= j < i ==> #[trigger] capabilities@[j] == live_capabilities(
                        self.connections@,
                        self.cooldowns,
                    )[j],
            decreases self.connections@.len() - i,
        {
            let live = self.connections[i];
            capabilities.push(
                DnsRelayPeerCapability {
                    address: live.address,
                    services: live.services,
                    fully_handshaken: true,
                    cooldown_until: self.cooldowns.get(live.address),
                },
            );
            i += 1;
        }
        assert(capabilities@ =~= live_capabilities(self.connections@, self.cooldowns));
        let list = self.peers.select_dns_relay(
            capabilities.as_slice(),
            self.connections.len(),
            now,
            self.proof_peer,
        );
        let ghost purpose = PurposeView::Relay {
            capabilities: capabilities@,
            proof_peer: self.proof_peer,
        };
        let ghost s = choose|s: Seq<PeerState>| #[trigger]
            selection::is_ranking(self.peers@, purpose, now, s) && list@ == selection::chosen(
                s,
                self.connections@.len(),
            );
        let address = match find_allowed(&list, exclude) {
            Some(a) => a,
            None => {
                return None;
            },
        };
        proof {
            lemma_first_allowed(list@, exclude@);
            selection::selections_are_of_wanted_peers(
                self.peers@,
                purpose,
                now,
                s,
                self.connections@.len(),
            );
            assert(selection::wanted(purpose, self.peers@[address], now));
            self.peers.lemma_addresses();
        }
        let mut k: usize = 0;
        while k < self.connections.len()
            invariant
                k <= self.connections@.len(),
                forall|j: int|
                    0 <= j < k ==> (#[trigger] self.connections@[j]).address != address,
                selection::can_relay(capabilities@, address, now),
                capabilities@ == live_capabilities(self.connections@, self.cooldowns),
                purpose == (PurposeView::Relay {
                    capabilities: capabilities@,
                    proof_peer: self.proof_peer,
                }),
                selection::is_ranking(self.peers@, purpose, now, s),
                list@ == selection::chosen(s, self.connections@.len()),
                first_allowed(list@, exclude@) == Some(address),
                !exclude@.contains(address),
            decreases self.connections@.len() - k,
        {
            if self.connections[k].address == address {
                return Some((k, address));
            }
            k += 1;
        }
        proof {
            let j = choose|j: int|
                0 <= j < capabilities@.len() && (#[trigger] capabilities@[j]).address == address
                    && selection::eligible(capabilities@[j], now);
            assert(self.connections@[j].address == address);
            assert(false);
        }
        None
    }
}

proof fn lemma_first_allowed(c: Seq<SocketAddr>, exclude: Seq<SocketAddr>)
    ensures
        first_allowed(c, exclude) matches Some(a) ==> c.contains(a) && !exclude.contains(a),
        first_allowed(c, exclude) is None ==> forall|i: int|
            0 <= i < c.len() ==> exclude.contains(#[trigger] c[i]),
    decreases c.len(),
{
    if c.len() > 0 {
        let t = c.drop_first();
        lemma_first_allowed(t, exclude);
        if !exclude.contains(c[0]) {
            assert(c.contains(c[0]));
        } else {
            match first_allowed(t, exclude) {
                Some(a) => {
                    let i = choose|i: int| 0 <= i < t.len() && t[i] == a;
                    assert(c[i + 1] == a);
                },
                None => {
                    assert forall|i: int| 0 <= i < c.len() implies exclude.contains(
                        #[trigger] c[i],
                    ) by {
                        if i > 0 {
                            assert(t[i - 1] == c[i]);
                        }
                    }
                },
            }
        }
    }
}

// ---------------------------------------------------------------------
// Connecting
// ---------------------------------------------------------------------

/// One round of connecting to more peers.
#[derive(Debug)]
pub struct Replenishment {
    pub candidates: Vec<SocketAddr>,
    pub position: usize,
    pub connected: Vec<SocketAddr>,
}

/// The first candidate from a place on that may be connected to.
pub open spec fn first_fit(
    candidates: Seq<SocketAddr>,
    i: int,
    connected: Seq<SocketAddr>,
    exclude: Seq<SocketAddr>,
    cooldowns: Cooldowns,
    now: u64,
) -> int
    decreases candidates.len() - i,
{
    if i >= candidates.len() || may_connect(candidates[i], connected, exclude, cooldowns, now) {
        i
    } else {
        first_fit(candidates, i + 1, connected, exclude, cooldowns, now)
    }
}

/// The connections that there are were there at the start or are of candidates
/// that were tried.
pub open spec fn keeps_track(
    candidates: Seq<SocketAddr>,
    position: int,
    connected: Seq<SocketAddr>,
    c: Seq<LiveRelay>,
) -> bool {
    &&& candidates.no_duplicates()
    &&& 0 <= position <= candidates.len()
    &&& forall|i: int|
        0 <= i < c.len() ==> connected.contains((#[trigger] c[i]).address) || candidates.take(
            position,
        ).contains(c[i].address)
}

impl Replenishment {
    pub open spec fn tracks(self, client: DnsRelayClient) -> bool {
        keeps_track(
            self.candidates@,
            self.position as int,
            self.connected@,
            client.connections@,
        )
    }

    pub fn new(client: &DnsRelayClient, now: u64) -> (r: Self)
        requires
            client.wf(),
        ensures
            r.tracks(*client),
            r.position == 0,
            r.connected@ == client.connections@.map_values(|l: LiveRelay| l.address),
            client.connections@.len() >= client.max_connections ==> r.candidates@.len() == 0,
            client.connections@.len() < client.max_connections ==> exists|s: Seq<PeerState>|
                #[trigger] selection::is_ranking(client.peers@, PurposeView::Outbound, now, s)
                    && r.candidates@ == moved_last(
                    selection::chosen(s, client.peers@.len()),
                    client.proof_peer,
                ),
    {
        let candidates = client.candidates(now);
        proof {
            if client.connections@.len() < client.max_connections {
                let s = choose|s: Seq<PeerState>| #[trigger]
                    selection::is_ranking(client.peers@, PurposeView::Outbound, now, s)
                        && candidates@ == moved_last(
                        selection::chosen(s, client.peers@.len()),
                        client.proof_peer,
                    );
                selection::selections_are_of_wanted_peers(
                    client.peers@,
                    PurposeView::Outbound,
                    now,
                    s,
                    client.peers@.len(),
                );
                lemma_moved_last(selection::chosen(s, client.peers@.len()), client.proof_peer);
            }
            assert(candidates@.no_duplicates());
        }
        let mut connected: Vec<SocketAddr> = Vec::new();
        let mut i: usize = 0;
        while i < client.connections.len()
            invariant
                i <= client.connections@.len(),
                connected@.len() == i,
                forall|j: int|
                    0 <= j < i ==> #[trigger] connected@[j] == client.connections@[j].address,
            decreases client.connections@.len() - i,
        {
            connected.push(client.connections[i].address);
            i += 1;
        }
        proof {
            assert forall|j: int| 0 <= j < client.connections@.len() implies connected@.contains(
                (#[trigger] client.connections@[j]).address,
            ) by {
                assert(connected@[j] == client.connections@[j].address);
            }
            assert(connected@ =~= client.connections@.map_values(|l: LiveRelay| l.address));
        }
        Replenishment { candidates, position: 0, connected }
    }

    /// The next address to connect to, while connections are wanted and the budget
    /// lasts.
    pub fn next(
        &mut self,
        client: &DnsRelayClient,
        exclude: &Vec<SocketAddr>,
        budget: usize,
        now: u64,
    ) -> (r: Option<SocketAddr>)
        requires
            old(self).tracks(*client),
        ensures
            final(self).tracks(*client),
            final(self).candidates == old(self).candidates,
            final(self).connected == old(self).connected,
            r matches Some(a) ==> !is_connected(client.connections@, a) && final(self).candidates@.take(final(self).position as int).contains(a),
            if client.connections@.len() >= client.max_connections || budget == 0 {
                r is None && final(self).position == old(self).position
            } else {
                let k = first_fit(
                    old(self).candidates@,
                    old(self).position as int,
                    old(self).connected@,
                    exclude@,
                    client.cooldowns,
                    now,
                );
                if k < old(self).candidates@.len() {
                    r == Some(old(self).candidates@[k]) && final(self).position == k + 1
                } else {
                    r is None && final(self).position == old(self).candidates@.len()
                }
            },
    {
        if client.connections.len() >= client.max_connections || budget == 0 {
            return None;
        }
        let ghost first = self.position as int;
        let total: usize = self.candidates.len();
        while self.position < total
            invariant
                total == self.candidates@.len(),
                first <= self.position <= total,
                self.tracks(*client),
                self.candidates == old(self).candidates,
                self.connected == old(self).connected,
                first == old(self).position,
                client.connections@.len() < client.max_connections,
                budget != 0,
                first_fit(
                    self.candidates@,
                    first,
                    self.connected@,
                    exclude@,
                    client.cooldowns,
                    now,
                ) == first_fit(
                    self.candidates@,
                    self.position as int,
                    self.connected@,
                    exclude@,
                    client.cooldowns,
                    now,
                ),
            decreases total - self.position,
        {
            let address = self.candidates[self.position];
            let ghost place = self.position as int;
            let resting = match client.cooldowns.get(address) {
                Some(until) => until > now,
                None => false,
            };
            let skip = packet::holds_address(&self.connected, address) || packet::holds_address(
                exclude,
                address,
            ) || resting;
            self.position = self.position + 1;
            proof {
                let before = self.candidates@.take(place);
                let after = self.candidates@.take(place + 1);
                assert forall|i: int| 0 <= i < client.connections@.len() implies
                    self.connected@.contains((#[trigger] client.connections@[i]).address)
                    || after.contains(client.connections@[i].address) by {
                    let a = client.connections@[i].address;
                    if before.contains(a) {
                        let k = choose|k: int| 0 <= k < before.len() && before[k] == a;
                        assert(after[k] == a);
                    }
                }
                if !skip {
                    assert(after[place] == address);
                    assert(!is_connected(client.connections@, address)) by {
                        if is_connected(client.connections@, address) {
                            let i = choose|i: int|
                                0 <= i < client.connections@.len() && (
                                #[trigger] client.connections@[i]).address == address;
                            if before.contains(address) {
                                let k = choose|k: int| 0 <= k < before.len() && before[k] == address;
                                assert(self.candidates@[k] == self.candidates@[place]);
                            }
                        }
                    }
                }
            }
            if !skip {
                return Some(address);
            }
        }
        None
    }
}

proof fn lemma_moved_last(c: Seq<SocketAddr>, address: Option<SocketAddr>)
    requires
        c.no_duplicates(),
    ensures
        moved_last(c, address).no_duplicates(),
        moved_last(c, address).len() == c.len(),
        forall|a: SocketAddr| #[trigger] moved_last(c, address).contains(a) <==> c.contains(a),
{
    match address {
        Some(x) => if c.contains(x) {
            text::lemma_find_bounds(c, x);
            let k = text::find(c, x);
            let after = c.remove(k).push(x);
            assert forall|a: SocketAddr| #[trigger] after.contains(a) <==> c.contains(a) by {
                if after.contains(a) {
                    let i = choose|i: int| 0 <= i < after.len() && after[i] == a;
                    if i < k {
                        assert(c[i] == a);
                    } else if i < after.len() - 1 {
                        assert(c[i + 1] == a);
                    } else {
                        assert(c[k] == a);
                    }
                }
                if c.contains(a) {
                    let i = choose|i: int| 0 <= i < c.len() && c[i] == a;
                    if i < k {
                        assert(after[i] == a);
                    } else if i > k {
                        assert(after[i - 1] == a);
                    } else {
                        assert(after[after.len() - 1] == a);
                    }
                }
            }
        },
        None => {},
    }
}

// ---------------------------------------------------------------------
// Requests
// ---------------------------------------------------------------------

/// What random numbers come to: the first that is neither zero nor in use.
/// `None` stands for a source that gives nothing.
pub open spec fn picked(draws: Seq<Option<u64>>, pending: Seq<u64>) -> Result<
    u64,
    DnsRelayClientError,
>
    decreases draws.len(),
{
    if draws.len() == 0 {
        Err(DnsRelayClientError::RandomnessUnavailable)
    } else {
        match draws[0] {
            None => Err(DnsRelayClientError::RandomnessUnavailable),
            Some(id) => if id != 0 && !pending.contains(id) {
                Ok(id)
            } else {
                picked(draws.drop_first(), pending)
            },
        }
    }
}

/// What one random number comes to: a request identifier, or another try.
#[derive(Clone, Copy, Debug, PartialEq, Eq, Structural)]
pub enum Draw {
    Accept(u64),
    Again,
    Unavailable,
}

/// Judges one random number.
pub fn judge_draw(draw: Option<u64>, pending: &[u64]) -> (r: Draw)
    ensures
        r == match draw {
            None => Draw::Unavailable,
            Some(id) => if id != 0 && !pending@.contains(id) {
                Draw::Accept(id)
            } else {
                Draw::Again
            },
        },
{
    let id: u64 = match draw {
        Some(n) => n,
        None => {
            return Draw::Unavailable;
        },
    };
    if id == 0 {
        return Draw::Again;
    }
    let mut i: usize = 0;
    while i < pending.len()
        invariant
            i <= pending@.len(),
            draw == Some(id),
            id != 0,
            forall|j: int| 0 <= j < i ==> #[trigger] pending@[j] != id,
        decreases pending@.len() - i,
    {
        if pending[i] == id {
            assert(pending@[i as int] == id);
            return Draw::Again;
        }
        i += 1;
    }
    Draw::Accept(id)
}

/// Calls `getrandom::fill` on eight bytes: the bytes, or `None` where the call
/// fails. The bytes are random: nothing is claimed of them.
#[verifier::external_body]
fn random_bytes() -> (r: Option<[u8; 8]>) {
    let mut bytes = [0u8; 8];
    match getrandom::fill(&mut bytes) {
        Ok(()) => Some(bytes),
        Err(_) => None,
    }
}

impl DnsRelayClient {
    /// A fresh identifier for a request. There is none only where the source of random
    /// numbers fails, or every number that may be tried is zero or in use.
    pub fn allocate_request_id(&self) -> (r: Result<u64, DnsRelayClientError>)
        ensures
            exists|draws: Seq<Option<u64>>|
                draws.len() <= MAX_REQUEST_ID_DRAWS && r == #[trigger] picked(draws, self.pending@)
                    && (r is Err ==> draws.len() == MAX_REQUEST_ID_DRAWS || (draws.len() > 0
                    && draws.last() is None)),
            match r {
                Ok(id) => id != 0 && !self.pending@.contains(id),
                Err(e) => e == DnsRelayClientError::RandomnessUnavailable,
            },
    {
        let ghost mut draws = Seq::<Option<u64>>::empty();
        let mut i: usize = 0;
        while i < MAX_REQUEST_ID_DRAWS
            invariant
                i <= MAX_REQUEST_ID_DRAWS,
                draws.len() == i,
                forall|j: int|
                    0 <= j < draws.len() ==> (#[trigger] draws[j]) is Some && (draws[j]->0 == 0
                        || self.pending@.contains(draws[j]->0)),
            decreases MAX_REQUEST_ID_DRAWS - i,
        {
            let draw: Option<u64> = match random_bytes() {
                Some(bytes) => Some(wire::number_of(bytes.as_slice())),
                None => None,
            };
            let ghost all = draws.push(draw);
            proof {
                lemma_picked(draws, draw, self.pending@);
                draws = all;
            }
            match judge_draw(draw, self.pending.as_slice()) {
                Draw::Accept(id) => {
                    return Ok(id);
                },
                Draw::Unavailable => {
                    return Err(DnsRelayClientError::RandomnessUnavailable);
                },
                Draw::Again => {},
            }
            i += 1;
        }
        proof {
            lemma_none_picked(draws, self.pending@);
        }
        Err(DnsRelayClientError::RandomnessUnavailable)
    }

    /// Notes that a request is out.
    pub fn begin_request(&mut self, request_id: u64)
        ensures
            *final(self) == (DnsRelayClient { pending: final(self).pending, ..*old(self) }),
            final(self).pending@ == if old(self).pending@.contains(request_id) {
                old(self).pending@
            } else {
                old(self).pending@.push(request_id)
            },
    {
        if !self.is_pending(request_id) {
            self.pending.push(request_id);
        }
    }

    pub fn is_pending(&self, request_id: u64) -> (r: bool)
        ensures
            r == self.pending@.contains(request_id),
    {
        let mut i: usize = 0;
        while i < self.pending.len()
            invariant
                i <= self.pending@.len(),
                forall|j: int| 0 <= j < i ==> #[trigger] self.pending@[j] != request_id,
            decreases self.pending@.len() - i,
        {
            if self.pending[i] == request_id {
                assert(self.pending@[i as int] == request_id);
                return true;
            }
            i += 1;
        }
        false
    }

    /// Notes that a request is over.
    pub fn end_request(&mut self, request_id: u64)
        ensures
            *final(self) == (DnsRelayClient { pending: final(self).pending, ..*old(self) }),
            final(self).pending@ == old(self).pending@.filter(|id: u64| id != request_id),
    {
        let ghost all = self.pending@;
        let ghost other = |id: u64| id != request_id;
        let mut left: Vec<u64> = Vec::new();
        let mut i: usize = 0;
        proof {
            assert(all.take(0) =~= Seq::<u64>::empty());
            reveal(Seq::filter);
        }
        while i < self.pending.len()
            invariant
                i <= self.pending@.len(),
                self.pending@ == all,
                other == (|id: u64| id != request_id),
                left@ == all.take(i as int).filter(other),
                *self == *old(self),
            decreases self.pending@.len() - i,
        {
            proof {
                assert(all.take(i as int + 1).drop_last() == all.take(i as int));
                reveal(Seq::filter);
            }
            if self.pending[i] != request_id {
                left.push(self.pending[i]);
            }
            i += 1;
        }
        assert(all.take(i as int) =~= all);
        self.pending = left;
    }

    /// Drops all connections and requests; the transports are to be closed.
    pub fn shutdown(&mut self)
        ensures
            final(self).connections@ == Seq::<LiveRelay>::empty(),
            final(self).pending@ == Seq::<u64>::empty(),
            final(self).peers == old(self).peers,
            final(self).cooldowns == old(self).cooldowns,
            final(self).proof_peer == old(self).proof_peer,
            final(self).max_connections == old(self).max_connections,
            final(self).alternate_retries == old(self).alternate_retries,
            old(self).wf() ==> final(self).wf(),
    {
        self.connections = Vec::new();
        self.pending = Vec::new();
    }
}

proof fn lemma_picked(draws: Seq<Option<u64>>, draw: Option<u64>, pending: Seq<u64>)
    requires
        forall|j: int|
            0 <= j < draws.len() ==> (#[trigger] draws[j]) is Some && (draws[j]->0 == 0
                || pending.contains(draws[j]->0)),
    ensures
        picked(draws.push(draw), pending) == match draw {
            Some(id) if id != 0 && !pending.contains(id) => Ok::<u64, DnsRelayClientError>(id),
            _ => Err(DnsRelayClientError::RandomnessUnavailable),
        },
    decreases draws.len(),
{
    let all = draws.push(draw);
    if draws.len() > 0 {
        let t = draws.drop_first();
        assert(draws[0] is Some);
        assert(all[0] == draws[0]);
        assert(all.drop_first() =~= t.push(draw));
        assert forall|j: int| 0 <= j < t.len() implies (#[trigger] t[j]) is Some && (t[j]->0 == 0
            || pending.contains(t[j]->0)) by {
            assert(t[j] == draws[j + 1]);
        }
        lemma_picked(t, draw, pending);
    } else {
        assert(all.drop_first() =~= Seq::<Option<u64>>::empty());
        assert(all[0] == draw);
        reveal_with_fuel(picked, 2);
    }
}

proof fn lemma_none_picked(draws: Seq<Option<u64>>, pending: Seq<u64>)
    requires
        forall|j: int|
            0 <= j < draws.len() ==> (#[trigger] draws[j]) is Some && (draws[j]->0 == 0
                || pending.contains(draws[j]->0)),
    ensures
        picked(draws, pending) == Err::<u64, DnsRelayClientError>(
            DnsRelayClientError::RandomnessUnavailable,
        ),
    decreases draws.len(),
{
    if draws.len() > 0 {
        let t = draws.drop_first();
        assert(draws[0] is Some);
        assert forall|j: int| 0 <= j < t.len() implies (#[trigger] t[j]) is Some && (t[j]->0 == 0
            || pending.contains(t[j]->0)) by {
            assert(t[j] == draws[j + 1]);
        }
        lemma_none_picked(t, pending);
    }
}

// ---------------------------------------------------------------------
// Exchanges
// ---------------------------------------------------------------------

/// One request to one peer, and how many packets have come since.
#[derive(Debug)]
pub struct RelayExchange {
    pub request_id: u64,
    pub received: usize,
}

/// What to do once the packet of a turn has been sent.
#[derive(Debug, PartialEq, Eq)]
pub enum ExchangeNext {
    Receive,
    /// Read these bytes as a DNS message and check it.
    Check(Vec<u8>),
    Fail(AttemptFailure),
}

#[verifier::ext_equal]
pub enum ExchangeNextView {
    Receive,
    Check(Seq<u8>),
    Fail(AttemptFailure),
}

impl View for ExchangeNext {
    type V = ExchangeNextView;

    open spec fn view(&self) -> ExchangeNextView {
        match *self {
            ExchangeNext::Receive => ExchangeNextView::Receive,
            ExchangeNext::Check(b) => ExchangeNextView::Check(b@),
            ExchangeNext::Fail(f) => ExchangeNextView::Fail(f),
        }
    }
}

#[derive(Debug, PartialEq, Eq)]
pub struct ExchangeTurn {
    pub send: Option<Packet>,
    pub next: ExchangeNext,
}

#[verifier::ext_equal]
pub struct ExchangeTurnView {
    pub send: Option<PacketView>,
    pub next: ExchangeNextView,
}

impl View for ExchangeTurn {
    type V = ExchangeTurnView;

    open spec fn view(&self) -> ExchangeTurnView {
        ExchangeTurnView {
            send: match self.send {
                Some(p) => Some(p@),
                None => None,
            },
            next: self.next@,
        }
    }
}

/// What comes after a packet that says nothing to the request.
pub open spec fn after_advisory(received: nat) -> ExchangeNextView {
    if received >= MAX_ADVISORY_PACKETS_PER_EXCHANGE {
        ExchangeNextView::Fail(transport_failure(DnsRelayClientError::AdvisoryPacketLimit))
    } else {
        ExchangeNextView::Receive
    }
}

/// What a packet means for a request; so many have come, it included.
pub open spec fn exchange_turn(
    request_id: u64,
    pending: bool,
    received: nat,
    p: PacketView,
) -> ExchangeTurnView {
    match p {
        PacketView::DnsRelay(response) => ExchangeTurnView {
            send: None,
            next: if response.request_id != request_id || !pending {
                ExchangeNextView::Fail(
                    malformed_failure(
                        DnsRelayClientError::UnsolicitedResponse(response.request_id),
                    ),
                )
            } else if response.status != DnsRelayStatus::Success {
                ExchangeNextView::Fail(status_failure(response.status))
            } else {
                ExchangeNextView::Check(response.response)
            },
        },
        PacketView::Ping(nonce) => ExchangeTurnView {
            send: Some(PacketView::Pong(nonce)),
            next: after_advisory(received),
        },
        PacketView::Version(_) => ExchangeTurnView {
            send: None,
            next: ExchangeNextView::Fail(malformed_failure(DnsRelayClientError::UnexpectedPacket)),
        },
        _ => ExchangeTurnView { send: None, next: after_advisory(received) },
    }
}

fn next_after_advisory(received: usize) -> (r: ExchangeNext)
    ensures
        r@ == after_advisory(received as nat),
{
    if received >= MAX_ADVISORY_PACKETS_PER_EXCHANGE {
        ExchangeNext::Fail(AttemptFailure::transport(DnsRelayClientError::AdvisoryPacketLimit))
    } else {
        ExchangeNext::Receive
    }
}

impl RelayExchange {
    pub fn new(request_id: u64) -> (r: Self)
        ensures
            r.request_id == request_id,
            r.received == 0,
    {
        RelayExchange { request_id, received: 0 }
    }

    /// The packet that asks.
    pub fn start(&self, query: Vec<u8>) -> (r: Result<Packet, AttemptFailure>)
        ensures
            match relay::checked_request(
                relay::RelayRequestView { request_id: self.request_id, query: query@ },
            ) {
                Ok(v) => r matches Ok(p) && p@ == PacketView::GetDnsRelay(v),
                Err(e) => r matches Err(f) && f == transport_failure(
                    DnsRelayClientError::Transport(e),
                ),
            },
    {
        match GetDnsRelayPacket::new(self.request_id, query) {
            Ok(p) => Ok(Packet::GetDnsRelay(p)),
            Err(e) => Err(AttemptFailure::transport(DnsRelayClientError::Transport(e))),
        }
    }

    pub fn on_packet(&mut self, pending: bool, packet: Packet) -> (r: ExchangeTurn)
        requires
            old(self).received < MAX_ADVISORY_PACKETS_PER_EXCHANGE,
        ensures
            final(self).request_id == old(self).request_id,
            final(self).received == old(self).received + 1,
            r@ == exchange_turn(
                old(self).request_id,
                pending,
                final(self).received as nat,
                packet@,
            ),
    {
        self.received = self.received + 1;
        match packet {
            Packet::DnsRelay(response) => {
                let next = if response.request_id != self.request_id || !pending {
                    ExchangeNext::Fail(
                        AttemptFailure::malformed(
                            DnsRelayClientError::UnsolicitedResponse(response.request_id),
                        ),
                    )
                } else if response.status != DnsRelayStatus::Success {
                    ExchangeNext::Fail(AttemptFailure::status(response.status))
                } else {
                    ExchangeNext::Check(response.response)
                };
                ExchangeTurn { send: None, next }
            },
            Packet::Ping(nonce) => ExchangeTurn {
                send: Some(Packet::Pong(nonce)),
                next: next_after_advisory(self.received),
            },
            Packet::Version(_) => ExchangeTurn {
                send: None,
                next: ExchangeNext::Fail(
                    AttemptFailure::malformed(DnsRelayClientError::UnexpectedPacket),
                ),
            },
            Packet::GetAddr
            | Packet::Addr(_)
            | Packet::Pong(_)
            | Packet::SendHeaders
            | Packet::GetHeaders(_)
            | Packet::Headers(_)
            | Packet::GetProof(_)
            | Packet::Proof(_)
            | Packet::GetDnsRelay(_)
            | Packet::Unknown { .. }
            | Packet::Verack => ExchangeTurn {
                send: None,
                next: next_after_advisory(self.received),
            },
        }
    }
}

/// Checks the response that a peer gave; both messages come as they were read.
pub fn check_response(
    query_len: usize,
    query: Option<&DnsMessage>,
    root_valid: bool,
    response: Vec<u8>,
    message: Option<&DnsMessage>,
) -> (r: Result<Vec<u8>, AttemptFailure>)
    ensures
        match relay::relay_response_error(
            query_len as nat,
            relay::message_view(query),
            root_valid,
            response@.len(),
            relay::message_view(message),
        ) {
            None => r matches Ok(b) && b@ == response@,
            Some(e) => r matches Err(f) && f == malformed_failure(
                DnsRelayClientError::InvalidResponse(e),
            ),
        },
{
    match relay::validate_dns_relay_response(
        query_len,
        query,
        root_valid,
        response.len(),
        message,
    ) {
        None => Ok(response),
        Some(e) => Err(AttemptFailure::malformed(DnsRelayClientError::InvalidResponse(e))),
    }
}

// ---------------------------------------------------------------------
// Consequences
// ---------------------------------------------------------------------

/// What is known of peers after an attempt failed.
pub open spec fn blamed(
    m: Map<SocketAddr, PeerState>,
    address: SocketAddr,
    now: u64,
    action: AttemptPeerAction,
) -> Map<SocketAddr, PeerState> {
    let p = peers::known_or_fresh(m, address);
    match action {
        AttemptPeerAction::Malformed => m.insert(
            address,
            peers::penalized(
                p,
                peers::MALFORMED_SCORE,
                Some(peers::ban_end(now, DEFAULT_DNS_RELAY_MALFORMED_BAN_SECONDS)),
            ),
        ),
        AttemptPeerAction::Transport => m.insert(address, peers::after_transient_failure(p)),
        _ => m,
    }
}

/// Whether an action has the peer rest.
pub open spec fn has_rest(action: AttemptPeerAction) -> bool {
    action == AttemptPeerAction::Malformed || action == AttemptPeerAction::Transport || action
        == AttemptPeerAction::Backoff
}

/// Whether an action closes the connection.
pub open spec fn closes(action: AttemptPeerAction) -> bool {
    action == AttemptPeerAction::Malformed || action == AttemptPeerAction::Transport || action
        == AttemptPeerAction::Close
}

impl DnsRelayClient {
    /// Draws the consequences of a failed attempt on the connection at a place;
    /// gives whether its transport is to be closed.
    pub fn record_failure(
        &mut self,
        index: usize,
        address: SocketAddr,
        now: u64,
        action: AttemptPeerAction,
    ) -> (r: bool)
        requires
            old(self).wf(),
            index < old(self).connections@.len(),
        ensures
            final(self).wf(),
            r == closes(action),
            final(self).peers@ == blamed(old(self).peers@, address, now, action),
            has_rest(action) ==> rested(old(self).cooldowns, final(self).cooldowns, address, now),
            !has_rest(action) ==> final(self).cooldowns == old(self).cooldowns,
            final(self).connections@ == if closes(action) {
                swapped_out(old(self).connections@, index as int)
            } else {
                old(self).connections@
            },
            final(self).pending == old(self).pending,
            final(self).proof_peer == old(self).proof_peer,
            final(self).max_connections == old(self).max_connections,
            final(self).alternate_retries == old(self).alternate_retries,
    {
        match action {
            AttemptPeerAction::Malformed => {
                self.peers.record_malformed(address, now, DEFAULT_DNS_RELAY_MALFORMED_BAN_SECONDS);
                self.cooldowns.insert(address, rest_from(now));
                self.remove_connection(index);
                true
            },
            AttemptPeerAction::Transport => {
                self.peers.record_transient_failure(address);
                self.cooldowns.insert(address, rest_from(now));
                self.remove_connection(index);
                true
            },
            AttemptPeerAction::Close => {
                self.remove_connection(index);
                true
            },
            AttemptPeerAction::Backoff => {
                self.cooldowns.insert(address, rest_from(now));
                false
            },
            AttemptPeerAction::Keep => false,
        }
    }

    /// A peer answered.
    pub fn record_answer(&mut self, address: SocketAddr, now: u64)
        requires
            old(self).wf(),
        ensures
            final(self).wf(),
            final(self).peers@ == old(self).peers@.insert(
                address,
                peers::after_transport_success(
                    peers::known_or_fresh(old(self).peers@, address),
                    now,
                ),
            ),
            *final(self) == (DnsRelayClient { peers: final(self).peers, ..*old(self) }),
    {
        self.peers.record_transport_success(address, now);
    }

    /// A response that passed here failed the check of its signatures: the peer is
    /// treated as one that sent a malformed message. Only live connections are
    /// reported on; gives the place of the one whose transport is to be closed.
    pub fn report_dnssec_failure(&mut self, peer: SocketAddr, now: u64) -> (r: Option<usize>)
        requires
            old(self).wf(),
        ensures
            final(self).wf(),
            r is Some <==> is_connected(old(self).connections@, peer),
            match r {
                Some(i) => {
                    &&& i < old(self).connections@.len()
                    &&& old(self).connections@[i as int].address == peer
                    &&& final(self).connections@ == swapped_out(old(self).connections@, i as int)
                    &&& final(self).peers@ == blamed(
                        old(self).peers@,
                        peer,
                        now,
                        AttemptPeerAction::Malformed,
                    )
                    &&& rested(old(self).cooldowns, final(self).cooldowns, peer, now)
                    &&& final(self).pending == old(self).pending
                    &&& final(self).proof_peer == old(self).proof_peer
                    &&& final(self).max_connections == old(self).max_connections
                    &&& final(self).alternate_retries == old(self).alternate_retries
                },
                None => *final(self) == *old(self),
            },
    {
        let mut i: usize = 0;
        while i < self.connections.len()
            invariant
                i <= self.connections@.len(),
                self.wf(),
                *self == *old(self),
                forall|j: int| 0 <= j < i ==> (#[trigger] self.connections@[j]).address != peer,
            decreases self.connections@.len() - i,
        {
            if self.connections[i].address == peer {
                assert(is_connected(self.connections@, peer));
                let _closed = self.record_failure(i, peer, now, AttemptPeerAction::Malformed);
                return Some(i);
            }
            i += 1;
        }
        None
    }
}

// ---------------------------------------------------------------------
// Resolutions
// ---------------------------------------------------------------------

#[derive(Clone, Debug, PartialEq, Eq)]
pub struct DnsRelayExchange {
    pub response: Vec<u8>,
    pub peer: SocketAddr,
    pub retries: usize,
}

/// One query on its way through one peer after the other.
#[derive(Debug)]
pub struct Resolution {
    pub attempted: Vec<SocketAddr>,
    pub last_error: Option<DnsRelayClientError>,
    pub budget: usize,
    pub retry: usize,
}

/// The error that a resolution ends with.
pub open spec fn final_error(last: Option<DnsRelayClientError>) -> DnsRelayClientError {
    match last {
        Some(e) => e,
        None => DnsRelayClientError::NoCapablePeer,
    }
}

impl Resolution {
    /// No peer is asked twice, and only as many are asked as were tried.
    pub open spec fn wf(self) -> bool {
        &&& self.attempted@.no_duplicates()
        &&& self.budget <= MAX_DNS_RELAY_HANDSHAKE_ATTEMPTS_PER_RESOLUTION
    }

    pub fn new() -> (r: Self)
        ensures
            r.wf(),
            r.attempted@ == Seq::<SocketAddr>::empty(),
            r.last_error is None,
            r.budget == MAX_DNS_RELAY_HANDSHAKE_ATTEMPTS_PER_RESOLUTION,
            r.retry == 0,
    {
        Resolution {
            attempted: Vec::new(),
            last_error: None,
            budget: MAX_DNS_RELAY_HANDSHAKE_ATTEMPTS_PER_RESOLUTION,
            retry: 0,
        }
    }

    /// The next address to connect to; each costs a part of the budget.
    pub fn next_candidate(
        &mut self,
        round: &mut Replenishment,
        client: &DnsRelayClient,
        now: u64,
    ) -> (r: Option<SocketAddr>)
        requires
            old(self).wf(),
            old(round).tracks(*client),
        ensures
            final(self).wf(),
            final(round).tracks(*client),
            final(round).candidates == old(round).candidates,
            final(round).connected == old(round).connected,
            final(self).attempted == old(self).attempted,
            final(self).last_error == old(self).last_error,
            final(self).retry == old(self).retry,
            r is Some ==> final(self).budget == old(self).budget - 1,
            r is None ==> final(self).budget == old(self).budget,
            r matches Some(a) ==> !is_connected(client.connections@, a) && final(round).candidates@.take(final(round).position as int).contains(a),
            if client.connections@.len() >= client.max_connections || old(self).budget == 0 {
                r is None && final(round).position == old(round).position
            } else {
                let k = first_fit(
                    old(round).candidates@,
                    old(round).position as int,
                    old(round).connected@,
                    old(self).attempted@,
                    client.cooldowns,
                    now,
                );
                if k < old(round).candidates@.len() {
                    r == Some(old(round).candidates@[k]) && final(round).position == k + 1
                } else {
                    r is None && final(round).position == old(round).candidates@.len()
                }
            },
    {
        let r = round.next(client, &self.attempted, self.budget, now);
        if r.is_some() {
            self.budget = self.budget - 1;
        }
        r
    }

    /// The connection to ask, which then counts as asked. Where there is none, the
    /// resolution is over, and its error is taken.
    pub fn select(&mut self, client: &DnsRelayClient, now: u64) -> (r: Result<
        (usize, SocketAddr),
        DnsRelayClientError,
    >)
        requires
            old(self).wf(),
            client.wf(),
        ensures
            final(self).wf(),
            final(self).last_error == if r is Ok {
                old(self).last_error
            } else {
                None
            },
            final(self).budget == old(self).budget,
            final(self).retry == old(self).retry,
            exists|s: Seq<PeerState>| #[trigger]
                selection::is_ranking(
                    client.peers@,
                    PurposeView::Relay {
                        capabilities: live_capabilities(client.connections@, client.cooldowns),
                        proof_peer: client.proof_peer,
                    },
                    now,
                    s,
                ) && match first_allowed(
                    selection::chosen(s, client.connections@.len()),
                    old(self).attempted@,
                ) {
                    Some(a) => r matches Ok((i, b)) && b == a && i < client.connections@.len()
                        && client.connections@[i as int].address == a && final(self).attempted@
                        == old(self).attempted@.push(a),
                    None => r matches Err(e) && e == final_error(old(self).last_error) && final(self).attempted@ == old(self).attempted@,
                },
    {
        match client.select_connection(now, &self.attempted) {
            Some((index, address)) => {
                self.attempted.push(address);
                Ok((index, address))
            },
            None => Err(self.error()),
        }
    }

    /// Takes the error that the resolution ends with.
    pub fn error(&mut self) -> (r: DnsRelayClientError)
        ensures
            r == final_error(old(self).last_error),
            *final(self) == (Resolution { last_error: None, ..*old(self) }),
    {
        match self.last_error.take() {
            Some(e) => e,
            None => DnsRelayClientError::NoCapablePeer,
        }
    }

    /// Takes in a failed attempt; gives whether another peer is asked.
    pub fn record_failure(&mut self, failure: AttemptFailure, alternate_retries: usize) -> (r: bool)
        requires
            old(self).wf(),
        ensures
            final(self).wf(),
            final(self).attempted == old(self).attempted,
            final(self).budget == old(self).budget,
            final(self).last_error == Some(failure.error),
            r == (failure.retryable && old(self).retry < alternate_retries),
            final(self).retry == if r {
                old(self).retry + 1
            } else {
                old(self).retry as int
            },
    {
        self.last_error = Some(failure.error);
        if failure.retryable && self.retry < alternate_retries {
            self.retry = self.retry + 1;
            true
        } else {
            false
        }
    }

    pub fn answer(&self, response: Vec<u8>, peer: SocketAddr) -> (r: DnsRelayExchange)
        ensures
            r.response@ == response@,
            r.peer == peer,
            r.retries == self.retry,
    {
        DnsRelayExchange { response, peer, retries: self.retry }
    }
}

// ---------------------------------------------------------------------
// Laws
// ---------------------------------------------------------------------

/// After the banned peers were dropped, connections are left to exactly those
/// peers that are not banned.
pub proof fn only_banned_connections_are_dropped(
    m: Map<SocketAddr, PeerState>,
    c: Seq<LiveRelay>,
    now: u64,
    i: int,
)
    requires
        connections_differ(c),
        0 <= i <= c.len(),
        forall|j: int| 0 <= j < i ==> !is_unavailable(m, (#[trigger] c[j]).address, now),
    ensures
        connections_differ(without_banned(m, c, now, i).0),
        forall|x: LiveRelay| #[trigger]
            without_banned(m, c, now, i).0.contains(x) <==> c.contains(x) && !is_unavailable(
                m,
                x.address,
                now,
            ),
        without_banned(m, c, now, i).0.len() + without_banned(m, c, now, i).1.len() == c.len(),
    decreases c.len() - i,
{
    if i < c.len() {
        if is_unavailable(m, c[i].address, now) {
            let after = swapped_out(c, i);
            lemma_swapped_out(c, i);
            assert forall|j: int| 0 <= j < i implies !is_unavailable(
                m,
                (#[trigger] after[j]).address,
                now,
            ) by {
                assert(after[j] == c[j]);
            }
            only_banned_connections_are_dropped(m, after, now, i);
        } else {
            only_banned_connections_are_dropped(m, c, now, i + 1);
        }
    } else {
        assert forall|x: LiveRelay| #[trigger] c.contains(x) implies !is_unavailable(
            m,
            x.address,
            now,
        ) by {
            let j = choose|j: int| 0 <= j < c.len() && c[j] == x;
            assert(!is_unavailable(m, c[j].address, now));
        }
    }
}

/// A peer whose message was malformed is banned, has no connection left, and
/// rests.
pub proof fn malformed_peers_are_shut_out(
    m: Map<SocketAddr, PeerState>,
    c: Seq<LiveRelay>,
    index: int,
    now: u64,
)
    requires
        connections_differ(c),
        0 <= index < c.len(),
        peers::known_or_fresh(m, c[index].address).score >= 0,
        now < u64::MAX,
    ensures
        is_unavailable(
            blamed(m, c[index].address, now, AttemptPeerAction::Malformed),
            c[index].address,
            now,
        ),
        !is_connected(swapped_out(c, index), c[index].address),
        rest_end(now) > now,
{
    let after = swapped_out(c, index);
    lemma_swapped_out(c, index);
    if is_connected(after, c[index].address) {
        let j = choose|j: int|
            0 <= j < after.len() && (#[trigger] after[j]).address == c[index].address;
        assert(after.contains(after[j]));
        let k = choose|k: int| 0 <= k < c.len() && c[k] == after[j];
        if k < index {
            assert(c[k].address != c[index].address);
        } else if k > index {
            assert(c[index].address != c[k].address);
        }
    }
}

/// Only answers with the right identifier, from peers that have a request out,
/// are looked at, and other answers are held against the peer.
pub proof fn answers_are_correlated(
    request_id: u64,
    pending: bool,
    received: nat,
    p: PacketView,
    body: Seq<u8>,
)
    requires
        exchange_turn(request_id, pending, received, p).next == ExchangeNextView::Check(body),
    ensures
        pending,
        p is DnsRelay,
        p->DnsRelay_0.request_id == request_id,
        p->DnsRelay_0.status == DnsRelayStatus::Success,
        p->DnsRelay_0.response == body,
        exchange_turn(request_id, pending, received, p).send is None,
{
}

/// How many more peers a resolution asks after it has been through some failures:
/// none once one was final or as many were retried as may be.
pub open spec fn goes_on(failures: Seq<AttemptFailure>, alternate_retries: nat) -> bool {
    failures.len() <= alternate_retries && forall|i: int|
        0 <= i < failures.len() ==> (#[trigger] failures[i]).retryable
}

/// A query that a peer calls invalid is not tried on another.
pub proof fn invalid_queries_are_not_retried(
    failures: Seq<AttemptFailure>,
    alternate_retries: nat,
)
    ensures
        !goes_on(
            failures.push(status_failure(DnsRelayStatus::InvalidQuery)),
            alternate_retries,
        ),
        goes_on(failures, alternate_retries) ==> failures.len() <= alternate_retries,
{
    let f = status_failure(DnsRelayStatus::InvalidQuery);
    assert(failures.push(f)[failures.len() as int] == f);
}

/// Statuses never cost a peer its connection, its score or a ban.
pub proof fn statuses_are_not_held_against_peers(
    s: DnsRelayStatus,
    m: Map<SocketAddr, PeerState>,
    address: SocketAddr,
    now: u64,
)
    ensures
        !closes(status_failure(s).peer_action),
        blamed(m, address, now, status_failure(s).peer_action) == m,
        blamed(m, address, now, read_failure(P2pError::InvalidDnsRelayStatus).peer_action) == m,
        !has_rest(read_failure(P2pError::InvalidDnsRelayStatus).peer_action),
        closes(read_failure(P2pError::InvalidDnsRelayStatus).peer_action),
{
}

/// A handshake takes a bounded number of packets.
pub proof fn handshakes_are_bounded(turn: TurnView)
    ensures
        bounded_turn(turn, MAX_PACKETS_PER_HANDSHAKE as nat, MAX_PACKETS_PER_HANDSHAKE as nat).next
            != NextView::Receive,
        after_advisory(MAX_ADVISORY_PACKETS_PER_EXCHANGE as nat) != ExchangeNextView::Receive,
{
}

/// What a peer answers other than success is no fault of it; only a query that is no good
/// is not tried elsewhere, and a refusal needs no rest.
pub proof fn statuses_have_their_consequences(s: DnsRelayStatus)
    ensures
        ({
            let f = status_failure(s);
            &&& f.retryable <==> !(s is InvalidQuery)
            &&& f.peer_action == if s is InvalidQuery || s is Refused {
                AttemptPeerAction::Keep
            } else {
                AttemptPeerAction::Backoff
            }
            &&& f.error == DnsRelayClientError::Status(s)
        }),
{
}

/// A transport that fails and a peer that is malformed are tried elsewhere; a status that is
/// not known only closes the connection.
pub proof fn failures_have_their_consequences(e: DnsRelayClientError, cause: P2pError)
    ensures
        transport_failure(e) == (AttemptFailure {
            retryable: true,
            peer_action: AttemptPeerAction::Transport,
            error: e,
        }),
        malformed_failure(e) == (AttemptFailure {
            retryable: true,
            peer_action: AttemptPeerAction::Malformed,
            error: e,
        }),
        read_failure(cause) == (AttemptFailure {
            retryable: true,
            peer_action: if cause is InvalidDnsRelayStatus {
                AttemptPeerAction::Close
            } else {
                AttemptPeerAction::Transport
            },
            error: DnsRelayClientError::Transport(cause),
        }),
{
}

/// A peer rests for thirty seconds after a failure of its own and after asking for time; its
/// connection is closed where it failed. Only what is malformed is held against it, for ten
/// minutes, and what failed in transport is counted.
pub proof fn failed_peers_rest(
    m: Map<SocketAddr, PeerState>,
    address: SocketAddr,
    now: u64,
    action: AttemptPeerAction,
)
    ensures
        has_rest(action) <==> !(action is Keep) && !(action is Close),
        closes(action) <==> !(action is Keep) && !(action is Backoff),
        now + 30 <= u64::MAX ==> rest_end(now) == now + 30,
        now + 30 > u64::MAX ==> rest_end(now) == u64::MAX,
        ({
            let p = peers::known_or_fresh(m, address);
            let after = blamed(m, address, now, action);
            &&& action is Malformed ==> after == m.insert(
                address,
                peers::penalized(p, 100, Some(peers::ban_end(now, 600))),
            )
            &&& action is Transport ==> after == m.insert(
                address,
                peers::after_transient_failure(p),
            )
            &&& !(action is Malformed) && !(action is Transport) ==> after == m
        }),
{
}

/// An answer to this request is checked where it is awaited and a success; any other status
/// fails as such, and an answer that nobody waits for is malformed. A ping is answered, a
/// second introduction is malformed, and all else is passed over, up to thirty-two packets.
pub proof fn exchanges_take_their_turns(request_id: u64, pending: bool, received: nat, p: PacketView)
    ensures
        ({
            let turn = exchange_turn(request_id, pending, received, p);
            let passed = if received >= 32 {
                ExchangeNextView::Fail(
                    AttemptFailure {
                        retryable: true,
                        peer_action: AttemptPeerAction::Transport,
                        error: DnsRelayClientError::AdvisoryPacketLimit,
                    },
                )
            } else {
                ExchangeNextView::Receive
            };
            match p {
                PacketView::DnsRelay(a) => turn.send is None && turn.next == (if a.request_id
                    == request_id && pending {
                    if a.status is Success {
                        ExchangeNextView::Check(a.response)
                    } else {
                        ExchangeNextView::Fail(status_failure(a.status))
                    }
                } else {
                    ExchangeNextView::Fail(
                        malformed_failure(DnsRelayClientError::UnsolicitedResponse(a.request_id)),
                    )
                }),
                PacketView::Ping(nonce) => turn.send == Some(PacketView::Pong(nonce)) && turn.next
                    == passed,
                PacketView::Version(_) => turn.send is None && turn.next == ExchangeNextView::Fail(
                    malformed_failure(DnsRelayClientError::UnexpectedPacket),
                ),
                _ => turn.send is None && turn.next == passed,
            }
        }),
{
}

/// A handshake goes on as its session says, but for no more packets than the limit.
pub proof fn handshakes_go_on_within_the_limit(turn: TurnView, received: nat, limit: nat)
    ensures
        ({
            let r = bounded_turn(turn, received, limit);
            &&& received < limit || turn.next != NextView::Receive ==> r == turn
            &&& received >= limit && turn.next == NextView::Receive ==> r.next == NextView::Fail(
                P2pError::HandshakePacketLimit,
            )
        }),
{
}

/// A requester offers no service, for itself or for the peer it is with.
pub proof fn requesters_offer_nothing()
    ensures
        requester_version().services == 0,
        requester_version().remote.services == 0,
        requester_version().version == 3,
        requester_version().no_relay,
        requester_version().agent == "/hns-dane-browser:0.1.0/"@,
{
}

/// A peer may be connected to where it is not connected, is not to be left out, and has
/// rested.
pub proof fn rested_peers_may_be_connected_to(
    address: SocketAddr,
    connected: Seq<SocketAddr>,
    exclude: Seq<SocketAddr>,
    cooldowns: Cooldowns,
    now: u64,
)
    ensures
        may_connect(address, connected, exclude, cooldowns, now) <==> !connected.contains(address)
            && !exclude.contains(address) && (cooldowns.until(address) matches Some(until) ==> until
            <= now),
{
}

/// The first address that is not to be left out is taken.
pub proof fn the_first_allowed_is_taken(c: Seq<SocketAddr>, exclude: Seq<SocketAddr>)
    ensures
        match first_allowed(c, exclude) {
            Some(a) => exists|i: int|
                0 <= i < c.len() && #[trigger] c[i] == a && !exclude.contains(a) && forall|j: int|
                    0 <= j < i ==> exclude.contains(#[trigger] c[j]),
            None => forall|i: int| 0 <= i < c.len() ==> exclude.contains(#[trigger] c[i]),
        },
    decreases c.len(),
{
    if c.len() > 0 && exclude.contains(c[0]) {
        let rest = c.drop_first();
        the_first_allowed_is_taken(rest, exclude);
        match first_allowed(rest, exclude) {
            Some(a) => {
                let i = choose|i: int|
                    0 <= i < rest.len() && #[trigger] rest[i] == a && !exclude.contains(a)
                        && forall|j: int| 0 <= j < i ==> exclude.contains(#[trigger] rest[j]);
                assert(c[i + 1] == a);
                assert forall|j: int| 0 <= j < i + 1 implies exclude.contains(#[trigger] c[j]) by {
                    if j > 0 {
                        assert(rest[j - 1] == c[j]);
                    }
                }
            },
            None => {
                assert forall|j: int| 0 <= j < c.len() implies exclude.contains(#[trigger] c[j]) by {
                    if j > 0 {
                        assert(rest[j - 1] == c[j]);
                    }
                }
            },
        }
    } else if c.len() > 0 {
        assert(c[0] == first_allowed(c, exclude)->Some_0);
    }
}

/// The peer that gives proofs comes last among the candidates, and the others keep their
/// order.
pub proof fn the_proof_peer_comes_last(c: Seq<SocketAddr>, a: SocketAddr)
    requires
        c.no_duplicates(),
    ensures
        moved_last(c, None) == c,
        !c.contains(a) ==> moved_last(c, Some(a)) == c,
        c.contains(a) ==> moved_last(c, Some(a)) == c.filter(|x: SocketAddr| x != a).push(a),
{
    text::lemma_find_bounds(c, a);
    if c.contains(a) {
        let k = text::find(c, a);
        lemma_filter_out(c, a, k);
    }
}

proof fn lemma_filter_out(c: Seq<SocketAddr>, a: SocketAddr, k: int)
    requires
        0 <= k < c.len(),
        c[k] == a,
        forall|j: int| 0 <= j < c.len() && j != k ==> c[j] != a,
    ensures
        c.filter(|x: SocketAddr| x != a) == c.remove(k),
    decreases c.len(),
{
    reveal(Seq::filter);
    let other = |x: SocketAddr| x != a;
    let front = c.drop_last();
    if k == c.len() - 1 {
        lemma_filter_all(front, a);
        assert(c.remove(k) =~= front);
        assert(!other(c.last()));
    } else {
        assert forall|j: int| 0 <= j < front.len() && j != k implies front[j] != a by {
            assert(front[j] == c[j]);
        }
        lemma_filter_out(front, a, k);
        assert(other(c.last()));
        assert(c.remove(k) =~= front.remove(k).push(c.last()));
    }
}

proof fn lemma_filter_all(c: Seq<SocketAddr>, a: SocketAddr)
    requires
        forall|j: int| 0 <= j < c.len() ==> c[j] != a,
    ensures
        c.filter(|x: SocketAddr| x != a) == c,
    decreases c.len(),
{
    reveal(Seq::filter);
    let other = |x: SocketAddr| x != a;
    if c.len() > 0 {
        let front = c.drop_last();
        assert forall|j: int| 0 <= j < front.len() implies front[j] != a by {
            assert(front[j] == c[j]);
        }
        lemma_filter_all(front, a);
        assert(other(c.last()));
        assert(front.push(c.last()) =~= c);
    } else {
        assert(c.filter(other) =~= c);
    }
}

/// A request gets the first number that was drawn, is not zero, and is not in use; it gets
/// none where no draw is left, or where there is nothing to draw from.
pub proof fn fresh_numbers_are_picked(
    used: Seq<Option<u64>>,
    draw: Option<u64>,
    rest: Seq<Option<u64>>,
    pending: Seq<u64>,
)
    requires
        forall|j: int|
            0 <= j < used.len() ==> (#[trigger] used[j]) is Some && (used[j]->Some_0 == 0
                || pending.contains(used[j]->Some_0)),
    ensures
        picked(used, pending) == Err::<u64, DnsRelayClientError>(
            DnsRelayClientError::RandomnessUnavailable,
        ),
        draw is None ==> picked(used.push(draw) + rest, pending) == Err::<u64, DnsRelayClientError>(
            DnsRelayClientError::RandomnessUnavailable,
        ),
        draw matches Some(id) ==> id != 0 && !pending.contains(id) ==> picked(
            used.push(draw) + rest,
            pending,
        ) == Ok::<u64, DnsRelayClientError>(id),
    decreases used.len(),
{
    let all = used.push(draw) + rest;
    if used.len() > 0 {
        let more = used.drop_first();
        assert forall|j: int| 0 <= j < more.len() implies (#[trigger] more[j]) is Some && (
        more[j]->Some_0 == 0 || pending.contains(more[j]->Some_0)) by {
            assert(more[j] == used[j + 1]);
        }
        fresh_numbers_are_picked(more, draw, rest, pending);
        assert(all[0] == used[0]);
        assert(used[0] is Some);
        assert(all.drop_first() =~= more.push(draw) + rest);
    } else {
        assert(all[0] == draw);
    }
}

/// The next candidate is the first from here on that may be connected to.
pub proof fn the_first_fit_is_next(
    candidates: Seq<SocketAddr>,
    i: int,
    connected: Seq<SocketAddr>,
    exclude: Seq<SocketAddr>,
    cooldowns: Cooldowns,
    now: u64,
)
    requires
        0 <= i <= candidates.len(),
    ensures
        ({
            let k = first_fit(candidates, i, connected, exclude, cooldowns, now);
            &&& i <= k <= candidates.len()
            &&& k < candidates.len() ==> may_connect(
                candidates[k],
                connected,
                exclude,
                cooldowns,
                now,
            )
            &&& forall|j: int|
                i <= j < k ==> !may_connect(
                    #[trigger] candidates[j],
                    connected,
                    exclude,
                    cooldowns,
                    now,
                )
        }),
    decreases candidates.len() - i,
{
    if i < candidates.len() && !may_connect(candidates[i], connected, exclude, cooldowns, now) {
        the_first_fit_is_next(candidates, i + 1, connected, exclude, cooldowns, now);
    }
}

/// What failed last is what a resolution fails with; where nothing was tried, no peer could.
pub proof fn the_last_failure_is_told(e: DnsRelayClientError)
    ensures
        final_error(Some(e)) == e,
        final_error(None) == DnsRelayClientError::NoCapablePeer,
{
}

/// The connections are offered as peers that are known in full, each with its services and
/// its rest.
pub proof fn live_peers_are_offered(c: Seq<LiveRelay>, cooldowns: Cooldowns, i: int)
    requires
        0 <= i < c.len(),
    ensures
        live_capabilities(c, cooldowns).len() == c.len(),
        live_capabilities(c, cooldowns)[i] == (DnsRelayPeerCapability {
            address: c[i].address,
            services: c[i].services,
            fully_handshaken: true,
            cooldown_until: cooldowns.until(c[i].address),
        }),
{
}

/// An exchange may take the time that is left, and none where none is left.
pub proof fn deadlines_are_kept(
    remaining: Option<u128>,
    r: Result<u128, P2pError>,
    kind: IoKind,
    reached: bool,
    e: P2pError,
)
    requires
        call_ensures(remaining_until, (remaining,), r),
        call_ensures(deadline_io_error, (kind, reached), e),
    ensures
        r is Ok <==> remaining is Some && remaining->Some_0 > 0,
        r is Ok ==> r->Ok_0 == remaining->Some_0,
        r is Err ==> r->Err_0 == P2pError::Io(IoKind::TimedOut),
        e == P2pError::Io(IoKind::TimedOut) <==> reached || kind is TimedOut || kind is WouldBlock,
        !reached && !(kind is WouldBlock) ==> e == P2pError::Io(kind),
{
}

/// A number that is drawn is taken where it is not zero and not in use; else another is
/// drawn, as long as there is something to draw from.
pub proof fn draws_are_judged(draw: Option<u64>, pending: &[u64], r: Draw)
    requires
        call_ensures(judge_draw, (draw, pending), r),
    ensures
        r is Unavailable <==> draw is None,
        r is Accept <==> draw is Some && draw->Some_0 != 0 && !pending@.contains(draw->Some_0),
        r matches Draw::Accept(id) ==> draw == Some(id),
{
}

/// A resolution waits three seconds, keeps two connections, asks one peer more where the
/// first fails, and tries four handshakes; a number is drawn sixteen times.
pub proof fn resolutions_are_bounded()
    ensures
        DEFAULT_DNS_RELAY_TIMEOUT_SECONDS == 3,
        DEFAULT_MAX_DNS_RELAY_CONNECTIONS == 2,
        DEFAULT_DNS_RELAY_ALTERNATE_RETRIES == 1,
        MAX_DNS_RELAY_HANDSHAKE_ATTEMPTS_PER_RESOLUTION == 4,
        MAX_REQUEST_ID_DRAWS == 16,
        MAX_PACKETS_PER_HANDSHAKE == 32,
{
}

/// A connection that is taken out leaves all others, and the last takes its place.
pub proof fn the_last_takes_the_place(c: Seq<LiveRelay>, i: int)
    requires
        0 <= i < c.len(),
    ensures
        swapped_out(c, i).len() == c.len() - 1,
        forall|j: int|
            0 <= j < c.len() - 1 ==> #[trigger] swapped_out(c, i)[j] == if j == i {
                c.last()
            } else {
                c[j]
            },
{
}

/// A peer rests until the time that is noted for it, and where none is noted it does not.
pub proof fn rests_are_noted(entries: Seq<Cooldown>, address: SocketAddr, until: u64)
    ensures
        rests_until(entries, address) is Some <==> exists|i: int|
            0 <= i < entries.len() && (#[trigger] entries[i]).address == address,
        rests_until(entries, address) is None ==> rests_until(
            entries.push(Cooldown { address, until }),
            address,
        ) == Some(until),
    decreases entries.len(),
{
    let more = entries.push(Cooldown { address, until });
    if entries.len() > 0 {
        let rest = entries.drop_first();
        rests_are_noted(rest, address, until);
        assert(more.drop_first() =~= rest.push(Cooldown { address, until }));
        assert(more[0] == entries[0]);
        if entries[0].address != address {
            if exists|i: int| 0 <= i < entries.len() && (#[trigger] entries[i]).address == address {
                let i = choose|i: int|
                    0 <= i < entries.len() && (#[trigger] entries[i]).address == address;
                assert(rest[i - 1].address == address);
            }
            if exists|i: int| 0 <= i < rest.len() && (#[trigger] rest[i]).address == address {
                let i = choose|i: int|
                    0 <= i < rest.len() && (#[trigger] rest[i]).address == address;
                assert(entries[i + 1].address == address);
            }
        } else {
            assert(entries[0].address == address);
        }
    } else {
        assert(more[0].address == address);
    }
}

/// A peer that rests does so from now on; the rest of the others is as it was.
pub proof fn one_peer_rests(before: Cooldowns, after: Cooldowns, address: SocketAddr, now: u64)
    requires
        rested(before, after, address, now),
    ensures
        now <= u64::MAX - 30 ==> after.until(address) == Some((now + 30) as u64),
        forall|a: SocketAddr| a != address ==> #[trigger] after.until(a) == before.until(a),
{
}

/// Each failure is told in its own words.
pub proof fn failures_of_resolutions_have_their_words(e: DnsRelayClientError)
    ensures
        relay_client_error_text(e) == (match e {
            DnsRelayClientError::InvalidQuery(cause) => "invalid DNS relay query: "@
                + relay::validation_error_text(cause),
            DnsRelayClientError::NoCapablePeer =>
                "no live peer advertised the experimental DNS-relay service"@,
            DnsRelayClientError::RandomnessUnavailable => "request-id randomness is unavailable"@,
            DnsRelayClientError::Transport(cause) => "DNS-relay peer transport failed: "@
                + wire::p2p_error_text(cause),
            DnsRelayClientError::Status(status) => "DNS-relay peer returned status "@
                + relay::status_name(status),
            DnsRelayClientError::InvalidResponse(cause) => "DNS-relay response failed validation: "@
                + relay::validation_error_text(cause),
            DnsRelayClientError::UnsolicitedResponse(id) =>
                "DNS-relay peer returned unsolicited request id "@ + text::decimal(id as nat),
            DnsRelayClientError::UnexpectedPacket => "DNS-relay peer sent an unexpected packet"@,
            DnsRelayClientError::AdvisoryPacketLimit =>
                "DNS-relay peer sent too many unrelated packets"@,
        }),
{
}

} // verus!
