//! Header synchronisation: the session with one peer.

use crate::addr::SocketAddr;
use crate::frame;
use crate::frame::{FrameDecoder, NetworkParameters};
use crate::packet;
use crate::packet::{
    BlockHeader, Digest, LocatorPacket, Packet, PacketView, ProofPacket, ProofRequest, ProofView,
    VersionPacket, VersionView, MAX_INV, SERVICE_NETWORK,
};
use crate::relay;
use crate::wire::{DisconnectReason, P2pError};
use vstd::prelude::*;

verus! {

#[derive(Clone, Copy, Debug, PartialEq, Eq, Structural)]
pub enum HeaderSyncState {
    AwaitingVersion,
    AwaitingVerack,
    Ready,
    HeadersRequested,
    ProofRequested,
    Closed,
}

#[derive(Debug, PartialEq, Eq)]
pub enum HeaderSyncAction {
    Send(Packet),
    Ready,
    Headers(Vec<BlockHeader>),
    Proof(ProofPacket),
    Disconnect(DisconnectReason),
}

#[verifier::ext_equal]
pub enum ActionView {
    Send(PacketView),
    Ready,
    Headers(Seq<Seq<u8>>),
    Proof(ProofView),
    Disconnect(DisconnectReason),
}

impl View for HeaderSyncAction {
    type V = ActionView;

    open spec fn view(&self) -> ActionView {
        match *self {
            HeaderSyncAction::Send(p) => ActionView::Send(p@),
            HeaderSyncAction::Ready => ActionView::Ready,
            HeaderSyncAction::Headers(h) => ActionView::Headers(packet::header_views(h@)),
            HeaderSyncAction::Proof(p) => ActionView::Proof(p@),
            HeaderSyncAction::Disconnect(r) => ActionView::Disconnect(r),
        }
    }
}

pub open spec fn action_views(actions: Seq<HeaderSyncAction>) -> Seq<ActionView> {
    actions.map_values(|a: HeaderSyncAction| a@)
}

/// A session with one peer.
#[derive(Debug, PartialEq, Eq)]
pub struct HeaderSyncSession {
    state: HeaderSyncState,
    local_version: VersionPacket,
    remote_version: Option<VersionPacket>,
    ack_received: bool,
}

#[verifier::ext_equal]
pub struct SessionView {
    pub state: HeaderSyncState,
    pub local: VersionView,
    pub remote: Option<VersionView>,
    pub acknowledged: bool,
}

impl View for HeaderSyncSession {
    type V = SessionView;

    closed spec fn view(&self) -> SessionView {
        SessionView {
            state: self.state,
            local: self.local_version@,
            remote: match self.remote_version {
                Some(v) => Some(v@),
                None => None,
            },
            acknowledged: self.ack_received,
        }
    }
}

/// Whether a peer can be used at all.
pub open spec fn is_useful(v: VersionView) -> bool {
    v.version >= 1 && v.services & SERVICE_NETWORK != 0
}

/// What a session becomes and does when a packet comes.
pub open spec fn answered(s: SessionView, p: PacketView) -> (SessionView, Seq<ActionView>) {
    if s.state == HeaderSyncState::Closed {
        (s, seq![ActionView::Disconnect(DisconnectReason::Closed)])
    } else {
        match p {
            PacketView::Version(v) => if s.state != HeaderSyncState::AwaitingVersion {
                (s, seq![ActionView::Disconnect(DisconnectReason::UnexpectedPacket)])
            } else if !is_useful(v) {
                (
                    SessionView { state: HeaderSyncState::Closed, ..s },
                    seq![ActionView::Disconnect(DisconnectReason::MissingService)],
                )
            } else if s.acknowledged {
                (
                    SessionView { state: HeaderSyncState::Ready, remote: Some(v), ..s },
                    seq![ActionView::Send(PacketView::Verack), ActionView::Ready],
                )
            } else {
                (
                    SessionView { state: HeaderSyncState::AwaitingVerack, remote: Some(v), ..s },
                    seq![ActionView::Send(PacketView::Verack)],
                )
            },
            PacketView::Verack => if s.state == HeaderSyncState::AwaitingVersion {
                (SessionView { acknowledged: true, ..s }, Seq::empty())
            } else if s.state == HeaderSyncState::AwaitingVerack {
                (
                    SessionView { state: HeaderSyncState::Ready, acknowledged: true, ..s },
                    seq![ActionView::Ready],
                )
            } else {
                (s, seq![ActionView::Disconnect(DisconnectReason::UnexpectedPacket)])
            },
            PacketView::Headers(items) => if s.state == HeaderSyncState::HeadersRequested {
                (
                    SessionView { state: HeaderSyncState::Ready, ..s },
                    seq![ActionView::Headers(items)],
                )
            } else {
                (s, seq![ActionView::Disconnect(DisconnectReason::UnexpectedPacket)])
            },
            PacketView::Proof(proof) => if s.state == HeaderSyncState::ProofRequested {
                (
                    SessionView { state: HeaderSyncState::Ready, ..s },
                    seq![ActionView::Proof(proof)],
                )
            } else {
                (s, seq![ActionView::Disconnect(DisconnectReason::UnexpectedPacket)])
            },
            PacketView::GetAddr
            | PacketView::Addr(_)
            | PacketView::SendHeaders
            | PacketView::Unknown { .. }
            | PacketView::Pong(_) => (s, Seq::empty()),
            PacketView::Ping(nonce) => (s, seq![ActionView::Send(PacketView::Pong(nonce))]),
            _ => (s, seq![ActionView::Disconnect(DisconnectReason::UnexpectedPacket)]),
        }
    }
}

/// What a session becomes and does when headers are asked for.
pub open spec fn headers_requested(
    s: SessionView,
    locator: Seq<Seq<u8>>,
    stop: Seq<u8>,
) -> (SessionView, Result<ActionView, P2pError>) {
    if s.state != HeaderSyncState::Ready {
        (s, Ok(ActionView::Disconnect(DisconnectReason::HeadersBeforeReady)))
    } else if locator.len() > MAX_INV {
        (s, Err(P2pError::CountLimit))
    } else {
        (
            SessionView { state: HeaderSyncState::HeadersRequested, ..s },
            Ok(ActionView::Send(PacketView::GetHeaders { locator, stop })),
        )
    }
}

/// What a session becomes and does when a proof is asked for.
pub open spec fn proof_requested(s: SessionView, root: Seq<u8>, key: Seq<u8>) -> (
    SessionView,
    ActionView,
) {
    if s.state != HeaderSyncState::Ready {
        (s, ActionView::Disconnect(DisconnectReason::ProofBeforeReady))
    } else {
        (
            SessionView { state: HeaderSyncState::ProofRequested, ..s },
            ActionView::Send(PacketView::GetProof { root, key }),
        )
    }
}

fn one(a: HeaderSyncAction) -> (r: Vec<HeaderSyncAction>)
    ensures
        action_views(r@) == seq![a@],
{
    let mut v: Vec<HeaderSyncAction> = Vec::new();
    v.push(a);
    assert(action_views(v@) =~= seq![a@]);
    v
}

fn none() -> (r: Vec<HeaderSyncAction>)
    ensures
        action_views(r@) == Seq::<ActionView>::empty(),
{
    let v: Vec<HeaderSyncAction> = Vec::new();
    assert(action_views(v@) =~= Seq::<ActionView>::empty());
    v
}

impl HeaderSyncSession {
    pub fn new(local_version: VersionPacket) -> (r: Self)
        ensures
            r@ == (SessionView {
                state: HeaderSyncState::AwaitingVersion,
                local: local_version@,
                remote: None,
                acknowledged: false,
            }),
    {
        HeaderSyncSession {
            state: HeaderSyncState::AwaitingVersion,
            local_version,
            remote_version: None,
            ack_received: false,
        }
    }

    /// What opens the session.
    pub fn start(&self) -> (r: HeaderSyncAction)
        ensures
            r@ == ActionView::Send(PacketView::Version(self@.local)),
    {
        HeaderSyncAction::Send(Packet::Version(self.local_version.copy()))
    }

    pub fn state(&self) -> (r: HeaderSyncState)
        ensures
            r == self@.state,
    {
        self.state
    }

    pub fn remote_version(&self) -> (r: Option<&VersionPacket>)
        ensures
            match r {
                Some(v) => self@.remote == Some(v@),
                None => self@.remote is None,
            },
    {
        match &self.remote_version {
            Some(v) => Some(v),
            None => None,
        }
    }

    pub fn on_packet(&mut self, packet: Packet) -> (r: Vec<HeaderSyncAction>)
        ensures
            (final(self)@, action_views(r@)) == answered(old(self)@, packet@),
    {
        if self.state == HeaderSyncState::Closed {
            return one(HeaderSyncAction::Disconnect(DisconnectReason::Closed));
        }
        match packet {
            Packet::Version(version) => {
                if self.state != HeaderSyncState::AwaitingVersion {
                    return one(HeaderSyncAction::Disconnect(DisconnectReason::UnexpectedPacket));
                }
                if version.version < 1 || version.services & SERVICE_NETWORK == 0 {
                    self.state = HeaderSyncState::Closed;
                    return one(HeaderSyncAction::Disconnect(DisconnectReason::MissingService));
                }
                self.remote_version = Some(version);
                if self.ack_received {
                    self.state = HeaderSyncState::Ready;
                    let mut v = one(HeaderSyncAction::Send(Packet::Verack));
                    v.push(HeaderSyncAction::Ready);
                    assert(v@.drop_last().map_values(|a: HeaderSyncAction| a@) == seq![
                        ActionView::Send(PacketView::Verack),
                    ]);
                    assert(v@[0]@ == v@.drop_last().map_values(|a: HeaderSyncAction| a@)[0]);
                    assert(action_views(v@) =~= seq![
                        ActionView::Send(PacketView::Verack),
                        ActionView::Ready,
                    ]);
                    v
                } else {
                    self.state = HeaderSyncState::AwaitingVerack;
                    one(HeaderSyncAction::Send(Packet::Verack))
                }
            },
            Packet::Verack => {
                if self.state == HeaderSyncState::AwaitingVersion {
                    self.ack_received = true;
                    none()
                } else if self.state == HeaderSyncState::AwaitingVerack {
                    self.ack_received = true;
                    self.state = HeaderSyncState::Ready;
                    one(HeaderSyncAction::Ready)
                } else {
                    one(HeaderSyncAction::Disconnect(DisconnectReason::UnexpectedPacket))
                }
            },
            Packet::Headers(headers) => {
                if self.state == HeaderSyncState::HeadersRequested {
                    self.state = HeaderSyncState::Ready;
                    one(HeaderSyncAction::Headers(headers.items))
                } else {
                    one(HeaderSyncAction::Disconnect(DisconnectReason::UnexpectedPacket))
                }
            },
            Packet::Proof(proof) => {
                if self.state == HeaderSyncState::ProofRequested {
                    self.state = HeaderSyncState::Ready;
                    one(HeaderSyncAction::Proof(proof))
                } else {
                    one(HeaderSyncAction::Disconnect(DisconnectReason::UnexpectedPacket))
                }
            },
            Packet::GetAddr
            | Packet::Addr(_)
            | Packet::SendHeaders
            | Packet::Unknown { .. }
            | Packet::Pong(_) => none(),
            Packet::Ping(nonce) => one(HeaderSyncAction::Send(Packet::Pong(nonce))),
            Packet::GetHeaders(_)
            | Packet::GetProof(_)
            | Packet::GetDnsRelay(_)
            | Packet::DnsRelay(_) => one(
                HeaderSyncAction::Disconnect(DisconnectReason::UnexpectedPacket),
            ),
        }
    }

    pub fn request_headers(&mut self, locator: Vec<Digest>, stop: Digest) -> (r: Result<
        HeaderSyncAction,
        P2pError,
    >)
        ensures
            final(self)@ == headers_requested(
                old(self)@,
                packet::hash_views(locator@),
                stop@,
            ).0,
            match (r, headers_requested(old(self)@, packet::hash_views(locator@), stop@).1) {
                (Ok(a), Ok(v)) => a@ == v,
                (Err(e), Err(f)) => e == f,
                _ => false,
            },
    {
        if self.state != HeaderSyncState::Ready {
            return Ok(HeaderSyncAction::Disconnect(DisconnectReason::HeadersBeforeReady));
        }
        if locator.len() > MAX_INV {
            return Err(P2pError::CountLimit);
        }
        self.state = HeaderSyncState::HeadersRequested;
        Ok(HeaderSyncAction::Send(Packet::GetHeaders(LocatorPacket { locator, stop })))
    }

    pub fn request_proof(&mut self, root: Digest, key: Digest) -> (r: HeaderSyncAction)
        ensures
            (final(self)@, r@) == proof_requested(old(self)@, root@, key@),
    {
        if self.state != HeaderSyncState::Ready {
            return HeaderSyncAction::Disconnect(DisconnectReason::ProofBeforeReady);
        }
        self.state = HeaderSyncState::ProofRequested;
        HeaderSyncAction::Send(Packet::GetProof(ProofRequest { root, key }))
    }
}

// ---------------------------------------------------------------------
// Laws of sessions
// ---------------------------------------------------------------------

/// A session past its handshake knows the peer's version, that version can be
/// used, and the peer has acknowledged ours.
pub open spec fn is_consistent(s: SessionView) -> bool {
    &&& s.remote matches Some(v) ==> is_useful(v)
    &&& match s.state {
        HeaderSyncState::AwaitingVersion => s.remote is None,
        HeaderSyncState::AwaitingVerack => s.remote is Some && !s.acknowledged,
        HeaderSyncState::Ready
        | HeaderSyncState::HeadersRequested
        | HeaderSyncState::ProofRequested => s.remote is Some && s.acknowledged,
        HeaderSyncState::Closed => true,
    }
}

/// Sessions are consistent from the start, and stay so whatever comes and
/// whatever is asked for.
pub proof fn sessions_stay_consistent(
    s: SessionView,
    p: PacketView,
    locator: Seq<Seq<u8>>,
    stop: Seq<u8>,
    root: Seq<u8>,
    key: Seq<u8>,
)
    requires
        is_consistent(s),
    ensures
        is_consistent(answered(s, p).0),
        is_consistent(headers_requested(s, locator, stop).0),
        is_consistent(proof_requested(s, root, key).0),
        answered(s, p).0.local == s.local,
{
}

/// A session is ready exactly once its handshake has run, and only then says so.
pub proof fn readiness_is_announced(s: SessionView, p: PacketView)
    requires
        is_consistent(s),
    ensures
        answered(s, p).1.contains(ActionView::Ready) <==> {
            &&& s.state == HeaderSyncState::AwaitingVersion || s.state
                == HeaderSyncState::AwaitingVerack
            &&& answered(s, p).0.state == HeaderSyncState::Ready
        },
{
    let (after, actions) = answered(s, p);
    if s.state == HeaderSyncState::AwaitingVersion && after.state == HeaderSyncState::Ready {
        assert(actions[1] == ActionView::Ready);
    } else if s.state == HeaderSyncState::AwaitingVerack && after.state == HeaderSyncState::Ready {
        assert(actions[0] == ActionView::Ready);
    }
}

/// A peer's version and its acknowledgement may come in either order: the
/// session ends up the same, and acknowledges once.
pub proof fn handshakes_run_in_either_order(s: SessionView, v: VersionView)
    requires
        s.state == HeaderSyncState::AwaitingVersion,
        !s.acknowledged,
        is_useful(v),
    ensures
        ({
            let version = PacketView::Version(v);
            let (s1, a1) = answered(s, version);
            let (s2, a2) = answered(s1, PacketView::Verack);
            let (t1, b1) = answered(s, PacketView::Verack);
            let (t2, b2) = answered(t1, version);
            &&& s2 == t2
            &&& s2.state == HeaderSyncState::Ready
            &&& s2.remote == Some(v)
            &&& a1 + a2 == b1 + b2
            &&& a1 + a2 == seq![ActionView::Send(PacketView::Verack), ActionView::Ready]
        }),
{
    let version = PacketView::Version(v);
    let (s1, a1) = answered(s, version);
    let (s2, a2) = answered(s1, PacketView::Verack);
    let (t1, b1) = answered(s, PacketView::Verack);
    let (t2, b2) = answered(t1, version);
    assert(a1 + a2 =~= seq![ActionView::Send(PacketView::Verack), ActionView::Ready]);
    assert(b1 + b2 =~= seq![ActionView::Send(PacketView::Verack), ActionView::Ready]);
}

/// Headers and proofs are accepted only where they were asked for, and once.
pub proof fn only_what_was_asked_for_is_accepted(s: SessionView, p: PacketView)
    ensures
        (exists|h: Seq<Seq<u8>>| answered(s, p).1.contains(ActionView::Headers(h))) ==> s.state
            == HeaderSyncState::HeadersRequested && answered(s, p).0.state
            == HeaderSyncState::Ready,
        (exists|q: ProofView| answered(s, p).1.contains(ActionView::Proof(q))) ==> s.state
            == HeaderSyncState::ProofRequested && answered(s, p).0.state == HeaderSyncState::Ready,
{
}

/// A closed session stays closed and sends nothing.
pub proof fn closed_sessions_stay_closed(s: SessionView, p: PacketView)
    requires
        s.state == HeaderSyncState::Closed,
    ensures
        answered(s, p).0 == s,
        answered(s, p).1 == seq![ActionView::Disconnect(DisconnectReason::Closed)],
        headers_requested(s, Seq::empty(), Seq::empty()).0 == s,
        proof_requested(s, Seq::empty(), Seq::empty()).0 == s,
{
}

// ---------------------------------------------------------------------
// Exchanges
// ---------------------------------------------------------------------

/// What an exchange with a peer is to bring.
#[derive(Clone, Copy, Debug, PartialEq, Eq, Structural)]
pub enum PeerGoal {
    Handshake,
    Headers,
    Proof,
}

#[derive(Debug, PartialEq, Eq)]
pub enum PeerOutcome {
    Version(VersionPacket),
    Headers(Vec<BlockHeader>),
    Proof(ProofPacket),
}

#[verifier::ext_equal]
pub enum OutcomeView {
    Version(VersionView),
    Headers(Seq<Seq<u8>>),
    Proof(ProofView),
}

impl View for PeerOutcome {
    type V = OutcomeView;

    open spec fn view(&self) -> OutcomeView {
        match *self {
            PeerOutcome::Version(v) => OutcomeView::Version(v@),
            PeerOutcome::Headers(h) => OutcomeView::Headers(packet::header_views(h@)),
            PeerOutcome::Proof(p) => OutcomeView::Proof(p@),
        }
    }
}

/// What to do once the packets of a turn have been sent.
#[derive(Debug, PartialEq, Eq)]
pub enum PeerNext {
    Receive,
    Done(PeerOutcome),
    Fail(P2pError),
}

#[verifier::ext_equal]
pub enum NextView {
    Receive,
    Done(OutcomeView),
    Fail(P2pError),
}

impl View for PeerNext {
    type V = NextView;

    open spec fn view(&self) -> NextView {
        match *self {
            PeerNext::Receive => NextView::Receive,
            PeerNext::Done(o) => NextView::Done(o@),
            PeerNext::Fail(e) => NextView::Fail(e),
        }
    }
}

/// One turn of an exchange: what is sent, in order, and what comes then.
#[derive(Debug, PartialEq, Eq)]
pub struct PeerTurn {
    pub send: Vec<Packet>,
    pub next: PeerNext,
}

#[verifier::ext_equal]
pub struct TurnView {
    pub send: Seq<PacketView>,
    pub next: NextView,
}

impl View for PeerTurn {
    type V = TurnView;

    open spec fn view(&self) -> TurnView {
        TurnView { send: frame::packet_views(self.send@), next: self.next@ }
    }
}

/// Where an action ends an exchange: with what.
pub open spec fn ending(
    goal: PeerGoal,
    action: ActionView,
    remote: Option<VersionView>,
) -> NextView {
    match action {
        ActionView::Send(_) => NextView::Receive,
        ActionView::Disconnect(reason) => NextView::Fail(P2pError::SessionDisconnected(reason)),
        ActionView::Ready => match remote {
            Some(v) if goal == PeerGoal::Handshake => NextView::Done(OutcomeView::Version(v)),
            _ => NextView::Fail(P2pError::UnexpectedAction),
        },
        ActionView::Headers(h) => if goal == PeerGoal::Headers {
            NextView::Done(OutcomeView::Headers(h))
        } else {
            NextView::Fail(P2pError::UnexpectedAction)
        },
        ActionView::Proof(p) => if goal == PeerGoal::Proof {
            NextView::Done(OutcomeView::Proof(p))
        } else {
            NextView::Fail(P2pError::UnexpectedAction)
        },
    }
}

/// Actions are carried out in order, up to the first that ends the exchange.
pub open spec fn followed(
    goal: PeerGoal,
    actions: Seq<ActionView>,
    remote: Option<VersionView>,
) -> TurnView
    decreases actions.len(),
{
    if actions.len() == 0 {
        TurnView { send: Seq::empty(), next: NextView::Receive }
    } else {
        match actions.first() {
            ActionView::Send(p) => {
                let more = followed(goal, actions.drop_first(), remote);
                TurnView { send: seq![p] + more.send, next: more.next }
            },
            a => TurnView { send: Seq::empty(), next: ending(goal, a, remote) },
        }
    }
}

fn end_with(goal: PeerGoal, action: HeaderSyncAction, remote: Option<&VersionPacket>) -> (r:
    PeerNext)
    requires
        !(action is Send),
    ensures
        r@ == ending(goal, action@, remote_view(remote)),
{
    match action {
        HeaderSyncAction::Send(_) => PeerNext::Receive,
        HeaderSyncAction::Disconnect(reason) => PeerNext::Fail(
            P2pError::SessionDisconnected(reason),
        ),
        HeaderSyncAction::Ready => match remote {
            Some(v) => if goal == PeerGoal::Handshake {
                PeerNext::Done(PeerOutcome::Version(v.copy()))
            } else {
                PeerNext::Fail(P2pError::UnexpectedAction)
            },
            None => PeerNext::Fail(P2pError::UnexpectedAction),
        },
        HeaderSyncAction::Headers(h) => if goal == PeerGoal::Headers {
            PeerNext::Done(PeerOutcome::Headers(h))
        } else {
            PeerNext::Fail(P2pError::UnexpectedAction)
        },
        HeaderSyncAction::Proof(p) => if goal == PeerGoal::Proof {
            PeerNext::Done(PeerOutcome::Proof(p))
        } else {
            PeerNext::Fail(P2pError::UnexpectedAction)
        },
    }
}

pub open spec fn remote_view(remote: Option<&VersionPacket>) -> Option<VersionView> {
    match remote {
        Some(v) => Some(v@),
        None => None,
    }
}

/// Carries actions out as far as that needs no input or output.
pub fn follow(
    goal: PeerGoal,
    actions: Vec<HeaderSyncAction>,
    remote: Option<&VersionPacket>,
) -> (r: PeerTurn)
    ensures
        r@ == followed(goal, action_views(actions@), remote_view(remote)),
{
    let ghost all = action_views(actions@);
    let ghost v = remote_view(remote);
    let mut left = actions;
    let mut send: Vec<Packet> = Vec::new();
    assert(frame::packet_views(send@) + followed(goal, all, v).send =~= followed(
        goal,
        all,
        v,
    ).send);
    while left.len() > 0
        invariant
            v == remote_view(remote),
            all == action_views(actions@),
            followed(goal, all, v).next == followed(goal, action_views(left@), v).next,
            followed(goal, all, v).send == frame::packet_views(send@) + followed(
                goal,
                action_views(left@),
                v,
            ).send,
        decreases left@.len(),
    {
        let ghost before = action_views(left@);
        let ghost sent = frame::packet_views(send@);
        let action = left.remove(0);
        proof {
            assert(before.first() == action@);
            assert(action_views(left@) =~= before.drop_first());
        }
        match action {
            HeaderSyncAction::Send(p) => {
                proof {
                    assert(frame::packet_views(send@.push(p)) =~= sent + seq![p@]);
                    let more = followed(goal, before.drop_first(), v);
                    assert(sent + (seq![p@] + more.send) =~= (sent + seq![p@]) + more.send);
                }
                send.push(p);
            },
            other => {
                let next = end_with(goal, other, remote);
                assert(followed(goal, before, v).send =~= Seq::empty());
                assert(sent + Seq::<PacketView>::empty() =~= sent);
                return PeerTurn { send, next };
            },
        }
    }
    assert(frame::packet_views(send@) + Seq::<PacketView>::empty() =~= frame::packet_views(send@));
    PeerTurn { send, next: PeerNext::Receive }
}

/// What is sent for the action that opens an exchange.
pub open spec fn opening(action: ActionView) -> Result<PacketView, P2pError> {
    match action {
        ActionView::Send(p) => Ok(p),
        ActionView::Disconnect(reason) => Err(P2pError::SessionDisconnected(reason)),
        _ => Err(P2pError::UnexpectedAction),
    }
}

pub fn apply_action(action: HeaderSyncAction) -> (r: Result<Packet, P2pError>)
    ensures
        packet::same_packet(r, opening(action@)),
{
    match action {
        HeaderSyncAction::Send(p) => Ok(p),
        HeaderSyncAction::Disconnect(reason) => Err(P2pError::SessionDisconnected(reason)),
        HeaderSyncAction::Ready
        | HeaderSyncAction::Headers(_)
        | HeaderSyncAction::Proof(_) => Err(P2pError::UnexpectedAction),
    }
}

/// What a peer's packet does to a session and to an exchange with that goal.
pub open spec fn taken(goal: PeerGoal, s: SessionView, p: PacketView) -> (SessionView, TurnView) {
    let (after, actions) = answered(s, p);
    (after, followed(goal, actions, after.remote))
}

// ---------------------------------------------------------------------
// Addresses
// ---------------------------------------------------------------------

/// One turn of asking a peer for addresses.
#[derive(Debug, PartialEq, Eq)]
pub enum AddressTurn {
    Receive,
    Send(Packet),
    Done(Vec<SocketAddr>),
    Fail(P2pError),
}

#[verifier::ext_equal]
pub enum AddressTurnView {
    Receive,
    Send(PacketView),
    Done(Seq<SocketAddr>),
    Fail(P2pError),
}

impl View for AddressTurn {
    type V = AddressTurnView;

    open spec fn view(&self) -> AddressTurnView {
        match *self {
            AddressTurn::Receive => AddressTurnView::Receive,
            AddressTurn::Send(p) => AddressTurnView::Send(p@),
            AddressTurn::Done(v) => AddressTurnView::Done(v@),
            AddressTurn::Fail(e) => AddressTurnView::Fail(e),
        }
    }
}

pub open spec fn address_turn(p: PacketView) -> AddressTurnView {
    match p {
        PacketView::Addr(items) => AddressTurnView::Done(packet::serving(items, SERVICE_NETWORK)),
        PacketView::Ping(nonce) => AddressTurnView::Send(PacketView::Pong(nonce)),
        PacketView::GetAddr
        | PacketView::Pong(_)
        | PacketView::SendHeaders
        | PacketView::Unknown { .. }
        | PacketView::Verack => AddressTurnView::Receive,
        _ => AddressTurnView::Fail(P2pError::UnexpectedAction),
    }
}

// ---------------------------------------------------------------------
// Connections
// ---------------------------------------------------------------------

/// What a connection keeps besides its transport: the bytes and packets that
/// came and were not asked for yet.
#[derive(Debug)]
pub struct PeerConnection {
    network: NetworkParameters,
    decoder: FrameDecoder,
    pending: Vec<Packet>,
}

#[verifier::ext_equal]
pub struct ConnectionView {
    pub magic: u32,
    pub held: Seq<u8>,
    pub pending: Seq<PacketView>,
}

impl View for PeerConnection {
    type V = ConnectionView;

    closed spec fn view(&self) -> ConnectionView {
        ConnectionView {
            magic: self.decoder.network_magic(),
            held: self.decoder.held(),
            pending: frame::packet_views(self.pending@),
        }
    }
}

/// The packet that is handed out next, and what is left.
pub open spec fn next_packet(c: ConnectionView) -> (ConnectionView, Option<PacketView>) {
    if c.pending.len() == 0 {
        (c, None)
    } else {
        (ConnectionView { pending: c.pending.drop_first(), ..c }, Some(c.pending.first()))
    }
}

/// What bytes from the peer bring. No bytes mean that the peer is gone.
pub open spec fn received(c: ConnectionView, data: Seq<u8>) -> (
    ConnectionView,
    Result<Option<PacketView>, P2pError>,
) {
    if data.len() == 0 {
        (c, Err(P2pError::ConnectionClosed))
    } else {
        let (held, r) = frame::fed(c.magic, c.held, data);
        match r {
            Err(e) => (ConnectionView { held, ..c }, Err(e)),
            Ok(packets) => {
                let (after, p) = next_packet(
                    ConnectionView { held, pending: c.pending + packets, ..c },
                );
                (after, Ok(p))
            },
        }
    }
}

impl PeerConnection {
    pub closed spec fn parameters(self) -> NetworkParameters {
        self.network
    }

    /// Packets come and go under the same magic number.
    pub closed spec fn wf(self) -> bool {
        self.decoder.network_magic() == self.network.magic
    }

    pub fn new(network: NetworkParameters) -> (r: Self)
        ensures
            r@ == (ConnectionView {
                magic: network.magic,
                held: Seq::empty(),
                pending: Seq::empty(),
            }),
            r.parameters() == network,
            r.wf(),
    {
        let decoder = FrameDecoder::new(&network);
        let r = PeerConnection { network, decoder, pending: Vec::new() };
        assert(frame::packet_views(r.pending@) =~= Seq::<PacketView>::empty());
        r
    }

    pub fn network(&self) -> (r: &NetworkParameters)
        ensures
            *r == self.parameters(),
            self.wf() ==> r.magic == self@.magic,
    {
        &self.network
    }

    /// The bytes that send a packet.
    pub fn send_packet(&self, packet: &Packet) -> (r: Result<Vec<u8>, P2pError>)
        requires
            self.wf(),
        ensures
            relay::same_bytes(r, frame::encoded_frame(self@.magic, packet@)),
    {
        frame::encode_frame(&self.network, packet)
    }

    /// A packet that came before.
    pub fn receive_packet(&mut self) -> (r: Option<Packet>)
        ensures
            final(self).parameters() == old(self).parameters(),
            old(self).wf() ==> final(self).wf(),
            final(self)@ == next_packet(old(self)@).0,
            match (r, next_packet(old(self)@).1) {
                (Some(p), Some(v)) => p@ == v,
                (None, None) => true,
                _ => false,
            },
    {
        let ghost before = frame::packet_views(self.pending@);
        if self.pending.len() == 0 {
            return None;
        }
        let p = self.pending.remove(0);
        assert(frame::packet_views(self.pending@) =~= before.drop_first());
        Some(p)
    }

    /// Takes in the bytes that one read from the transport gave.
    pub fn accept(&mut self, data: &[u8]) -> (r: Result<Option<Packet>, P2pError>)
        ensures
            final(self).parameters() == old(self).parameters(),
            old(self).wf() ==> final(self).wf(),
            final(self)@ == received(old(self)@, data@).0,
            match (r, received(old(self)@, data@).1) {
                (Ok(Some(p)), Ok(Some(v))) => p@ == v,
                (Ok(None), Ok(None)) => true,
                (Err(e), Err(f)) => e == f,
                _ => false,
            },
    {
        if data.len() == 0 {
            return Err(P2pError::ConnectionClosed);
        }
        let ghost before = frame::packet_views(self.pending@);
        match self.decoder.feed(data) {
            Err(e) => Err(e),
            Ok(packets) => {
                let ghost views = frame::packet_views(packets@);
                let mut more = packets;
                let ghost pending = self.pending@;
                let ghost all = more@;
                self.pending.append(&mut more);
                assert(frame::packet_views(self.pending@) =~= before + views);
                Ok(self.receive_packet())
            },
        }
    }

    /// What a packet does to the handshake.
    pub fn handshake(session: &mut HeaderSyncSession, packet: Packet) -> (r: PeerTurn)
        ensures
            (final(session)@, r@) == taken(PeerGoal::Handshake, old(session)@, packet@),
    {
        let actions = session.on_packet(packet);
        follow(PeerGoal::Handshake, actions, session.remote_version())
    }

    /// What asks the peer for headers.
    pub fn request_headers(session: &mut HeaderSyncSession, locator: Vec<Digest>, stop: Digest) -> (r:
        Result<Packet, P2pError>)
        ensures
            final(session)@ == headers_requested(
                old(session)@,
                packet::hash_views(locator@),
                stop@,
            ).0,
            packet::same_packet(
                r,
                match headers_requested(old(session)@, packet::hash_views(locator@), stop@).1 {
                    Ok(a) => opening(a),
                    Err(e) => Err(e),
                },
            ),
    {
        match session.request_headers(locator, stop) {
            Ok(a) => apply_action(a),
            Err(e) => Err(e),
        }
    }

    /// What a packet does to the request for headers.
    pub fn take_headers(session: &mut HeaderSyncSession, packet: Packet) -> (r: PeerTurn)
        ensures
            (final(session)@, r@) == taken(PeerGoal::Headers, old(session)@, packet@),
    {
        let actions = session.on_packet(packet);
        follow(PeerGoal::Headers, actions, session.remote_version())
    }

    /// What asks the peer for a proof.
    pub fn request_proof(session: &mut HeaderSyncSession, root: Digest, key: Digest) -> (r: Result<
        Packet,
        P2pError,
    >)
        ensures
            final(session)@ == proof_requested(old(session)@, root@, key@).0,
            packet::same_packet(r, opening(proof_requested(old(session)@, root@, key@).1)),
    {
        apply_action(session.request_proof(root, key))
    }

    /// What a packet does to the request for a proof.
    pub fn take_proof(session: &mut HeaderSyncSession, packet: Packet) -> (r: PeerTurn)
        ensures
            (final(session)@, r@) == taken(PeerGoal::Proof, old(session)@, packet@),
    {
        let actions = session.on_packet(packet);
        follow(PeerGoal::Proof, actions, session.remote_version())
    }

    /// What a packet does to the request for addresses.
    pub fn request_addresses(packet: Packet) -> (r: AddressTurn)
        ensures
            r@ == address_turn(packet@),
    {
        match packet {
            Packet::Addr(addresses) => AddressTurn::Done(
                addresses.service_sockets(SERVICE_NETWORK),
            ),
            Packet::Ping(nonce) => AddressTurn::Send(Packet::Pong(nonce)),
            Packet::GetAddr
            | Packet::Pong(_)
            | Packet::SendHeaders
            | Packet::Unknown { .. }
            | Packet::Verack => AddressTurn::Receive,
            Packet::Version(_)
            | Packet::GetHeaders(_)
            | Packet::Headers(_)
            | Packet::GetProof(_)
            | Packet::Proof(_)
            | Packet::GetDnsRelay(_)
            | Packet::DnsRelay(_) => AddressTurn::Fail(P2pError::UnexpectedAction),
        }
    }
}

/// In a consistent session a handshake ends with the version that the peer
/// gave, and headers and proofs come only where they were asked for.
pub proof fn exchanges_end_with_what_was_asked_for(goal: PeerGoal, s: SessionView, p: PacketView)
    requires
        is_consistent(s),
    ensures
        taken(goal, s, p).1.next matches NextView::Done(OutcomeView::Version(v)) ==> {
            &&& goal == PeerGoal::Handshake
            &&& taken(goal, s, p).0.remote == Some(v)
            &&& is_useful(v)
        },
        taken(goal, s, p).1.next matches NextView::Done(OutcomeView::Headers(h)) ==> {
            &&& goal == PeerGoal::Headers
            &&& s.state == HeaderSyncState::HeadersRequested
            &&& p == PacketView::Headers(h)
        },
        taken(goal, s, p).1.next matches NextView::Done(OutcomeView::Proof(q)) ==> {
            &&& goal == PeerGoal::Proof
            &&& s.state == HeaderSyncState::ProofRequested
            &&& p == PacketView::Proof(q)
        },
{
    reveal_with_fuel(followed, 3);
    let (after, actions) = answered(s, p);
    if actions.len() > 0 {
        assert(actions.drop_first().len() == actions.len() - 1);
    }
}

/// Whatever an exchange is for, pings are answered with their own nonce and
/// change nothing else.
pub proof fn pings_are_answered(goal: PeerGoal, s: SessionView, nonce: Seq<u8>)
    requires
        s.state != HeaderSyncState::Closed,
    ensures
        taken(goal, s, PacketView::Ping(nonce)) == (
            s,
            TurnView { send: seq![PacketView::Pong(nonce)], next: NextView::Receive },
        ),
        address_turn(PacketView::Ping(nonce)) == AddressTurnView::Send(PacketView::Pong(nonce)),
{
    reveal_with_fuel(followed, 3);
    let (after, actions) = answered(s, PacketView::Ping(nonce));
    assert(actions.drop_first().len() == 0);
    assert(seq![PacketView::Pong(nonce)] + Seq::<PacketView>::empty() =~= seq![
        PacketView::Pong(nonce),
    ]);
}

/// A ready session asks for headers with the whole locator, up to fifty thousand entries,
/// and whatever number of headers comes is delivered as it came, which leaves the session
/// as it was before it asked. So it is with proofs. Nothing is asked for by a session that
/// is not ready.
pub proof fn what_was_asked_for_is_delivered(
    s: SessionView,
    locator: Seq<Seq<u8>>,
    stop: Seq<u8>,
    root: Seq<u8>,
    key: Seq<u8>,
    items: Seq<Seq<u8>>,
    proof_view: ProofView,
)
    ensures
        s.state == HeaderSyncState::Ready && locator.len() <= 50_000 ==> {
            let (asking, request) = headers_requested(s, locator, stop);
            &&& request == Ok::<ActionView, P2pError>(
                ActionView::Send(PacketView::GetHeaders { locator, stop }),
            )
            &&& asking == (SessionView { state: HeaderSyncState::HeadersRequested, ..s })
            &&& answered(asking, PacketView::Headers(items)) == (
                s,
                seq![ActionView::Headers(items)],
            )
            &&& taken(PeerGoal::Headers, asking, PacketView::Headers(items)) == (
                s,
                TurnView {
                    send: Seq::empty(),
                    next: NextView::Done(OutcomeView::Headers(items)),
                },
            )
        },
        s.state == HeaderSyncState::Ready && locator.len() > 50_000 ==> headers_requested(
            s,
            locator,
            stop,
        ) == (s, Err::<ActionView, P2pError>(P2pError::CountLimit)),
        s.state == HeaderSyncState::Ready ==> {
            let (asking, request) = proof_requested(s, root, key);
            &&& request == ActionView::Send(PacketView::GetProof { root, key })
            &&& asking == (SessionView { state: HeaderSyncState::ProofRequested, ..s })
            &&& answered(asking, PacketView::Proof(proof_view)) == (
                s,
                seq![ActionView::Proof(proof_view)],
            )
            &&& taken(PeerGoal::Proof, asking, PacketView::Proof(proof_view)) == (
                s,
                TurnView {
                    send: Seq::empty(),
                    next: NextView::Done(OutcomeView::Proof(proof_view)),
                },
            )
        },
        s.state != HeaderSyncState::Ready ==> {
            &&& headers_requested(s, locator, stop) == (
                s,
                Ok::<ActionView, P2pError>(
                    ActionView::Disconnect(DisconnectReason::HeadersBeforeReady),
                ),
            )
            &&& proof_requested(s, root, key) == (
                s,
                ActionView::Disconnect(DisconnectReason::ProofBeforeReady),
            )
        },
{
    reveal_with_fuel(followed, 3);
    let headers = SessionView { state: HeaderSyncState::HeadersRequested, ..s };
    let waiting = SessionView { state: HeaderSyncState::ProofRequested, ..s };
    if s.state == HeaderSyncState::Ready {
        assert((SessionView { state: HeaderSyncState::Ready, ..headers }) =~= s);
        assert((SessionView { state: HeaderSyncState::Ready, ..waiting }) =~= s);
        assert(answered(headers, PacketView::Headers(items)).1 =~= seq![
            ActionView::Headers(items),
        ]);
        assert(answered(waiting, PacketView::Proof(proof_view)).1 =~= seq![
            ActionView::Proof(proof_view),
        ]);
    }
}

/// A peer is taken on exactly where it speaks version one or later and serves the network.
/// Its version is then kept as it came, and acknowledged; any other peer is refused for
/// its services, and the session is over.
pub proof fn peers_of_the_network_are_taken_on(s: SessionView, v: VersionView)
    requires
        s.state == HeaderSyncState::AwaitingVersion,
    ensures
        ({
            let (after, actions) = answered(s, PacketView::Version(v));
            if v.version >= 1 && v.services & 1 != 0 {
                &&& after.remote == Some(v)
                &&& after.local == s.local && after.acknowledged == s.acknowledged
                &&& after.state == if s.acknowledged {
                    HeaderSyncState::Ready
                } else {
                    HeaderSyncState::AwaitingVerack
                }
                &&& actions.len() > 0 && actions[0] == ActionView::Send(PacketView::Verack)
                &&& actions.len() == if s.acknowledged {
                    2nat
                } else {
                    1
                }
                &&& s.acknowledged ==> actions[1] == ActionView::Ready && taken(
                    PeerGoal::Handshake,
                    s,
                    PacketView::Version(v),
                ).1 == (TurnView {
                    send: seq![PacketView::Verack],
                    next: NextView::Done(OutcomeView::Version(v)),
                })
            } else {
                &&& after == (SessionView { state: HeaderSyncState::Closed, ..s })
                &&& actions == seq![ActionView::Disconnect(DisconnectReason::MissingService)]
            }
        }),
{
    reveal_with_fuel(followed, 4);
    let (after, actions) = answered(s, PacketView::Version(v));
    if actions.len() == 2 {
        assert(actions.drop_first() =~= seq![ActionView::Ready]);
        assert(seq![PacketView::Verack] + Seq::<PacketView>::empty() =~= seq![PacketView::Verack]);
    }
}

/// What a peer tells of itself changes nothing and ends nothing, whatever the exchange is
/// for. What does not belong into an open session, and what nobody asked for, is named as
/// unexpected and leaves the session as it was.
pub proof fn advice_changes_nothing(goal: PeerGoal, s: SessionView, p: PacketView)
    requires
        s.state != HeaderSyncState::Closed,
    ensures
        p is GetAddr || p is Addr || p is SendHeaders || p is Unknown || p is Pong ==> {
            &&& answered(s, p) == (s, Seq::<ActionView>::empty())
            &&& taken(goal, s, p) == (
                s,
                TurnView { send: Seq::empty(), next: NextView::Receive },
            )
        },
        ({
            ||| p is GetHeaders || p is GetProof || p is GetDnsRelay || p is DnsRelay
            ||| p is Headers && s.state != HeaderSyncState::HeadersRequested
            ||| p is Proof && s.state != HeaderSyncState::ProofRequested
            ||| p is Version && s.state != HeaderSyncState::AwaitingVersion
            ||| p is Verack && s.state != HeaderSyncState::AwaitingVersion && s.state
                != HeaderSyncState::AwaitingVerack
        }) ==> {
            &&& answered(s, p) == (
                s,
                seq![ActionView::Disconnect(DisconnectReason::UnexpectedPacket)],
            )
            &&& taken(goal, s, p).1.send.len() == 0
            &&& taken(goal, s, p).1.next == NextView::Fail(
                P2pError::SessionDisconnected(DisconnectReason::UnexpectedPacket),
            )
        },
{
    reveal_with_fuel(followed, 3);
}

/// A request for addresses ends with the peers that serve the network, each where it can
/// be reached and once; it waits through what a peer tells of itself, and fails on
/// anything else.
pub proof fn addresses_are_waited_for(p: PacketView)
    ensures
        p matches PacketView::Addr(items) ==> {
            &&& address_turn(p) matches AddressTurnView::Done(found)
            &&& found.no_duplicates()
            &&& forall|a: SocketAddr| #[trigger]
                found.contains(a) <==> exists|i: int|
                    0 <= i < items.len() && (#[trigger] items[i]).services & 1 == 1
                        && items[i].port != 0 && !packet::is_unspecified(items[i].address) && a
                        == packet::place_of(items[i])
        },
        p is GetAddr || p is Pong || p is SendHeaders || p is Unknown || p is Verack
            ==> address_turn(p) == AddressTurnView::Receive,
        p is Version || p is GetHeaders || p is Headers || p is GetProof || p is Proof
            || p is GetDnsRelay || p is DnsRelay ==> address_turn(p) == AddressTurnView::Fail(
            P2pError::UnexpectedAction,
        ),
{
    if let PacketView::Addr(items) = p {
        packet::serving_addresses_are_distinct(items, 1);
        let found = packet::serving(items, 1);
        assert forall|a: SocketAddr| #[trigger] found.contains(a) <==> exists|i: int|
            0 <= i < items.len() && (#[trigger] items[i]).services & 1 == 1 && items[i].port != 0
                && !packet::is_unspecified(items[i].address) && a == packet::place_of(items[i]) by {
            if found.contains(a) {
                let i = choose|i: int|
                    0 <= i < items.len() && packet::serves(#[trigger] items[i], 1) && a
                        == packet::place_of(items[i]);
                assert(items[i].services & 1 == 1);
            }
            if exists|i: int|
                0 <= i < items.len() && (#[trigger] items[i]).services & 1 == 1 && items[i].port
                    != 0 && !packet::is_unspecified(items[i].address) && a == packet::place_of(
                    items[i],
                ) {
                let i = choose|i: int|
                    0 <= i < items.len() && (#[trigger] items[i]).services & 1 == 1 && items[i].port
                        != 0 && !packet::is_unspecified(items[i].address) && a == packet::place_of(
                        items[i],
                    );
                assert(packet::serves(items[i], 1));
            }
        }
    }
}

/// Bytes are handed on packet by packet in the order in which they came, those that came
/// before first; no bytes mean that the peer is gone.
pub proof fn packets_are_handed_out_in_order(c: ConnectionView, data: Seq<u8>)
    ensures
        received(c, Seq::empty()) == (
            c,
            Err::<Option<PacketView>, P2pError>(P2pError::ConnectionClosed),
        ),
        data.len() > 0 ==> match frame::fed(c.magic, c.held, data).1 {
            Err(e) => received(c, data).1 == Err::<Option<PacketView>, P2pError>(e) && received(
                c,
                data,
            ).0.pending == c.pending,
            Ok(packets) => match received(c, data).1 {
                Ok(Some(first)) => seq![first] + received(c, data).0.pending == c.pending + packets,
                Ok(None) => (c.pending + packets).len() == 0 && received(c, data).0.pending.len()
                    == 0,
                Err(_) => false,
            },
        },
        data.len() > 0 ==> received(c, data).0.held == frame::fed(c.magic, c.held, data).0
            && received(c, data).0.magic == c.magic,
        match next_packet(c) {
            (after, Some(first)) => seq![first] + after.pending == c.pending && after.held == c.held
                && after.magic == c.magic,
            (after, None) => after == c && c.pending.len() == 0,
        },
{
    if c.pending.len() > 0 {
        assert(seq![c.pending.first()] + c.pending.drop_first() =~= c.pending);
    }
    if let Ok(packets) = frame::fed(c.magic, c.held, data).1 {
        let all = c.pending + packets;
        if all.len() > 0 {
            assert(seq![all.first()] + all.drop_first() =~= all);
        }
    }
}

/// What a session sends is sent; what else it does ends the turn, as a success where it is
/// what the exchange is for, and as a failure otherwise.
pub proof fn turns_follow_the_session(
    goal: PeerGoal,
    p: PacketView,
    reason: DisconnectReason,
    v: VersionView,
    remote: Option<VersionView>,
    items: Seq<Seq<u8>>,
    proof_view: ProofView,
    actions: Seq<ActionView>,
)
    ensures
        ({
            let turn = |a: ActionView| followed(goal, seq![a] + actions, remote);
            let ended = |next: NextView| TurnView { send: Seq::empty(), next };
            let failed = NextView::Fail(P2pError::UnexpectedAction);
            let rest = followed(goal, actions, remote);
            &&& turn(ActionView::Send(p)) == (TurnView {
                send: seq![p] + rest.send,
                next: rest.next,
            })
            &&& turn(ActionView::Disconnect(reason)) == ended(
                NextView::Fail(P2pError::SessionDisconnected(reason)),
            )
            &&& turn(ActionView::Ready) == ended(
                if goal is Handshake && remote is Some {
                    NextView::Done(OutcomeView::Version(remote->Some_0))
                } else {
                    failed
                },
            )
            &&& turn(ActionView::Headers(items)) == ended(
                if goal is Headers {
                    NextView::Done(OutcomeView::Headers(items))
                } else {
                    failed
                },
            )
            &&& turn(ActionView::Proof(proof_view)) == ended(
                if goal is Proof {
                    NextView::Done(OutcomeView::Proof(proof_view))
                } else {
                    failed
                },
            )
            &&& followed(goal, Seq::empty(), remote) == ended(NextView::Receive)
            &&& opening(ActionView::Send(p)) == Ok::<PacketView, P2pError>(p)
            &&& opening(ActionView::Disconnect(reason)) == Err::<PacketView, P2pError>(
                P2pError::SessionDisconnected(reason),
            )
            &&& opening(ActionView::Ready) == Err::<PacketView, P2pError>(
                P2pError::UnexpectedAction,
            )
        }),
{
    let send = seq![ActionView::Send(p)] + actions;
    assert(send.drop_first() =~= actions);
    assert(send.first() == ActionView::Send(p));
    assert((seq![ActionView::Disconnect(reason)] + actions).first() == ActionView::Disconnect(
        reason,
    ));
    assert((seq![ActionView::Ready] + actions).first() == ActionView::Ready);
    assert((seq![ActionView::Headers(items)] + actions).first() == ActionView::Headers(items));
    assert((seq![ActionView::Proof(proof_view)] + actions).first() == ActionView::Proof(
        proof_view,
    ));
}

/// A session opens with its own version, and follows its actions as it is meant.
pub proof fn sessions_open_with_their_version(
    local: VersionPacket,
    session: HeaderSyncSession,
    of: &HeaderSyncSession,
    first: HeaderSyncAction,
    packet: Packet,
    turn: AddressTurn,
)
    requires
        call_ensures(HeaderSyncSession::new, (local,), session),
        call_ensures(HeaderSyncSession::start, (of,), first),
        call_ensures(PeerConnection::request_addresses, (packet,), turn),
    ensures
        session@.state is AwaitingVersion && session@.local == local@,
        session@.remote is None && !session@.acknowledged,
        first@ == ActionView::Send(PacketView::Version(of@.local)),
        turn@ == address_turn(packet@),
{
}

} // verus!
