//! Decisions of the local TLS handshake that follows an accepted CONNECT.

use crate::host;
use crate::host::NormalizedHost;
use crate::http1::IoKind;
use crate::text;
use vstd::prelude::*;

verus! {

/// The only application protocol that is served inside a connection.
pub const HTTP_1_1_ALPN: &'static str = "http/1.1";

/// The longest wait between two looks at the cancellation, in nanoseconds.
pub const CANCELLATION_POLL_NANOS: u128 = 25_000_000;

/// A handshake failure that tells nothing of the peer.
#[derive(Clone, Copy, Debug, PartialEq, Eq, Structural)]
pub enum TlsTerminationError {
    Cancelled,
    TimedOut,
    HandshakeFailed,
    ServerNameRejected,
    ApplicationProtocolRejected,
    Socket,
}

pub open spec fn tls_error_text(e: TlsTerminationError) -> Seq<char> {
    match e {
        TlsTerminationError::Cancelled => "local TLS handshake was cancelled"@,
        TlsTerminationError::TimedOut => "local TLS handshake timed out"@,
        TlsTerminationError::HandshakeFailed => "local TLS handshake failed"@,
        TlsTerminationError::ServerNameRejected => "local TLS server name was rejected"@,
        TlsTerminationError::ApplicationProtocolRejected
            => "local TLS application protocol was rejected"@,
        TlsTerminationError::Socket => "local TLS socket configuration failed"@,
    }
}

impl TlsTerminationError {
    pub fn message(&self) -> (r: &'static str)
        ensures
            r@ == tls_error_text(*self),
    {
        match self {
            TlsTerminationError::Cancelled => "local TLS handshake was cancelled",
            TlsTerminationError::TimedOut => "local TLS handshake timed out",
            TlsTerminationError::HandshakeFailed => "local TLS handshake failed",
            TlsTerminationError::ServerNameRejected => "local TLS server name was rejected",
            TlsTerminationError::ApplicationProtocolRejected =>
                "local TLS application protocol was rejected",
            TlsTerminationError::Socket => "local TLS socket configuration failed",
        }
    }
}

// ---------------------------------------------------------------------
// Waiting on the socket
// ---------------------------------------------------------------------

/// Why an operation on the socket must not start.
#[derive(Clone, Copy, Debug, PartialEq, Eq, Structural)]
pub enum WaitError {
    Aborted,
    TimedOut,
}

/// How to perform one operation on the socket.
#[derive(Clone, Copy, Debug, PartialEq, Eq, Structural)]
pub enum IoPlan {
    /// There is nothing to transfer.
    Nothing,
    /// Once, under the timeouts that the socket has.
    Direct,
    /// Under a timeout of so many nanoseconds, and again after a retryable error.
    Wait(u128),
    Fail(WaitError),
}

/// The time until the deadline, cut to the poll interval.
pub open spec fn budget(cancelled: bool, remaining: Option<u128>) -> Result<u128, WaitError> {
    if cancelled {
        Err(WaitError::Aborted)
    } else if remaining is None || remaining->0 == 0 {
        Err(WaitError::TimedOut)
    } else if remaining->0 < CANCELLATION_POLL_NANOS {
        Ok(remaining->0)
    } else {
        Ok(CANCELLATION_POLL_NANOS)
    }
}

/// How long one operation may wait. `remaining` is the time until the deadline,
/// and nothing once it has passed.
pub fn wait_budget(cancelled: bool, remaining: Option<u128>) -> (r: Result<u128, WaitError>)
    ensures
        r == budget(cancelled, remaining),
{
    if cancelled {
        return Err(WaitError::Aborted);
    }
    match remaining {
        None => Err(WaitError::TimedOut),
        Some(n) => if n == 0 {
            Err(WaitError::TimedOut)
        } else if n < CANCELLATION_POLL_NANOS {
            Ok(n)
        } else {
            Ok(CANCELLATION_POLL_NANOS)
        },
    }
}

pub open spec fn planned(empty: bool, cancelled: bool, deadline: Option<Option<u128>>) -> IoPlan {
    if empty {
        IoPlan::Nothing
    } else {
        match deadline {
            None => if cancelled {
                IoPlan::Fail(WaitError::Aborted)
            } else {
                IoPlan::Direct
            },
            Some(remaining) => match budget(cancelled, remaining) {
                Ok(n) => IoPlan::Wait(n),
                Err(e) => IoPlan::Fail(e),
            },
        }
    }
}

/// Plans one read or write. `deadline` is absent where the request has none, and
/// holds the time that remains where it has one.
pub fn plan_io(empty: bool, cancelled: bool, deadline: Option<Option<u128>>) -> (r: IoPlan)
    ensures
        r == planned(empty, cancelled, deadline),
{
    if empty {
        return IoPlan::Nothing;
    }
    match deadline {
        None => if cancelled {
            IoPlan::Fail(WaitError::Aborted)
        } else {
            IoPlan::Direct
        },
        Some(remaining) => match wait_budget(cancelled, remaining) {
            Ok(n) => IoPlan::Wait(n),
            Err(e) => IoPlan::Fail(e),
        },
    }
}

pub open spec fn is_retryable(kind: IoKind) -> bool {
    kind == IoKind::Interrupted || kind == IoKind::TimedOut || kind == IoKind::WouldBlock
}

/// Whether an operation that failed is tried again.
pub fn retryable(kind: IoKind) -> (r: bool)
    ensures
        r == is_retryable(kind),
{
    match kind {
        IoKind::Interrupted | IoKind::TimedOut | IoKind::WouldBlock => true,
        _ => false,
    }
}

/// No operation starts once the work is cancelled or the deadline has passed, and
/// none waits longer than the poll interval or past the deadline.
pub proof fn waits_are_bounded(cancelled: bool, remaining: Option<u128>)
    ensures
        match planned(false, cancelled, Some(remaining)) {
            IoPlan::Wait(n) => !cancelled && 0 < n <= CANCELLATION_POLL_NANOS
                && remaining is Some && n <= remaining->0,
            IoPlan::Fail(_) => cancelled || remaining is None || remaining->0 == 0,
            _ => false,
        },
{
}

// ---------------------------------------------------------------------
// The handshake
// ---------------------------------------------------------------------

#[derive(Clone, Copy, Debug, PartialEq, Eq, Structural)]
pub enum HandshakeStage {
    /// Nothing has happened yet.
    Starting,
    /// Flights are exchanged.
    Exchanging,
    /// The peers agree on a session, which is to be looked at.
    Complete,
    /// The session is accepted, and the socket gets its timeouts back.
    Restoring,
    /// The session can be used.
    Established,
    Failed,
}

/// What starting came to: what had to work, in the order in which it is tried.
#[derive(Clone, Copy, Debug, PartialEq, Eq, Structural)]
pub struct HandshakeStart {
    pub cancelled: bool,
    /// The deadline can be represented.
    pub deadline: bool,
    /// The timeouts of the socket could be read.
    pub timeouts: bool,
    /// The TLS configuration gave a connection.
    pub connection: bool,
    /// The connection needs flights before it is a session.
    pub handshaking: bool,
}

/// Flights are exchanged until the peers agree on a session.
pub open spec fn exchanging(handshaking: bool) -> HandshakeStage {
    if handshaking {
        HandshakeStage::Exchanging
    } else {
        HandshakeStage::Complete
    }
}

/// What one exchange came to.
#[derive(Clone, Copy, Debug, PartialEq, Eq, Structural)]
pub enum HandshakeIo {
    /// Bytes moved, or none did.
    Moved { any: bool, handshaking: bool },
    Failed { cancelled: bool, late: bool },
}

pub open spec fn start_error(s: HandshakeStart) -> Option<TlsTerminationError> {
    if s.cancelled {
        Some(TlsTerminationError::Cancelled)
    } else if !s.deadline {
        Some(TlsTerminationError::TimedOut)
    } else if !s.timeouts {
        Some(TlsTerminationError::Socket)
    } else if !s.connection {
        Some(TlsTerminationError::HandshakeFailed)
    } else {
        None
    }
}

/// The stage after an exchange that went well.
pub open spec fn exchanged(io: HandshakeIo) -> HandshakeStage {
    match io {
        HandshakeIo::Moved { handshaking, .. } => exchanging(handshaking),
        HandshakeIo::Failed { .. } => HandshakeStage::Failed,
    }
}

pub open spec fn exchange_error(io: HandshakeIo) -> Option<TlsTerminationError> {
    match io {
        HandshakeIo::Moved { any, handshaking } => if !any && handshaking {
            Some(TlsTerminationError::HandshakeFailed)
        } else {
            None
        },
        HandshakeIo::Failed { cancelled, late } => Some(
            if cancelled {
                TlsTerminationError::Cancelled
            } else if late {
                TlsTerminationError::TimedOut
            } else {
                TlsTerminationError::HandshakeFailed
            },
        ),
    }
}

/// Why a completed session is not used.
pub open spec fn session_error(
    expected: Seq<char>,
    cancelled: bool,
    late: bool,
    server_name: Option<Seq<char>>,
    alpn: Option<Seq<u8>>,
) -> Option<TlsTerminationError> {
    if cancelled {
        Some(TlsTerminationError::Cancelled)
    } else if late {
        Some(TlsTerminationError::TimedOut)
    } else if server_name is None || host::normalized(server_name->0) != Ok::<
        Seq<char>,
        host::HostNormalizationError,
    >(expected) {
        Some(TlsTerminationError::ServerNameRejected)
    } else if alpn is Some && alpn->0 != vstd::utf8::encode_utf8(HTTP_1_1_ALPN@) {
        Some(TlsTerminationError::ApplicationProtocolRejected)
    } else {
        None
    }
}

/// One server-side handshake for one host.
pub struct LocalHandshake {
    expected: NormalizedHost,
    stage: HandshakeStage,
}

pub struct HandshakeView {
    pub expected: Seq<char>,
    pub stage: HandshakeStage,
}

impl View for LocalHandshake {
    type V = HandshakeView;

    closed spec fn view(&self) -> HandshakeView {
        HandshakeView { expected: self.expected@, stage: self.stage }
    }
}

/// The result and the next stage where something may have gone wrong.
pub open spec fn outcome(
    right_stage: bool,
    error: Option<TlsTerminationError>,
    next: HandshakeStage,
) -> (Result<(), TlsTerminationError>, HandshakeStage) {
    if !right_stage {
        (Err(TlsTerminationError::HandshakeFailed), HandshakeStage::Failed)
    } else {
        match error {
            Some(e) => (Err(e), HandshakeStage::Failed),
            None => (Ok(()), next),
        }
    }
}

impl LocalHandshake {
    pub fn new(expected: NormalizedHost) -> (r: Self)
        ensures
            r@ == (HandshakeView { expected: expected@, stage: HandshakeStage::Starting }),
    {
        LocalHandshake { expected, stage: HandshakeStage::Starting }
    }

    pub fn stage(&self) -> (r: HandshakeStage)
        ensures
            r == self@.stage,
    {
        self.stage
    }

    fn settle(
        &mut self,
        right_stage: bool,
        error: Option<TlsTerminationError>,
        next: HandshakeStage,
    ) -> (r: Result<(), TlsTerminationError>)
        ensures
            (r, final(self)@.stage) == outcome(right_stage, error, next),
            final(self)@.expected == old(self)@.expected,
    {
        if !right_stage {
            self.stage = HandshakeStage::Failed;
            return Err(TlsTerminationError::HandshakeFailed);
        }
        match error {
            Some(e) => {
                self.stage = HandshakeStage::Failed;
                Err(e)
            },
            None => {
                self.stage = next;
                Ok(())
            },
        }
    }

    pub fn start(&mut self, s: HandshakeStart) -> (r: Result<(), TlsTerminationError>)
        ensures
            (r, final(self)@.stage) == outcome(
                old(self)@.stage == HandshakeStage::Starting,
                start_error(s),
                exchanging(s.handshaking),
            ),
            final(self)@.expected == old(self)@.expected,
    {
        let error = if s.cancelled {
            Some(TlsTerminationError::Cancelled)
        } else if !s.deadline {
            Some(TlsTerminationError::TimedOut)
        } else if !s.timeouts {
            Some(TlsTerminationError::Socket)
        } else if !s.connection {
            Some(TlsTerminationError::HandshakeFailed)
        } else {
            None
        };
        let right = self.stage == HandshakeStage::Starting;
        let next = if s.handshaking {
            HandshakeStage::Exchanging
        } else {
            HandshakeStage::Complete
        };
        self.settle(right, error, next)
    }

    /// One exchange of flights.
    pub fn exchange(&mut self, io: HandshakeIo) -> (r: Result<(), TlsTerminationError>)
        ensures
            (r, final(self)@.stage) == outcome(
                old(self)@.stage == HandshakeStage::Exchanging,
                exchange_error(io),
                exchanged(io),
            ),
            final(self)@.expected == old(self)@.expected,
    {
        let error = match io {
            HandshakeIo::Moved { any, handshaking } => if !any && handshaking {
                Some(TlsTerminationError::HandshakeFailed)
            } else {
                None
            },
            HandshakeIo::Failed { cancelled, late } => if cancelled {
                Some(TlsTerminationError::Cancelled)
            } else if late {
                Some(TlsTerminationError::TimedOut)
            } else {
                Some(TlsTerminationError::HandshakeFailed)
            },
        };
        let next = match io {
            HandshakeIo::Moved { handshaking, .. } => if handshaking {
                HandshakeStage::Exchanging
            } else {
                HandshakeStage::Complete
            },
            HandshakeIo::Failed { .. } => HandshakeStage::Failed,
        };
        let right = self.stage == HandshakeStage::Exchanging;
        self.settle(right, error, next)
    }

    /// Accepts the session that the handshake led to: in time, for the expected
    /// host, and for HTTP/1.1 where a protocol was negotiated.
    pub fn finish(
        &mut self,
        cancelled: bool,
        late: bool,
        server_name: Option<&str>,
        alpn: Option<&[u8]>,
    ) -> (r: Result<(), TlsTerminationError>)
        ensures
            (r, final(self)@.stage) == outcome(
                old(self)@.stage == HandshakeStage::Complete,
                session_error(
                    old(self)@.expected,
                    cancelled,
                    late,
                    name_view(server_name),
                    bytes_view(alpn),
                ),
                HandshakeStage::Restoring,
            ),
            final(self)@.expected == old(self)@.expected,
    {
        let named = match server_name {
            None => false,
            Some(name) => match NormalizedHost::parse(name) {
                Ok(h) => h.same(&self.expected),
                Err(_) => false,
            },
        };
        let spoken = match alpn {
            None => true,
            Some(bytes) => text::same_bytes(bytes, HTTP_1_1_ALPN.as_bytes()),
        };
        let error = if cancelled {
            Some(TlsTerminationError::Cancelled)
        } else if late {
            Some(TlsTerminationError::TimedOut)
        } else if !named {
            Some(TlsTerminationError::ServerNameRejected)
        } else if !spoken {
            Some(TlsTerminationError::ApplicationProtocolRejected)
        } else {
            None
        };
        let right = self.stage == HandshakeStage::Complete;
        self.settle(right, error, HandshakeStage::Restoring)
    }

    /// The socket got its timeouts back, or did not.
    pub fn restored(&mut self, ok: bool) -> (r: Result<(), TlsTerminationError>)
        ensures
            (r, final(self)@.stage) == outcome(
                old(self)@.stage == HandshakeStage::Restoring,
                if ok {
                    None
                } else {
                    Some(TlsTerminationError::Socket)
                },
                HandshakeStage::Established,
            ),
            final(self)@.expected == old(self)@.expected,
    {
        let right = self.stage == HandshakeStage::Restoring;
        let error = if ok {
            None
        } else {
            Some(TlsTerminationError::Socket)
        };
        self.settle(right, error, HandshakeStage::Established)
    }
}

pub open spec fn name_view(s: Option<&str>) -> Option<Seq<char>> {
    match s {
        Some(t) => Some(t@),
        None => None,
    }
}

pub open spec fn bytes_view(s: Option<&[u8]>) -> Option<Seq<u8>> {
    match s {
        Some(t) => Some(t@),
        None => None,
    }
}

/// A session is used only for the exact host that was connected to, in time, and
/// never for another protocol than HTTP/1.1.
pub proof fn sessions_are_for_the_expected_host(
    expected: Seq<char>,
    cancelled: bool,
    late: bool,
    server_name: Option<Seq<char>>,
    alpn: Option<Seq<u8>>,
)
    ensures
        session_error(expected, cancelled, late, server_name, alpn) is None <==> {
            &&& !cancelled
            &&& !late
            &&& server_name is Some
            &&& host::normalized(server_name->0) == Ok::<Seq<char>, host::HostNormalizationError>(
                expected,
            )
            &&& alpn is Some ==> alpn->0 == vstd::utf8::encode_utf8(HTTP_1_1_ALPN@)
        },
{
}

/// What happens to a handshake.
pub enum HandshakeEvent {
    Started(HandshakeStart),
    Exchanged(HandshakeIo),
    /// The session was looked at; the error is why it is not used.
    Finished(Option<TlsTerminationError>),
    Restored(bool),
}

/// The stage after an event.
pub open spec fn handshake_step(s: HandshakeStage, event: HandshakeEvent) -> HandshakeStage {
    match event {
        HandshakeEvent::Started(start) => outcome(
            s == HandshakeStage::Starting,
            start_error(start),
            exchanging(start.handshaking),
        ).1,
        HandshakeEvent::Exchanged(io) => outcome(
            s == HandshakeStage::Exchanging,
            exchange_error(io),
            exchanged(io),
        ).1,
        HandshakeEvent::Finished(error) => outcome(
            s == HandshakeStage::Complete,
            error,
            HandshakeStage::Restoring,
        ).1,
        HandshakeEvent::Restored(ok) => outcome(
            s == HandshakeStage::Restoring,
            if ok {
                None
            } else {
                Some(TlsTerminationError::Socket)
            },
            HandshakeStage::Established,
        ).1,
    }
}

pub open spec fn handshake_run(events: Seq<HandshakeEvent>) -> HandshakeStage
    decreases events.len(),
{
    if events.len() == 0 {
        HandshakeStage::Starting
    } else {
        handshake_step(handshake_run(events.drop_last()), events.last())
    }
}

/// Whether an event leaves a session that needs no more flights.
pub open spec fn completes(event: HandshakeEvent) -> bool {
    match event {
        HandshakeEvent::Started(start) => start_error(start) is None && !start.handshaking,
        HandshakeEvent::Exchanged(io) => io matches HandshakeIo::Moved { handshaking, .. }
            && !handshaking,
        _ => false,
    }
}

/// What must have happened for a handshake to reach a stage.
pub open spec fn handshake_history(s: HandshakeStage, events: Seq<HandshakeEvent>) -> bool {
    let n = events.len() as int;
    match s {
        HandshakeStage::Starting => n == 0,
        HandshakeStage::Exchanging => n > 0,
        HandshakeStage::Complete => n > 0 && completes(events[n - 1]),
        HandshakeStage::Restoring => n > 1 && completes(events[n - 2]) && events[n - 1]
            == HandshakeEvent::Finished(None),
        HandshakeStage::Established => n > 2 && completes(events[n - 3]) && events[n - 2]
            == HandshakeEvent::Finished(None) && events[n - 1] == HandshakeEvent::Restored(true),
        HandshakeStage::Failed => n > 0,
    }
}

/// Whatever happens, a session is looked at only when it needs no more flights, is
/// used only when nothing was found wrong with it, and then gets its socket's timeouts
/// back.
pub proof fn sessions_are_complete(events: Seq<HandshakeEvent>)
    ensures
        handshake_history(handshake_run(events), events),
    decreases events.len(),
{
    if events.len() > 0 {
        let before = events.drop_last();
        sessions_are_complete(before);
        assert(forall|i: int| 0 <= i < before.len() ==> before[i] == events[i]);
    }
}

/// What waits, waits for the time that is left, but no more than twenty-five milliseconds,
/// so that a cancellation is seen. Nothing is moved where there is nothing to move; what has
/// no deadline is tried once.
pub proof fn waits_are_cut_short(empty: bool, cancelled: bool, deadline: Option<Option<u128>>)
    ensures
        ({
            let left = match deadline {
                Some(Some(n)) => n as int,
                _ => 0,
            };
            planned(empty, cancelled, deadline) == if empty {
                IoPlan::Nothing
            } else if cancelled {
                IoPlan::Fail(WaitError::Aborted)
            } else if deadline is None {
                IoPlan::Direct
            } else if left == 0 {
                IoPlan::Fail(WaitError::TimedOut)
            } else if left < 25_000_000 {
                IoPlan::Wait(left as u128)
            } else {
                IoPlan::Wait(25_000_000)
            }
        }),
{
}

/// Only what was interrupted, is late or would block is tried again.
pub proof fn slow_transfers_are_tried_again(kind: IoKind)
    ensures
        is_retryable(kind) <==> kind is Interrupted || kind is TimedOut || kind is WouldBlock,
{
}

/// A handshake that nothing goes against is established: it starts, moves bytes until the
/// peers agree, is looked at, and gives the socket back.
pub proof fn good_handshakes_are_established(start: HandshakeStart, any: bool, handshaking: bool)
    requires
        !start.cancelled,
        start.deadline,
        start.timeouts,
        start.connection,
    ensures
        handshake_step(HandshakeStage::Starting, HandshakeEvent::Started(start)) == (
        if start.handshaking {
            HandshakeStage::Exchanging
        } else {
            HandshakeStage::Complete
        }),
        any || !handshaking ==> handshake_step(
            HandshakeStage::Exchanging,
            HandshakeEvent::Exchanged(HandshakeIo::Moved { any, handshaking }),
        ) == (if handshaking {
            HandshakeStage::Exchanging
        } else {
            HandshakeStage::Complete
        }),
        handshake_step(HandshakeStage::Complete, HandshakeEvent::Finished(None))
            == HandshakeStage::Restoring,
        handshake_step(HandshakeStage::Restoring, HandshakeEvent::Restored(true))
            == HandshakeStage::Established,
{
}

/// What goes against a handshake is told in this order: a cancellation, no time, no
/// timeouts, no connection. A transfer that fails was cancelled, late, or fails as such, and
/// so does one that moves nothing while flights are missing.
pub proof fn faults_of_handshakes_are_named(
    start: HandshakeStart,
    any: bool,
    handshaking: bool,
    cancelled: bool,
    late: bool,
)
    ensures
        start_error(start) == (if start.cancelled {
            Some(TlsTerminationError::Cancelled)
        } else if !start.deadline {
            Some(TlsTerminationError::TimedOut)
        } else if !start.timeouts {
            Some(TlsTerminationError::Socket)
        } else if !start.connection {
            Some(TlsTerminationError::HandshakeFailed)
        } else {
            None
        }),
        exchange_error(HandshakeIo::Moved { any, handshaking }) == (if handshaking && !any {
            Some(TlsTerminationError::HandshakeFailed)
        } else {
            None
        }),
        exchange_error(HandshakeIo::Failed { cancelled, late }) == Some(
            if cancelled {
                TlsTerminationError::Cancelled
            } else if late {
                TlsTerminationError::TimedOut
            } else {
                TlsTerminationError::HandshakeFailed
            },
        ),
{
}

/// A session that is not used was cancelled, is late, is for another name or for none, or
/// speaks another protocol; the first of these is told.
pub proof fn faults_of_sessions_are_named(
    expected: Seq<char>,
    cancelled: bool,
    late: bool,
    server_name: Option<Seq<char>>,
    alpn: Option<Seq<u8>>,
)
    ensures
        ({
            let named = server_name matches Some(name) && host::normalized(name) == Ok::<
                Seq<char>,
                host::HostNormalizationError,
            >(expected);
            let spoken = alpn matches Some(a) ==> a == vstd::utf8::encode_utf8("http/1.1"@);
            let e = session_error(expected, cancelled, late, server_name, alpn);
            &&& e is None <==> !cancelled && !late && named && spoken
            &&& cancelled ==> e == Some(TlsTerminationError::Cancelled)
            &&& !cancelled && late ==> e == Some(TlsTerminationError::TimedOut)
            &&& !cancelled && !late && !named ==> e == Some(TlsTerminationError::ServerNameRejected)
            &&& !cancelled && !late && named && !spoken ==> e == Some(
                TlsTerminationError::ApplicationProtocolRejected,
            )
        }),
{
}

/// Each failure is told in its own words.
pub proof fn failures_of_handshakes_have_their_words(e: TlsTerminationError)
    ensures
        tls_error_text(e) == (match e {
            TlsTerminationError::Cancelled => "local TLS handshake was cancelled"@,
            TlsTerminationError::TimedOut => "local TLS handshake timed out"@,
            TlsTerminationError::HandshakeFailed => "local TLS handshake failed"@,
            TlsTerminationError::ServerNameRejected => "local TLS server name was rejected"@,
            TlsTerminationError::ApplicationProtocolRejected
                => "local TLS application protocol was rejected"@,
            TlsTerminationError::Socket => "local TLS socket configuration failed"@,
        }),
{
}

} // verus!
