//! CONNECT requests: the checks before anything is opened, and the steps to a
//! tunnel or to a local TLS session.

use crate::backend;
use crate::backend::{BackendError, ProxyRequest, ProxyRequestBody, ProxyRequestView};
use crate::body;
use crate::body::BodyFraming;
use crate::event::{BackendFailureKind, RequestRejectionReason};
use crate::forward;
use crate::host::NormalizedHost;
use crate::http1;
use crate::http1::{HeaderView, RequestHead, RequestHeadView};
use crate::reply;
use crate::reply::{Phase, RateLimitDecision, Refusal, Report};
use crate::tunnel::TunnelPumpOutcome;
use vstd::prelude::*;

verus! {

/// What a client is sent when its tunnel is there.
pub const CONNECT_ESTABLISHED_RESPONSE: &'static str =
    "HTTP/1.1 200 Connection Established\r\n\r\n";

pub open spec fn invalid(refusal: Refusal) -> Option<Report> {
    Some(Report::refused(refusal, RequestRejectionReason::InvalidRequest, false))
}

/// Why a CONNECT request is refused before anything is opened for it.
pub open spec fn connect_refusal(head: RequestHeadView, port_blocked: bool) -> Option<Report> {
    if forward::upgrade_requested(head.headers) {
        invalid(Refusal::UpgradeUnsupported)
    } else if http1::values_of(head.headers, "expect"@).len() > 0 {
        invalid(Refusal::Expectation)
    } else {
        match body::framing_of(head.headers) {
            Err(e) => Some(Report::malformed(e, false)),
            Ok(framing) => if framing != BodyFraming::NoBody && framing
                != BodyFraming::ContentLength(0) {
                invalid(Refusal::ConnectBody)
            } else if port_blocked {
                invalid(Refusal::PortDenied)
            } else {
                None
            },
        }
    }
}

fn refuse_invalid(refusal: Refusal) -> (r: Option<Report>)
    ensures
        r == invalid(refusal),
{
    Some(Report::refuse(refusal, RequestRejectionReason::InvalidRequest, false))
}

/// Checks a CONNECT request; `port_blocked` is the network policy's word on its
/// port.
pub fn check_connect(head: &RequestHead, port_blocked: bool) -> (r: Option<Report>)
    ensures
        r == connect_refusal(head@, port_blocked),
{
    if forward::requests_upgrade(head) {
        return refuse_invalid(Refusal::UpgradeUnsupported);
    }
    let expectations = head.header_values("expect");
    assert(http1::texts(expectations@).len() == expectations@.len());
    if expectations.len() > 0 {
        return refuse_invalid(Refusal::Expectation);
    }
    match body::determine_body_framing(head.headers()) {
        Err(e) => Some(Report::refuse_http(e, false)),
        Ok(framing) => {
            let empty = match framing {
                BodyFraming::NoBody => true,
                BodyFraming::ContentLength(n) => n == 0,
                BodyFraming::Chunked => false,
            };
            if !empty {
                refuse_invalid(Refusal::ConnectBody)
            } else if port_blocked {
                refuse_invalid(Refusal::PortDenied)
            } else {
                None
            }
        },
    }
}

pub open spec fn connect_request_of(host: Seq<char>, port: u16) -> ProxyRequestView {
    ProxyRequestView {
        method: "CONNECT"@,
        scheme: "https"@,
        host,
        port,
        path_and_query: "/"@,
        headers: Seq::<HeaderView>::empty(),
        body: Seq::<u8>::empty(),
    }
}

/// The request with which the backend is asked for a tunnel. It carries nothing
/// of the client's.
pub fn connect_request(host: &NormalizedHost, port: u16) -> (r: ProxyRequest)
    ensures
        r@ == connect_request_of(host@, port),
        r.body is Empty,
{
    let r = ProxyRequest {
        method: "CONNECT".to_owned(),
        scheme: "https".to_owned(),
        host: host.as_str().to_owned(),
        port,
        path_and_query: "/".to_owned(),
        headers: Vec::new(),
        body: ProxyRequestBody::Empty,
    };
    assert(backend::proxy_header_views(r.headers@) == Seq::<HeaderView>::empty());
    assert(r@.body == Seq::<u8>::empty());
    r
}

/// What the backend made of a CONNECT request.
#[derive(Clone, Copy, Debug, PartialEq, Eq, Structural)]
pub enum ConnectOutcome {
    Failed(BackendError),
    /// TLS ends here, with a local identity.
    InterceptLocally,
    /// TLS ends at the origin.
    WebPkiPassthrough,
    /// TLS would end at the origin, which cannot be reached.
    WebPkiUnavailable,
}

#[derive(Clone, Copy, Debug, PartialEq, Eq, Structural)]
pub enum ConnectStage {
    Checking,
    Limiting,
    Opening,
    Publishing,
    Tunnelling,
    Preparing,
    Establishing,
    Handshaking,
    Serving,
    Closed,
}

#[derive(Clone, Copy, Debug, PartialEq, Eq, Structural)]
pub enum ConnectEvent {
    Checked { refusal: Option<Report>, cancelled: bool },
    Limited(RateLimitDecision),
    Opened(ConnectOutcome),
    /// The established response was published under its permit, or not.
    Published(bool),
    Pumped(TunnelPumpOutcome),
    /// A local identity is there, or not.
    Prepared(bool),
    /// The established response was written, or not.
    Established(bool),
    Handshaken { ok: bool, cancelled: bool },
    Served,
}

#[derive(Clone, Copy, Debug, PartialEq, Eq, Structural)]
pub enum ConnectAction {
    CheckRate,
    OpenBackend,
    PublishEstablished,
    /// Observe the decision, then copy until the tunnel ends.
    PumpTunnel,
    PrepareIdentity,
    WriteEstablished,
    Handshake,
    ServeInside(Report),
    /// Say goodbye on the TLS session.
    CloseSession,
    Close { report: Report, shutdown: bool },
}

pub open spec fn closing(report: Report) -> (ConnectStage, ConnectAction) {
    (ConnectStage::Closed, ConnectAction::Close { report, shutdown: false })
}

/// The report of a tunnel that ended.
pub open spec fn pumped(outcome: TunnelPumpOutcome, status: u16) -> Report {
    match outcome {
        TunnelPumpOutcome::Completed => Report::of_phase(Phase::Completed(status)),
        TunnelPumpOutcome::OriginIo => Report::of_phase(
            Phase::BackendFailed(BackendFailureKind::Upstream),
        ),
        TunnelPumpOutcome::ClientIo | TunnelPumpOutcome::Cancelled => Report::silent(),
    }
}

pub fn report_pumped(outcome: TunnelPumpOutcome, status: u16) -> (r: Report)
    ensures
        r == pumped(outcome, status),
{
    match outcome {
        TunnelPumpOutcome::Completed => Report::phase(Phase::Completed(status)),
        TunnelPumpOutcome::OriginIo => Report::phase(
            Phase::BackendFailed(BackendFailureKind::Upstream),
        ),
        TunnelPumpOutcome::ClientIo | TunnelPumpOutcome::Cancelled => Report::nothing(),
    }
}

/// What the backend's answer leads to.
pub open spec fn opened(outcome: ConnectOutcome) -> (ConnectStage, ConnectAction) {
    match outcome {
        ConnectOutcome::Failed(e) => closing(
            if e == BackendError::Cancelled {
                Report::silent()
            } else {
                Report {
                    client: None,
                    phase: Some(Phase::BackendFailed(reply::failure_kind_of(e))),
                    main_frame: false,
                    reply: Some(Refusal::ConnectBackend(e)),
                }
            },
        ),
        ConnectOutcome::WebPkiUnavailable => closing(
            Report::refused(
                Refusal::WebPkiUnavailable,
                RequestRejectionReason::InvalidRequest,
                false,
            ),
        ),
        ConnectOutcome::WebPkiPassthrough => (
            ConnectStage::Publishing,
            ConnectAction::PublishEstablished,
        ),
        ConnectOutcome::InterceptLocally => (
            ConnectStage::Preparing,
            ConnectAction::PrepareIdentity,
        ),
    }
}

/// The next stage and what to do.
pub open spec fn connect_step(s: ConnectStage, event: ConnectEvent) -> (
    ConnectStage,
    ConnectAction,
) {
    match (s, event) {
        (ConnectStage::Checking, ConnectEvent::Checked { refusal, cancelled }) => match refusal {
            Some(report) => closing(report),
            None => if cancelled {
                closing(Report::of_phase(Phase::Rejected(RequestRejectionReason::Cancelled)))
            } else {
                (ConnectStage::Limiting, ConnectAction::CheckRate)
            },
        },
        (ConnectStage::Limiting, ConnectEvent::Limited(decision)) => match reply::rate_report(
            decision,
            false,
        ) {
            Some(report) => closing(report),
            None => (ConnectStage::Opening, ConnectAction::OpenBackend),
        },
        (ConnectStage::Opening, ConnectEvent::Opened(outcome)) => opened(outcome),
        (ConnectStage::Publishing, ConnectEvent::Published(ok)) => if ok {
            (ConnectStage::Tunnelling, ConnectAction::PumpTunnel)
        } else {
            (
                ConnectStage::Closed,
                ConnectAction::Close { report: Report::silent(), shutdown: true },
            )
        },
        (ConnectStage::Tunnelling, ConnectEvent::Pumped(outcome)) => closing(
            pumped(outcome, 200),
        ),
        (ConnectStage::Preparing, ConnectEvent::Prepared(ok)) => if ok {
            (ConnectStage::Establishing, ConnectAction::WriteEstablished)
        } else {
            closing(
                Report::refused(
                    Refusal::LocalTlsUnavailable,
                    RequestRejectionReason::InvalidRequest,
                    false,
                ),
            )
        },
        (ConnectStage::Establishing, ConnectEvent::Established(ok)) => if ok {
            (ConnectStage::Handshaking, ConnectAction::Handshake)
        } else {
            closing(Report::silent())
        },
        (ConnectStage::Handshaking, ConnectEvent::Handshaken { ok, cancelled }) => if ok {
            (
                ConnectStage::Serving,
                ConnectAction::ServeInside(Report::of_phase(Phase::Completed(200))),
            )
        } else {
            closing(
                Report::of_phase(
                    Phase::Rejected(
                        if cancelled {
                            RequestRejectionReason::Cancelled
                        } else {
                            RequestRejectionReason::InvalidRequest
                        },
                    ),
                ),
            )
        },
        (ConnectStage::Serving, ConnectEvent::Served) => (
            ConnectStage::Closed,
            ConnectAction::CloseSession,
        ),
        _ => closing(Report::silent()),
    }
}

/// The way of one CONNECT request.
#[derive(Clone, Copy, Debug, PartialEq, Eq, Structural)]
pub struct ConnectFlow {
    pub stage: ConnectStage,
}

impl ConnectFlow {
    pub fn new() -> (r: Self)
        ensures
            r.stage == ConnectStage::Checking,
    {
        ConnectFlow { stage: ConnectStage::Checking }
    }

    fn close(&mut self, report: Report) -> (r: ConnectAction)
        ensures
            (final(self).stage, r) == closing(report),
    {
        self.stage = ConnectStage::Closed;
        ConnectAction::Close { report, shutdown: false }
    }

    fn go(&mut self, stage: ConnectStage, action: ConnectAction) -> (r: ConnectAction)
        ensures
            final(self).stage == stage,
            r == action,
    {
        self.stage = stage;
        action
    }

    fn after_opening(&mut self, outcome: ConnectOutcome) -> (r: ConnectAction)
        ensures
            (final(self).stage, r) == opened(outcome),
    {
        match outcome {
            ConnectOutcome::Failed(BackendError::Cancelled) => {
                let report = Report::nothing();
                self.close(report)
            },
            ConnectOutcome::Failed(e) => {
                let report = Report {
                    client: None,
                    phase: Some(Phase::BackendFailed(reply::backend_failure_kind(e))),
                    main_frame: false,
                    reply: Some(Refusal::ConnectBackend(e)),
                };
                self.close(report)
            },
            ConnectOutcome::WebPkiUnavailable => {
                let report = Report::refuse(
                    Refusal::WebPkiUnavailable,
                    RequestRejectionReason::InvalidRequest,
                    false,
                );
                self.close(report)
            },
            ConnectOutcome::WebPkiPassthrough => self.go(
                ConnectStage::Publishing,
                ConnectAction::PublishEstablished,
            ),
            ConnectOutcome::InterceptLocally => self.go(
                ConnectStage::Preparing,
                ConnectAction::PrepareIdentity,
            ),
        }
    }

    pub fn step(&mut self, event: ConnectEvent) -> (r: ConnectAction)
        ensures
            (final(self).stage, r) == connect_step(old(self).stage, event),
    {
        match (self.stage, event) {
            (ConnectStage::Checking, ConnectEvent::Checked { refusal, cancelled }) => {
                match refusal {
                    Some(report) => self.close(report),
                    None => if cancelled {
                        let report = Report::phase(
                            Phase::Rejected(RequestRejectionReason::Cancelled),
                        );
                        self.close(report)
                    } else {
                        self.go(ConnectStage::Limiting, ConnectAction::CheckRate)
                    },
                }
            },
            (ConnectStage::Limiting, ConnectEvent::Limited(decision)) => {
                match reply::admit_rate(decision, false) {
                    Some(report) => self.close(report),
                    None => self.go(ConnectStage::Opening, ConnectAction::OpenBackend),
                }
            },
            (ConnectStage::Opening, ConnectEvent::Opened(outcome)) => self.after_opening(outcome),
            (ConnectStage::Publishing, ConnectEvent::Published(ok)) => if ok {
                self.go(ConnectStage::Tunnelling, ConnectAction::PumpTunnel)
            } else {
                let report = Report::nothing();
                self.go(
                    ConnectStage::Closed,
                    ConnectAction::Close { report, shutdown: true },
                )
            },
            (ConnectStage::Tunnelling, ConnectEvent::Pumped(outcome)) => {
                let report = report_pumped(outcome, 200);
                self.close(report)
            },
            (ConnectStage::Preparing, ConnectEvent::Prepared(ok)) => if ok {
                self.go(ConnectStage::Establishing, ConnectAction::WriteEstablished)
            } else {
                let report = Report::refuse(
                    Refusal::LocalTlsUnavailable,
                    RequestRejectionReason::InvalidRequest,
                    false,
                );
                self.close(report)
            },
            (ConnectStage::Establishing, ConnectEvent::Established(ok)) => if ok {
                self.go(ConnectStage::Handshaking, ConnectAction::Handshake)
            } else {
                let report = Report::nothing();
                self.close(report)
            },
            (ConnectStage::Handshaking, ConnectEvent::Handshaken { ok, cancelled }) => if ok {
                let report = Report::phase(Phase::Completed(200));
                self.go(ConnectStage::Serving, ConnectAction::ServeInside(report))
            } else {
                let reason = if cancelled {
                    RequestRejectionReason::Cancelled
                } else {
                    RequestRejectionReason::InvalidRequest
                };
                let report = Report::phase(Phase::Rejected(reason));
                self.close(report)
            },
            (ConnectStage::Serving, ConnectEvent::Served) => self.go(
                ConnectStage::Closed,
                ConnectAction::CloseSession,
            ),
            _ => {
                let report = Report::nothing();
                self.close(report)
            },
        }
    }
}

// ---------------------------------------------------------------------
// Laws
// ---------------------------------------------------------------------

/// The stage of a CONNECT request after a sequence of events.
pub open spec fn connect_run(events: Seq<ConnectEvent>) -> ConnectStage
    decreases events.len(),
{
    if events.len() == 0 {
        ConnectStage::Checking
    } else {
        connect_step(connect_run(events.drop_last()), events.last()).0
    }
}

/// The request passed every check and was not cancelled.
pub open spec fn was_checked(events: Seq<ConnectEvent>) -> bool {
    events.len() > 0 && events[0] == (ConnectEvent::Checked { refusal: None, cancelled: false })
}

/// The request was also within its rate limit.
pub open spec fn was_admitted(events: Seq<ConnectEvent>) -> bool {
    was_checked(events) && events.len() > 1 && events[1] == ConnectEvent::Limited(
        RateLimitDecision::Allowed,
    )
}

/// The backend also gave the answer.
pub open spec fn was_opened(events: Seq<ConnectEvent>, outcome: ConnectOutcome) -> bool {
    was_admitted(events) && events.len() > 2 && events[2] == ConnectEvent::Opened(outcome)
}

/// The events that lead to each stage.
pub open spec fn connect_history(s: ConnectStage, events: Seq<ConnectEvent>) -> bool {
    let intercepted = was_opened(events, ConnectOutcome::InterceptLocally);
    let passed = was_opened(events, ConnectOutcome::WebPkiPassthrough);
    match s {
        ConnectStage::Checking => events.len() == 0,
        ConnectStage::Limiting => was_checked(events) && events.len() == 1,
        ConnectStage::Opening => was_admitted(events) && events.len() == 2,
        ConnectStage::Publishing => passed && events.len() == 3,
        ConnectStage::Tunnelling => passed && events.len() == 4 && events[3]
            == ConnectEvent::Published(true),
        ConnectStage::Preparing => intercepted && events.len() == 3,
        ConnectStage::Establishing => intercepted && events.len() == 4 && events[3]
            == ConnectEvent::Prepared(true),
        ConnectStage::Handshaking => intercepted && events.len() == 5 && events[3]
            == ConnectEvent::Prepared(true) && events[4] == ConnectEvent::Established(true),
        ConnectStage::Serving => intercepted && events.len() == 6 && events[3]
            == ConnectEvent::Prepared(true) && events[4] == ConnectEvent::Established(true)
            && (events[5] matches ConnectEvent::Handshaken { ok, .. } && ok),
        ConnectStage::Closed => events.len() > 0,
    }
}

/// Whatever happens, the stages of a CONNECT request are reached in one order
/// only.
pub proof fn connects_proceed_in_order(events: Seq<ConnectEvent>)
    ensures
        connect_history(connect_run(events), events),
    decreases events.len(),
{
    if events.len() > 0 {
        let before = events.drop_last();
        connects_proceed_in_order(before);
        assert(forall|i: int| 0 <= i < before.len() ==> before[i] == events[i]);
        assert(events.last() == events[events.len() - 1]);
    }
}

/// What a sequence of events followed by one more makes the proxy do.
pub open spec fn connect_action(events: Seq<ConnectEvent>, event: ConnectEvent) -> ConnectAction {
    connect_step(connect_run(events), event).1
}

/// The backend is asked only for a request that passed every check, was not
/// cancelled and is within its rate limit.
pub proof fn backends_see_admitted_connects_only(events: Seq<ConnectEvent>, event: ConnectEvent)
    requires
        connect_action(events, event) == ConnectAction::OpenBackend,
    ensures
        was_admitted(events.push(event)),
{
    connects_proceed_in_order(events);
}

/// A local identity is prepared only after the backend said to intercept, so
/// neither its failure nor an unreachable origin ever leads to one.
pub proof fn identities_follow_interception(events: Seq<ConnectEvent>, event: ConnectEvent)
    requires
        connect_action(events, event) == ConnectAction::PrepareIdentity,
    ensures
        was_opened(events.push(event), ConnectOutcome::InterceptLocally),
{
    connects_proceed_in_order(events);
}

/// The client is told that its tunnel is there only after the backend opened one,
/// or after a local identity was prepared.
pub proof fn connections_are_established_late(events: Seq<ConnectEvent>, event: ConnectEvent)
    requires
        connect_action(events, event) == ConnectAction::PublishEstablished || connect_action(
            events,
            event,
        ) == ConnectAction::WriteEstablished,
    ensures
        was_opened(events.push(event), ConnectOutcome::WebPkiPassthrough) || (was_opened(
            events.push(event),
            ConnectOutcome::InterceptLocally,
        ) && event == ConnectEvent::Prepared(true)),
{
    connects_proceed_in_order(events);
}

/// Once the client was told that its tunnel is there, it is never sent a plain
/// answer of the proxy.
pub proof fn established_connections_get_no_plain_answer(
    events: Seq<ConnectEvent>,
    event: ConnectEvent,
)
    requires
        connect_run(events) is Publishing || connect_run(events) is Tunnelling || connect_run(
            events,
        ) is Establishing || connect_run(events) is Handshaking || connect_run(events) is Serving,
    ensures
        connect_action(events, event) matches ConnectAction::Close { report, .. }
            ==> report.reply is None,
{
}

/// A CONNECT is let through exactly where it asks for no upgrade and expects nothing, where
/// it has no body or an empty one, and where its port is not blocked. Each other is refused
/// for the first of these.
pub proof fn plain_connects_are_let_through(head: RequestHeadView, port_blocked: bool)
    ensures
        ({
            let upgrade = forward::upgrade_requested(head.headers);
            let expects = http1::values_of(head.headers, "expect"@).len() > 0;
            let framing = body::framing_of(head.headers);
            let empty = framing == Ok::<BodyFraming, http1::Http1Error>(BodyFraming::NoBody) || framing
                == Ok::<BodyFraming, http1::Http1Error>(BodyFraming::ContentLength(0));
            let refused = |refusal: Refusal|
                Some(
                    Report {
                        client: None,
                        phase: Some(Phase::Rejected(RequestRejectionReason::InvalidRequest)),
                        main_frame: false,
                        reply: Some(refusal),
                    },
                );
            let r = connect_refusal(head, port_blocked);
            &&& r is None <==> !upgrade && !expects && empty && !port_blocked
            &&& upgrade ==> r == refused(Refusal::UpgradeUnsupported)
            &&& !upgrade && expects ==> r == refused(Refusal::Expectation)
            &&& !upgrade && !expects && framing is Err ==> r == Some(
                Report::malformed(framing->Err_0, false),
            )
            &&& !upgrade && !expects && framing is Ok && !empty ==> r == refused(
                Refusal::ConnectBody,
            )
            &&& !upgrade && !expects && empty && port_blocked ==> r == refused(Refusal::PortDenied)
        }),
{
}

/// What the backend is asked for a CONNECT: the host and the port, over TLS, and nothing
/// of the request.
pub proof fn connects_ask_for_host_and_port(host: Seq<char>, port: u16)
    ensures
        connect_request_of(host, port) == (ProxyRequestView {
            method: "CONNECT"@,
            scheme: "https"@,
            host,
            port,
            path_and_query: "/"@,
            headers: Seq::empty(),
            body: Seq::empty(),
        }),
{
}

/// A connect that nothing goes against is served: it is checked, limited, opened and, where
/// it is intercepted, gets an identity, the established response and a handshake, and is
/// then served inside; where it is passed through, its established response is published
/// and its bytes are copied.
pub proof fn good_connects_are_served(cancelled: bool)
    ensures
        ({
            let checked = seq![ConnectEvent::Checked { refusal: None, cancelled: false }];
            let limited = checked.push(ConnectEvent::Limited(RateLimitDecision::Allowed));
            let intercepted = limited.push(ConnectEvent::Opened(ConnectOutcome::InterceptLocally));
            let prepared = intercepted.push(ConnectEvent::Prepared(true));
            let established = prepared.push(ConnectEvent::Established(true));
            let handshaken = ConnectEvent::Handshaken { ok: true, cancelled };
            let passed = limited.push(ConnectEvent::Opened(ConnectOutcome::WebPkiPassthrough));
            &&& connect_action(Seq::empty(), checked[0]) == ConnectAction::CheckRate
            &&& connect_action(checked, limited.last()) == ConnectAction::OpenBackend
            &&& connect_action(limited, intercepted.last()) == ConnectAction::PrepareIdentity
            &&& connect_action(intercepted, prepared.last()) == ConnectAction::WriteEstablished
            &&& connect_action(prepared, established.last()) == ConnectAction::Handshake
            &&& connect_action(established, handshaken) == ConnectAction::ServeInside(
                Report::of_phase(Phase::Completed(200)),
            )
            &&& connect_action(established.push(handshaken), ConnectEvent::Served)
                == ConnectAction::CloseSession
            &&& connect_action(limited, passed.last()) == ConnectAction::PublishEstablished
            &&& connect_action(passed, ConnectEvent::Published(true)) == ConnectAction::PumpTunnel
            &&& connect_action(
                passed.push(ConnectEvent::Published(true)),
                ConnectEvent::Pumped(TunnelPumpOutcome::Completed),
            ) == (ConnectAction::Close {
                report: Report::of_phase(Phase::Completed(200)),
                shutdown: false,
            })
        }),
{
    reveal_with_fuel(connect_run, 8);
    let checked = seq![ConnectEvent::Checked { refusal: None, cancelled: false }];
    let limited = checked.push(ConnectEvent::Limited(RateLimitDecision::Allowed));
    let intercepted = limited.push(ConnectEvent::Opened(ConnectOutcome::InterceptLocally));
    let prepared = intercepted.push(ConnectEvent::Prepared(true));
    let established = prepared.push(ConnectEvent::Established(true));
    let handshaken = ConnectEvent::Handshaken { ok: true, cancelled };
    let passed = limited.push(ConnectEvent::Opened(ConnectOutcome::WebPkiPassthrough));
    assert(checked.drop_last() =~= Seq::empty());
    assert(limited.drop_last() =~= checked);
    assert(intercepted.drop_last() =~= limited);
    assert(prepared.drop_last() =~= intercepted);
    assert(established.drop_last() =~= prepared);
    assert(established.push(handshaken).drop_last() =~= established);
    assert(passed.drop_last() =~= limited);
    assert(passed.push(ConnectEvent::Published(true)).drop_last() =~= passed);
}

/// What goes against a connect ends it, at its stage and with its report: a refusal as it
/// stands, a cancellation by its name, a limit with when to come back, a failed backend
/// with its answer but for a cancelled one, an unreachable origin, a missing identity; and
/// in silence what fails once the client has been answered.
pub proof fn failed_connects_end_with_their_reason(
    refusal: Report,
    cancelled: bool,
    decision: RateLimitDecision,
    failure: BackendError,
    outcome: TunnelPumpOutcome,
)
    ensures
        ({
            let ends = |s: ConnectStage, e: ConnectEvent, report: Report|
                connect_step(s, e) == (
                    ConnectStage::Closed,
                    ConnectAction::Close { report, shutdown: false },
                );
            let rejected = |reason: RequestRejectionReason|
                Report::of_phase(Phase::Rejected(reason));
            let answered = |r: Refusal|
                Report::refused(r, RequestRejectionReason::InvalidRequest, false);
            &&& ends(
                ConnectStage::Checking,
                ConnectEvent::Checked { refusal: Some(refusal), cancelled },
                refusal,
            )
            &&& ends(
                ConnectStage::Checking,
                ConnectEvent::Checked { refusal: None, cancelled: true },
                rejected(RequestRejectionReason::Cancelled),
            )
            &&& decision is Limited ==> ends(
                ConnectStage::Limiting,
                ConnectEvent::Limited(decision),
                reply::rate_report(decision, false)->0,
            )
            &&& failure !is Cancelled ==> ends(
                ConnectStage::Opening,
                ConnectEvent::Opened(ConnectOutcome::Failed(failure)),
                Report {
                    client: None,
                    phase: Some(Phase::BackendFailed(reply::failure_kind_of(failure))),
                    main_frame: false,
                    reply: Some(Refusal::ConnectBackend(failure)),
                },
            )
            &&& ends(
                ConnectStage::Opening,
                ConnectEvent::Opened(ConnectOutcome::Failed(BackendError::Cancelled)),
                Report::silent(),
            )
            &&& ends(
                ConnectStage::Opening,
                ConnectEvent::Opened(ConnectOutcome::WebPkiUnavailable),
                answered(Refusal::WebPkiUnavailable),
            )
            &&& ends(
                ConnectStage::Preparing,
                ConnectEvent::Prepared(false),
                answered(Refusal::LocalTlsUnavailable),
            )
            &&& ends(
                ConnectStage::Establishing,
                ConnectEvent::Established(false),
                Report::silent(),
            )
            &&& ends(
                ConnectStage::Handshaking,
                ConnectEvent::Handshaken { ok: false, cancelled },
                rejected(
                    if cancelled {
                        RequestRejectionReason::Cancelled
                    } else {
                        RequestRejectionReason::InvalidRequest
                    },
                ),
            )
            &&& connect_step(ConnectStage::Publishing, ConnectEvent::Published(false)) == (
                ConnectStage::Closed,
                ConnectAction::Close { report: Report::silent(), shutdown: true },
            )
            &&& ends(
                ConnectStage::Tunnelling,
                ConnectEvent::Pumped(outcome),
                match outcome {
                    TunnelPumpOutcome::Completed => Report::of_phase(Phase::Completed(200)),
                    TunnelPumpOutcome::OriginIo => Report::of_phase(
                        Phase::BackendFailed(BackendFailureKind::Upstream),
                    ),
                    _ => Report::silent(),
                },
            )
        }),
{
}

/// A CONNECT is checked, and asked of the backend, as it is meant.
pub proof fn connects_are_checked(
    head: &RequestHead,
    port_blocked: bool,
    refusal: Option<Report>,
    host: &NormalizedHost,
    port: u16,
    request: ProxyRequest,
)
    requires
        call_ensures(check_connect, (head, port_blocked), refusal),
        call_ensures(connect_request, (host, port), request),
    ensures
        refusal == connect_refusal(head@, port_blocked),
        request@ == connect_request_of(host@, port),
{
}

} // verus!
