//! Admitted requests: from the head to the backend, and from its response back to
//! the client.

use crate::backend;
use crate::backend::{
    BackendError, ProxyHeader, ProxyRequest, ProxyRequestBody, ProxyRequestView, ProxyResponseHead,
};
use crate::body;
use crate::body::BodyFraming;
use crate::connect;
use crate::event::{BackendFailureKind, RequestRejectionReason};
use crate::forward;
use crate::host::NormalizedHost;
use crate::http1;
use crate::http1::{HeaderView, Http1Error, RequestHead, RequestHeadView};
use crate::reply;
use crate::reply::{Phase, Refusal, Report};
use crate::response;
use crate::response::{
    EncodedResponseHead, EncodedView, SanitizedResponseHeaders, SanitizedView,
};
use crate::routing::{HttpRoute, RouteView};
use crate::tunnel::{TunnelPumpOutcome, WriteBackendError};
use vstd::prelude::*;

verus! {

/// The interim response that lets a waiting client send its body.
pub const CONTINUE_RESPONSE: &'static str = "HTTP/1.1 100 Continue\r\n\r\n";

// ---------------------------------------------------------------------
// Requests to the backend
// ---------------------------------------------------------------------

pub open spec fn backend_request(
    head: RequestHeadView,
    route: RouteView,
    host: Seq<char>,
    headers: Seq<HeaderView>,
    body: Seq<u8>,
) -> ProxyRequestView {
    ProxyRequestView {
        method: head.method,
        scheme: route.scheme.text(),
        host,
        port: route.port,
        path_and_query: route.path_and_query,
        headers,
        body,
    }
}

/// The request that the backend gets: the route and the canonical host, never the
/// raw target.
pub fn make_request(
    head: &RequestHead,
    route: &HttpRoute,
    host: &NormalizedHost,
    headers: Vec<ProxyHeader>,
    body: Vec<u8>,
) -> (r: ProxyRequest)
    ensures
        r@ == backend_request(
            head@,
            route@,
            host@,
            backend::proxy_header_views(headers@),
            body@,
        ),
        r.body is Empty <==> body@.len() == 0,
{
    ProxyRequest {
        method: head.method().to_owned(),
        scheme: route.scheme.as_str().to_owned(),
        host: host.as_str().to_owned(),
        port: route.port,
        path_and_query: route.path_and_query.as_str().to_owned(),
        headers,
        body: ProxyRequestBody::of(body),
    }
}

// ---------------------------------------------------------------------
// Ordinary requests
// ---------------------------------------------------------------------

/// What an ordinary request needs before it reaches the backend.
pub struct HttpPlan {
    pub framing: BodyFraming,
    /// The client waits for an interim response before it sends its body.
    pub send_continue: bool,
    pub main_frame: bool,
    pub headers: Vec<ProxyHeader>,
}

pub struct HttpPlanView {
    pub framing: BodyFraming,
    pub send_continue: bool,
    pub main_frame: bool,
    pub headers: Seq<HeaderView>,
}

impl View for HttpPlan {
    type V = HttpPlanView;

    open spec fn view(&self) -> HttpPlanView {
        HttpPlanView {
            framing: self.framing,
            send_continue: self.send_continue,
            main_frame: self.main_frame,
            headers: backend::proxy_header_views(self.headers@),
        }
    }
}

pub open spec fn exceeds(framing: BodyFraming, max_body_bytes: u64) -> bool {
    framing matches BodyFraming::ContentLength(n) && n > max_body_bytes
}

/// The plan of an ordinary request, or its refusal.
pub open spec fn http_plan_of(
    head: RequestHeadView,
    route: RouteView,
    host: Seq<char>,
    max_body_bytes: u64,
) -> Result<HttpPlanView, Report> {
    let main_frame = forward::is_navigation(head.method, head.headers, route.path_and_query);
    match body::framing_of(head.headers) {
        Err(e) => Err(Report::malformed(e, main_frame)),
        Ok(framing) => if exceeds(framing, max_body_bytes) {
            Err(Report::malformed(Http1Error::BodyTooLarge, main_frame))
        } else {
            match forward::continue_expected(head.headers) {
                None => Err(
                    Report::refused(
                        Refusal::Expectation,
                        RequestRejectionReason::InvalidRequest,
                        main_frame,
                    ),
                ),
                Some(expected) => match forward::with_host(
                    forward::sanitized(head.headers),
                    host,
                    route.port,
                    route.scheme,
                ) {
                    Err(e) => Err(Report::malformed(e, main_frame)),
                    Ok(headers) => Ok(
                        HttpPlanView {
                            framing,
                            send_continue: expected && framing != BodyFraming::NoBody,
                            main_frame,
                            headers,
                        },
                    ),
                },
            }
        },
    }
}

/// Plans an ordinary request. Everything that can be refused without its body
/// is refused here.
pub fn plan_http(
    head: &RequestHead,
    route: &HttpRoute,
    host: &NormalizedHost,
    max_body_bytes: u64,
) -> (r: Result<HttpPlan, Report>)
    ensures
        match (r, http_plan_of(head@, route@, host@, max_body_bytes)) {
            (Ok(p), Ok(v)) => p@ == v,
            (Err(e), Err(f)) => e == f,
            _ => false,
        },
{
    let main_frame = forward::is_likely_main_frame_navigation(
        head,
        route.path_and_query.as_str(),
    );
    let framing = match body::determine_body_framing(head.headers()) {
        Ok(f) => f,
        Err(e) => {
            return Err(Report::refuse_http(e, main_frame));
        },
    };
    let too_large = match framing {
        BodyFraming::ContentLength(n) => n > max_body_bytes,
        _ => false,
    };
    if too_large {
        return Err(Report::refuse_http(Http1Error::BodyTooLarge, main_frame));
    }
    let expected = match forward::expects_continue(head) {
        Ok(b) => b,
        Err(_) => {
            return Err(
                Report::refuse(
                    Refusal::Expectation,
                    RequestRejectionReason::InvalidRequest,
                    main_frame,
                ),
            );
        },
    };
    match forward::build_forward_headers(head, host.as_str(), route.port, route.scheme) {
        Err(e) => Err(Report::refuse_http(e, main_frame)),
        Ok(headers) => {
            let no_body = match framing {
                BodyFraming::NoBody => true,
                _ => false,
            };
            Ok(HttpPlan { framing, send_continue: expected && !no_body, main_frame, headers })
        },
    }
}

#[derive(Clone, Copy, Debug, PartialEq, Eq, Structural)]
pub enum HttpStage {
    Planning,
    Continuing,
    ReadingBody,
    Clearing,
    Executing,
    /// The response with this status is written.
    Writing(u16),
    Closed,
}

#[derive(Clone, Copy, Debug, PartialEq, Eq)]
pub enum HttpEvent {
    /// The request was planned, or refused.
    Planned { refusal: Option<Report>, send_continue: bool, main_frame: bool },
    /// The interim response was written, or not.
    Continued(bool),
    /// The body was read, or not.
    BodyRead(Option<Http1Error>),
    /// The read deadline was cleared, or not.
    Cleared { ok: bool, cancelled: bool },
    /// The backend responded with a status, or failed.
    Executed { result: Result<u16, BackendError>, cancelled: bool },
    /// The response was written, or not.
    Written { result: Result<(), WriteBackendError>, cancelled: bool },
}

#[derive(Clone, Copy, Debug, PartialEq, Eq, Structural)]
pub enum HttpAction {
    SendContinue,
    ReadBody,
    ClearDeadline,
    Execute,
    WriteResponse,
    Close(Report),
}

/// The report of a backend that failed. The client is answered unless the work
/// was cancelled.
pub open spec fn backend_failed(error: BackendError, cancelled: bool, main_frame: bool) -> Report {
    let answered = error != BackendError::Cancelled && !cancelled;
    Report {
        client: None,
        phase: Some(Phase::BackendFailed(reply::failure_kind_of(error))),
        main_frame: answered && main_frame,
        reply: if answered {
            Some(Refusal::Backend(error))
        } else {
            None
        },
    }
}

pub fn report_backend_failure(error: BackendError, cancelled: bool, main_frame: bool) -> (r: Report)
    ensures
        r == backend_failed(error, cancelled, main_frame),
{
    let answered = error != BackendError::Cancelled && !cancelled;
    Report {
        client: None,
        phase: Some(Phase::BackendFailed(reply::backend_failure_kind(error))),
        main_frame: answered && main_frame,
        reply: if answered {
            Some(Refusal::Backend(error))
        } else {
            None
        },
    }
}

/// The report of a response that was delivered, or not. An invalid one is
/// answered for only while nothing of it was sent.
pub open spec fn response_written(
    status: u16,
    result: Result<(), WriteBackendError>,
    cancelled: bool,
    main_frame: bool,
) -> Report {
    match result {
        Ok(()) => Report::of_phase(Phase::Completed(status)),
        Err(WriteBackendError::Io) => Report::silent(),
        Err(WriteBackendError::InvalidAfterHead) => Report::of_phase(
            Phase::BackendFailed(BackendFailureKind::InvalidResponse),
        ),
        Err(WriteBackendError::InvalidBeforeHead) => invalid_response(cancelled, main_frame),
    }
}

/// The report of a response that cannot be sent at all.
pub open spec fn invalid_response(cancelled: bool, main_frame: bool) -> Report {
    Report {
        client: None,
        phase: Some(Phase::BackendFailed(BackendFailureKind::InvalidResponse)),
        main_frame: !cancelled && main_frame,
        reply: if cancelled {
            None
        } else {
            Some(Refusal::InvalidUpstream)
        },
    }
}

pub fn report_invalid_response(cancelled: bool, main_frame: bool) -> (r: Report)
    ensures
        r == invalid_response(cancelled, main_frame),
{
    Report {
        client: None,
        phase: Some(Phase::BackendFailed(BackendFailureKind::InvalidResponse)),
        main_frame: !cancelled && main_frame,
        reply: if cancelled {
            None
        } else {
            Some(Refusal::InvalidUpstream)
        },
    }
}

pub fn report_written(
    status: u16,
    result: Result<(), WriteBackendError>,
    cancelled: bool,
    main_frame: bool,
) -> (r: Report)
    ensures
        r == response_written(status, result, cancelled, main_frame),
{
    match result {
        Ok(()) => Report::phase(Phase::Completed(status)),
        Err(WriteBackendError::Io) => Report::nothing(),
        Err(WriteBackendError::InvalidAfterHead) => Report::phase(
            Phase::BackendFailed(BackendFailureKind::InvalidResponse),
        ),
        Err(WriteBackendError::InvalidBeforeHead) => report_invalid_response(cancelled, main_frame),
    }
}

/// The report of a request whose connection could not be readied, or that was
/// cancelled before it reached the backend.
pub open spec fn not_ready(ok: bool) -> Report {
    Report::of_phase(
        Phase::Rejected(
            if ok {
                RequestRejectionReason::Cancelled
            } else {
                RequestRejectionReason::InvalidRequest
            },
        ),
    )
}

pub fn report_not_ready(ok: bool) -> (r: Report)
    ensures
        r == not_ready(ok),
{
    let reason = if ok {
        RequestRejectionReason::Cancelled
    } else {
        RequestRejectionReason::InvalidRequest
    };
    Report::phase(Phase::Rejected(reason))
}

/// The way of one ordinary request.
#[derive(Clone, Copy, Debug, PartialEq, Eq, Structural)]
pub struct HttpFlow {
    pub stage: HttpStage,
    pub main_frame: bool,
}

pub open spec fn http_close(s: HttpFlow, report: Report) -> (HttpFlow, HttpAction) {
    (HttpFlow { stage: HttpStage::Closed, ..s }, HttpAction::Close(report))
}

pub open spec fn http_go(s: HttpFlow, stage: HttpStage, action: HttpAction) -> (
    HttpFlow,
    HttpAction,
) {
    (HttpFlow { stage, ..s }, action)
}

/// The next state and what to do.
pub open spec fn http_step(s: HttpFlow, event: HttpEvent) -> (HttpFlow, HttpAction) {
    match (s.stage, event) {
        (HttpStage::Planning, HttpEvent::Planned { refusal, send_continue, main_frame }) => {
            let s = HttpFlow { main_frame, ..s };
            match refusal {
                Some(report) => http_close(s, report),
                None => if send_continue {
                    http_go(s, HttpStage::Continuing, HttpAction::SendContinue)
                } else {
                    http_go(s, HttpStage::ReadingBody, HttpAction::ReadBody)
                },
            }
        },
        (HttpStage::Continuing, HttpEvent::Continued(ok)) => if ok {
            http_go(s, HttpStage::ReadingBody, HttpAction::ReadBody)
        } else {
            http_close(s, Report::silent())
        },
        (HttpStage::ReadingBody, HttpEvent::BodyRead(error)) => match error {
            Some(e) => http_close(s, Report::malformed(e, s.main_frame)),
            None => http_go(s, HttpStage::Clearing, HttpAction::ClearDeadline),
        },
        (HttpStage::Clearing, HttpEvent::Cleared { ok, cancelled }) => if !ok || cancelled {
            http_close(s, not_ready(ok))
        } else {
            http_go(s, HttpStage::Executing, HttpAction::Execute)
        },
        (HttpStage::Executing, HttpEvent::Executed { result, cancelled }) => match result {
            Err(e) => http_close(s, backend_failed(e, cancelled, s.main_frame)),
            Ok(status) => if cancelled {
                http_close(s, Report::silent())
            } else {
                http_go(s, HttpStage::Writing(status), HttpAction::WriteResponse)
            },
        },
        (HttpStage::Writing(status), HttpEvent::Written { result, cancelled }) => http_close(
            s,
            response_written(status, result, cancelled, s.main_frame),
        ),
        _ => http_close(s, Report::silent()),
    }
}

impl HttpFlow {
    pub fn new() -> (r: Self)
        ensures
            r == (HttpFlow { stage: HttpStage::Planning, main_frame: false }),
    {
        HttpFlow { stage: HttpStage::Planning, main_frame: false }
    }

    fn close(&mut self, report: Report) -> (r: HttpAction)
        ensures
            (*final(self), r) == http_close(*old(self), report),
    {
        self.stage = HttpStage::Closed;
        HttpAction::Close(report)
    }

    fn go(&mut self, stage: HttpStage, action: HttpAction) -> (r: HttpAction)
        ensures
            (*final(self), r) == http_go(*old(self), stage, action),
    {
        self.stage = stage;
        action
    }

    pub fn step(&mut self, event: HttpEvent) -> (r: HttpAction)
        ensures
            (*final(self), r) == http_step(*old(self), event),
    {
        match (self.stage, event) {
            (HttpStage::Planning, HttpEvent::Planned { refusal, send_continue, main_frame }) => {
                self.main_frame = main_frame;
                match refusal {
                    Some(report) => self.close(report),
                    None => if send_continue {
                        self.go(HttpStage::Continuing, HttpAction::SendContinue)
                    } else {
                        self.go(HttpStage::ReadingBody, HttpAction::ReadBody)
                    },
                }
            },
            (HttpStage::Continuing, HttpEvent::Continued(ok)) => if ok {
                self.go(HttpStage::ReadingBody, HttpAction::ReadBody)
            } else {
                let report = Report::nothing();
                self.close(report)
            },
            (HttpStage::ReadingBody, HttpEvent::BodyRead(error)) => match error {
                Some(e) => {
                    let report = Report::refuse_http(e, self.main_frame);
                    self.close(report)
                },
                None => self.go(HttpStage::Clearing, HttpAction::ClearDeadline),
            },
            (HttpStage::Clearing, HttpEvent::Cleared { ok, cancelled }) => if !ok || cancelled {
                let report = report_not_ready(ok);
                self.close(report)
            } else {
                self.go(HttpStage::Executing, HttpAction::Execute)
            },
            (HttpStage::Executing, HttpEvent::Executed { result, cancelled }) => match result {
                Err(e) => {
                    let report = report_backend_failure(e, cancelled, self.main_frame);
                    self.close(report)
                },
                Ok(status) => if cancelled {
                    let report = Report::nothing();
                    self.close(report)
                } else {
                    self.go(HttpStage::Writing(status), HttpAction::WriteResponse)
                },
            },
            (HttpStage::Writing(status), HttpEvent::Written { result, cancelled }) => {
                let report = report_written(status, result, cancelled, self.main_frame);
                self.close(report)
            },
            _ => {
                let report = Report::nothing();
                self.close(report)
            },
        }
    }
}

// ---------------------------------------------------------------------
// Upgrades
// ---------------------------------------------------------------------

/// The fields of an upgrade request to the backend, or its refusal.
pub open spec fn upgrade_plan_of(head: RequestHeadView, route: RouteView, host: Seq<char>) -> Result<
    Seq<HeaderView>,
    Report,
> {
    match body::framing_of(head.headers) {
        Err(e) => Err(Report::malformed(e, false)),
        Ok(framing) => if framing != BodyFraming::NoBody && framing != BodyFraming::ContentLength(
            0,
        ) {
            Err(
                Report::refused(
                    Refusal::UpgradeBody,
                    RequestRejectionReason::InvalidRequest,
                    false,
                ),
            )
        } else if http1::values_of(head.headers, "expect"@).len() > 0 {
            Err(
                Report::refused(
                    Refusal::Expectation,
                    RequestRejectionReason::InvalidRequest,
                    false,
                ),
            )
        } else {
            match forward::with_host(
                forward::sanitized_upgrade(head.headers),
                host,
                route.port,
                route.scheme,
            ) {
                Err(e) => Err(Report::malformed(e, false)),
                Ok(headers) => Ok(headers),
            }
        },
    }
}

/// Plans an upgrade request.
pub fn plan_upgrade(head: &RequestHead, route: &HttpRoute, host: &NormalizedHost) -> (r: Result<
    Vec<ProxyHeader>,
    Report,
>)
    ensures
        match (r, upgrade_plan_of(head@, route@, host@)) {
            (Ok(h), Ok(v)) => backend::proxy_header_views(h@) == v,
            (Err(e), Err(f)) => e == f,
            _ => false,
        },
{
    let framing = match body::determine_body_framing(head.headers()) {
        Ok(f) => f,
        Err(e) => {
            return Err(Report::refuse_http(e, false));
        },
    };
    let empty = match framing {
        BodyFraming::NoBody => true,
        BodyFraming::ContentLength(n) => n == 0,
        BodyFraming::Chunked => false,
    };
    if !empty {
        return Err(
            Report::refuse(Refusal::UpgradeBody, RequestRejectionReason::InvalidRequest, false),
        );
    }
    let expectations = head.header_values("expect");
    assert(http1::texts(expectations@).len() == expectations@.len());
    if expectations.len() > 0 {
        return Err(
            Report::refuse(Refusal::Expectation, RequestRejectionReason::InvalidRequest, false),
        );
    }
    match forward::build_upgrade_forward_headers(head, host.as_str(), route.port, route.scheme) {
        Err(e) => Err(Report::refuse_http(e, false)),
        Ok(headers) => Ok(headers),
    }
}

/// What the backend made of an upgrade request.
#[derive(Clone, Copy, Debug, PartialEq, Eq, Structural)]
pub enum UpgradeOutcome {
    Failed(BackendError),
    Tunnel,
    /// An ordinary response with this status.
    Response(u16),
}

#[derive(Clone, Copy, Debug, PartialEq, Eq, Structural)]
pub enum UpgradeStage {
    Planning,
    Clearing,
    Opening,
    Writing(u16),
    Encoding,
    Publishing,
    Pumping,
    Closed,
}

#[derive(Clone, Copy, Debug, PartialEq, Eq)]
pub enum UpgradeEvent {
    /// The request was planned, or refused.
    Planned(Option<Report>),
    /// The read deadline was cleared, or not.
    Cleared { ok: bool, cancelled: bool },
    Opened { outcome: UpgradeOutcome, cancelled: bool },
    /// The ordinary response was written, or not.
    Written { result: Result<(), WriteBackendError>, cancelled: bool },
    /// The switching head is valid, or not.
    Encoded { ok: bool, cancelled: bool },
    /// The switching head was published under its permit, or not.
    Published(bool),
    Pumped(TunnelPumpOutcome),
}

#[derive(Clone, Copy, Debug, PartialEq, Eq, Structural)]
pub enum UpgradeAction {
    ClearDeadline,
    OpenTunnel,
    WriteResponse,
    EncodeHead,
    PublishHead,
    /// Observe the metadata, then copy until the tunnel ends.
    PumpTunnel,
    Close(Report),
}

pub open spec fn upgrade_close(report: Report) -> (UpgradeStage, UpgradeAction) {
    (UpgradeStage::Closed, UpgradeAction::Close(report))
}

/// The next stage and what to do.
pub open spec fn upgrade_step(s: UpgradeStage, event: UpgradeEvent) -> (
    UpgradeStage,
    UpgradeAction,
) {
    match (s, event) {
        (UpgradeStage::Planning, UpgradeEvent::Planned(refusal)) => match refusal {
            Some(report) => upgrade_close(report),
            None => (UpgradeStage::Clearing, UpgradeAction::ClearDeadline),
        },
        (UpgradeStage::Clearing, UpgradeEvent::Cleared { ok, cancelled }) => if !ok || cancelled {
            upgrade_close(not_ready(ok))
        } else {
            (UpgradeStage::Opening, UpgradeAction::OpenTunnel)
        },
        (UpgradeStage::Opening, UpgradeEvent::Opened { outcome, cancelled }) => match outcome {
            UpgradeOutcome::Failed(e) => upgrade_close(backend_failed(e, cancelled, false)),
            UpgradeOutcome::Tunnel => if cancelled {
                upgrade_close(Report::silent())
            } else {
                (UpgradeStage::Encoding, UpgradeAction::EncodeHead)
            },
            UpgradeOutcome::Response(status) => if cancelled {
                upgrade_close(Report::silent())
            } else {
                (UpgradeStage::Writing(status), UpgradeAction::WriteResponse)
            },
        },
        (UpgradeStage::Writing(status), UpgradeEvent::Written { result, cancelled }) =>
            upgrade_close(response_written(status, result, cancelled, false)),
        (UpgradeStage::Encoding, UpgradeEvent::Encoded { ok, cancelled }) => if !ok {
            upgrade_close(invalid_response(cancelled, false))
        } else if cancelled {
            upgrade_close(Report::silent())
        } else {
            (UpgradeStage::Publishing, UpgradeAction::PublishHead)
        },
        (UpgradeStage::Publishing, UpgradeEvent::Published(ok)) => if ok {
            (UpgradeStage::Pumping, UpgradeAction::PumpTunnel)
        } else {
            upgrade_close(Report::silent())
        },
        (UpgradeStage::Pumping, UpgradeEvent::Pumped(outcome)) => upgrade_close(
            connect::pumped(outcome, 101),
        ),
        _ => upgrade_close(Report::silent()),
    }
}

/// The way of one upgrade request.
#[derive(Clone, Copy, Debug, PartialEq, Eq, Structural)]
pub struct UpgradeFlow {
    pub stage: UpgradeStage,
}

impl UpgradeFlow {
    pub fn new() -> (r: Self)
        ensures
            r.stage == UpgradeStage::Planning,
    {
        UpgradeFlow { stage: UpgradeStage::Planning }
    }

    fn close(&mut self, report: Report) -> (r: UpgradeAction)
        ensures
            (final(self).stage, r) == upgrade_close(report),
    {
        self.stage = UpgradeStage::Closed;
        UpgradeAction::Close(report)
    }

    fn go(&mut self, stage: UpgradeStage, action: UpgradeAction) -> (r: UpgradeAction)
        ensures
            final(self).stage == stage,
            r == action,
    {
        self.stage = stage;
        action
    }

    fn go_unless(
        &mut self,
        cancelled: bool,
        stage: UpgradeStage,
        action: UpgradeAction,
    ) -> (r: UpgradeAction)
        ensures
            (final(self).stage, r) == (if cancelled {
                upgrade_close(Report::silent())
            } else {
                (stage, action)
            }),
    {
        if cancelled {
            let report = Report::nothing();
            self.close(report)
        } else {
            self.go(stage, action)
        }
    }

    pub fn step(&mut self, event: UpgradeEvent) -> (r: UpgradeAction)
        ensures
            (final(self).stage, r) == upgrade_step(old(self).stage, event),
    {
        match (self.stage, event) {
            (UpgradeStage::Planning, UpgradeEvent::Planned(refusal)) => match refusal {
                Some(report) => self.close(report),
                None => self.go(UpgradeStage::Clearing, UpgradeAction::ClearDeadline),
            },
            (UpgradeStage::Clearing, UpgradeEvent::Cleared { ok, cancelled }) => {
                if !ok || cancelled {
                    let report = report_not_ready(ok);
                    self.close(report)
                } else {
                    self.go(UpgradeStage::Opening, UpgradeAction::OpenTunnel)
                }
            },
            (UpgradeStage::Opening, UpgradeEvent::Opened { outcome, cancelled }) => {
                match outcome {
                    UpgradeOutcome::Failed(e) => {
                        let report = report_backend_failure(e, cancelled, false);
                        self.close(report)
                    },
                    UpgradeOutcome::Tunnel => self.go_unless(
                        cancelled,
                        UpgradeStage::Encoding,
                        UpgradeAction::EncodeHead,
                    ),
                    UpgradeOutcome::Response(status) => self.go_unless(
                        cancelled,
                        UpgradeStage::Writing(status),
                        UpgradeAction::WriteResponse,
                    ),
                }
            },
            (UpgradeStage::Writing(status), UpgradeEvent::Written { result, cancelled }) => {
                let report = report_written(status, result, cancelled, false);
                self.close(report)
            },
            (UpgradeStage::Encoding, UpgradeEvent::Encoded { ok, cancelled }) => if !ok {
                let report = report_invalid_response(cancelled, false);
                self.close(report)
            } else {
                self.go_unless(cancelled, UpgradeStage::Publishing, UpgradeAction::PublishHead)
            },
            (UpgradeStage::Publishing, UpgradeEvent::Published(ok)) => self.go_unless(
                !ok,
                UpgradeStage::Pumping,
                UpgradeAction::PumpTunnel,
            ),
            (UpgradeStage::Pumping, UpgradeEvent::Pumped(outcome)) => {
                let report = connect::report_pumped(outcome, 101);
                self.close(report)
            },
            _ => {
                let report = Report::nothing();
                self.close(report)
            },
        }
    }
}

// ---------------------------------------------------------------------
// Responses
// ---------------------------------------------------------------------

/// The fields of a response head as pairs.
fn header_pairs(headers: &[ProxyHeader]) -> (r: Vec<(String, String)>)
    ensures
        response::pair_views(r@) == backend::proxy_header_views(headers@),
{
    let mut out: Vec<(String, String)> = Vec::new();
    let mut i: usize = 0;
    while i < headers.len()
        invariant
            i <= headers@.len(),
            out@.len() == i,
            forall|j: int|
                0 <= j < i ==> response::pair_view(#[trigger] out@[j]) == headers@[j]@,
        decreases headers.len() - i,
    {
        let h = &headers[i];
        out.push((h.name.as_str().to_owned(), h.value.as_str().to_owned()));
        i += 1;
    }
    assert(response::pair_views(out@) =~= backend::proxy_header_views(headers@));
    out
}

/// A response head that is ready to be published.
pub struct PreparedResponse {
    pub head: EncodedResponseHead,
    pub fields: SanitizedResponseHeaders,
}

pub struct PreparedView {
    pub head: EncodedView,
    pub fields: SanitizedView,
}

impl View for PreparedResponse {
    type V = PreparedView;

    open spec fn view(&self) -> PreparedView {
        PreparedView { head: self.head@, fields: self.fields@ }
    }
}

/// A sanitized and encoded response head; nothing where it is invalid.
pub open spec fn prepared_response(
    request_method: Seq<char>,
    status: u16,
    reason: Seq<char>,
    headers: Seq<HeaderView>,
    body_len: u64,
) -> Option<PreparedView> {
    match response::sanitized_response(headers) {
        Err(_) => None,
        Ok(fields) => match response::encoded_response(
            request_method,
            status,
            reason,
            fields.forwarded,
            body_len,
        ) {
            Err(_) => None,
            Ok(head) => Some(PreparedView { head, fields }),
        },
    }
}

pub open spec fn same_prepared(
    r: Result<PreparedResponse, WriteBackendError>,
    v: Option<PreparedView>,
) -> bool {
    match (r, v) {
        (Ok(p), Some(w)) => p@ == w,
        (Err(e), None) => e == WriteBackendError::InvalidBeforeHead,
        _ => false,
    }
}

/// Readies an ordinary response head.
pub fn prepare_response(request_method: &str, head: &ProxyResponseHead, body_len: u64) -> (r:
    Result<PreparedResponse, WriteBackendError>)
    ensures
        same_prepared(
            r,
            prepared_response(
                request_method@,
                head.status_code,
                head.reason_phrase@,
                backend::proxy_header_views(head.headers@),
                body_len,
            ),
        ),
{
    let pairs = header_pairs(head.headers.as_slice());
    match response::sanitize_response_headers(pairs.as_slice()) {
        Err(_) => Err(WriteBackendError::InvalidBeforeHead),
        Ok(fields) => match response::encode_response_head(
            request_method,
            head.status_code,
            head.reason_phrase.as_str(),
            &fields,
            body_len,
        ) {
            Err(_) => Err(WriteBackendError::InvalidBeforeHead),
            Ok(encoded) => Ok(PreparedResponse { head: encoded, fields }),
        },
    }
}

/// A sanitized and encoded switching head; nothing where it is invalid.
pub open spec fn prepared_upgrade(
    status: u16,
    reason: Seq<char>,
    headers: Seq<HeaderView>,
) -> Option<PreparedView> {
    match (
        response::sanitized_response(headers),
        response::encoded_upgrade(status, reason, headers),
    ) {
        (Ok(fields), Ok(head)) => Some(PreparedView { head, fields }),
        _ => None,
    }
}

/// Readies the head that switches protocols.
pub fn prepare_upgrade(head: &ProxyResponseHead) -> (r: Result<PreparedResponse, WriteBackendError>)
    ensures
        same_prepared(
            r,
            prepared_upgrade(
                head.status_code,
                head.reason_phrase@,
                backend::proxy_header_views(head.headers@),
            ),
        ),
{
    let pairs = header_pairs(head.headers.as_slice());
    match response::sanitize_response_headers(pairs.as_slice()) {
        Err(_) => Err(WriteBackendError::InvalidBeforeHead),
        Ok(fields) => match response::encode_upgrade_response_head(
            head.status_code,
            head.reason_phrase.as_str(),
            pairs.as_slice(),
        ) {
            Err(_) => Err(WriteBackendError::InvalidBeforeHead),
            Ok(encoded) => Ok(PreparedResponse { head: encoded, fields }),
        },
    }
}

#[derive(Clone, Copy, Debug, PartialEq, Eq)]
pub enum DeliveryStage {
    Preparing,
    /// The head is published; a body may follow it, or not.
    Publishing(bool),
    SendingBody,
    Ended(Result<(), WriteBackendError>),
}

#[derive(Clone, Copy, Debug, PartialEq, Eq)]
pub enum DeliveryEvent {
    /// The head was readied, or is invalid. It says whether a body may follow.
    Prepared { result: Result<bool, WriteBackendError>, cancelled: bool },
    /// The head was published under its permit, or not.
    Published(bool),
    BodySent(Result<(), WriteBackendError>),
}

pub open spec fn delivery_step(s: DeliveryStage, event: DeliveryEvent) -> DeliveryStage {
    match (s, event) {
        (DeliveryStage::Ended(_), _) => s,
        (DeliveryStage::Preparing, DeliveryEvent::Prepared { result, cancelled }) => match result {
            Err(e) => DeliveryStage::Ended(Err(e)),
            Ok(body_allowed) => if cancelled {
                DeliveryStage::Ended(Err(WriteBackendError::Io))
            } else {
                DeliveryStage::Publishing(body_allowed)
            },
        },
        (DeliveryStage::Publishing(body_allowed), DeliveryEvent::Published(ok)) => if !ok {
            DeliveryStage::Ended(Err(WriteBackendError::Io))
        } else if body_allowed {
            DeliveryStage::SendingBody
        } else {
            DeliveryStage::Ended(Ok(()))
        },
        (DeliveryStage::SendingBody, DeliveryEvent::BodySent(result)) => DeliveryStage::Ended(
            result,
        ),
        _ => DeliveryStage::Ended(Err(WriteBackendError::Io)),
    }
}

/// The delivery of one response. The metadata is observed when the head has been
/// published.
#[derive(Clone, Copy, Debug, PartialEq, Eq)]
pub struct Delivery {
    pub stage: DeliveryStage,
}

impl Delivery {
    pub fn new() -> (r: Self)
        ensures
            r.stage == DeliveryStage::Preparing,
    {
        Delivery { stage: DeliveryStage::Preparing }
    }

    pub fn step(&mut self, event: DeliveryEvent)
        ensures
            final(self).stage == delivery_step(old(self).stage, event),
    {
        let next = match (self.stage, event) {
            (DeliveryStage::Ended(r), _) => DeliveryStage::Ended(r),
            (DeliveryStage::Preparing, DeliveryEvent::Prepared { result, cancelled }) => {
                match result {
                    Err(e) => DeliveryStage::Ended(Err(e)),
                    Ok(body_allowed) => if cancelled {
                        DeliveryStage::Ended(Err(WriteBackendError::Io))
                    } else {
                        DeliveryStage::Publishing(body_allowed)
                    },
                }
            },
            (DeliveryStage::Publishing(body_allowed), DeliveryEvent::Published(ok)) => if !ok {
                DeliveryStage::Ended(Err(WriteBackendError::Io))
            } else if body_allowed {
                DeliveryStage::SendingBody
            } else {
                DeliveryStage::Ended(Ok(()))
            },
            (DeliveryStage::SendingBody, DeliveryEvent::BodySent(result)) => DeliveryStage::Ended(
                result,
            ),
            _ => DeliveryStage::Ended(Err(WriteBackendError::Io)),
        };
        self.stage = next;
    }
}

// ---------------------------------------------------------------------
// Laws
// ---------------------------------------------------------------------

/// The state of an ordinary request after a sequence of events.
pub open spec fn http_run(events: Seq<HttpEvent>) -> HttpFlow
    decreases events.len(),
{
    if events.len() == 0 {
        HttpFlow { stage: HttpStage::Planning, main_frame: false }
    } else {
        http_step(http_run(events.drop_last()), events.last()).0
    }
}

/// The request was planned.
pub open spec fn was_planned(events: Seq<HttpEvent>) -> bool {
    events.len() > 0 && (events[0] matches HttpEvent::Planned { refusal, .. } && refusal is None)
}

/// The request was planned, its body read, and nothing cancelled it.
pub open spec fn was_received(events: Seq<HttpEvent>) -> bool {
    &&& was_planned(events)
    &&& events.contains(HttpEvent::BodyRead(None))
    &&& events.contains(HttpEvent::Cleared { ok: true, cancelled: false })
}

pub open spec fn http_history(s: HttpStage, events: Seq<HttpEvent>) -> bool {
    match s {
        HttpStage::Planning => events.len() == 0,
        HttpStage::Continuing | HttpStage::ReadingBody => was_planned(events),
        HttpStage::Clearing => was_planned(events) && events.contains(HttpEvent::BodyRead(None)),
        HttpStage::Executing => was_received(events),
        HttpStage::Writing(status) => was_received(events) && events.contains(
            HttpEvent::Executed { result: Ok(status), cancelled: false },
        ),
        HttpStage::Closed => true,
    }
}

proof fn lemma_contains_last<T>(events: Seq<T>)
    requires
        events.len() > 0,
    ensures
        events.contains(events.last()),
        forall|e: T| events.drop_last().contains(e) ==> events.contains(e),
{
    assert(events[events.len() - 1] == events.last());
    assert forall|e: T| events.drop_last().contains(e) implies events.contains(e) by {
        let i = choose|i: int| 0 <= i < events.drop_last().len() && events.drop_last()[i] == e;
        assert(events[i] == e);
    }
}

/// Whatever happens, the stages of an ordinary request are reached in one order
/// only.
pub proof fn requests_proceed_in_order(events: Seq<HttpEvent>)
    ensures
        http_history(http_run(events).stage, events),
    decreases events.len(),
{
    if events.len() > 0 {
        let before = events.drop_last();
        requests_proceed_in_order(before);
        lemma_contains_last(events);
        assert(forall|i: int| 0 <= i < before.len() ==> before[i] == events[i]);
    }
}

/// The backend gets a request only when it was planned, received whole, and not
/// cancelled.
pub proof fn backends_see_complete_requests_only(events: Seq<HttpEvent>, event: HttpEvent)
    requires
        http_step(http_run(events), event).1 == HttpAction::Execute,
    ensures
        was_received(events.push(event)),
{
    requests_proceed_in_order(events.push(event));
    assert(events.push(event).drop_last() == events);
    assert(events.push(event).last() == event);
}

/// The stage of an upgrade request after a sequence of events.
pub open spec fn upgrade_run(events: Seq<UpgradeEvent>) -> UpgradeStage
    decreases events.len(),
{
    if events.len() == 0 {
        UpgradeStage::Planning
    } else {
        upgrade_step(upgrade_run(events.drop_last()), events.last()).0
    }
}

pub open spec fn upgrade_admitted(events: Seq<UpgradeEvent>) -> bool {
    &&& events.len() > 1
    &&& events[0] == UpgradeEvent::Planned(None)
    &&& events[1] == (UpgradeEvent::Cleared { ok: true, cancelled: false })
}

pub open spec fn upgrade_tunnelled(events: Seq<UpgradeEvent>) -> bool {
    &&& upgrade_admitted(events)
    &&& events.len() > 2
    &&& events[2] == (UpgradeEvent::Opened { outcome: UpgradeOutcome::Tunnel, cancelled: false })
}

pub open spec fn upgrade_encoded(events: Seq<UpgradeEvent>) -> bool {
    &&& upgrade_tunnelled(events)
    &&& events.len() > 3
    &&& events[3] == (UpgradeEvent::Encoded { ok: true, cancelled: false })
}

pub open spec fn upgrade_history(s: UpgradeStage, events: Seq<UpgradeEvent>) -> bool {
    match s {
        UpgradeStage::Planning => events.len() == 0,
        UpgradeStage::Clearing => events.len() == 1 && events[0] == UpgradeEvent::Planned(None),
        UpgradeStage::Opening => events.len() == 2 && upgrade_admitted(events),
        UpgradeStage::Writing(status) => events.len() == 3 && upgrade_admitted(events) && events[2]
            == (UpgradeEvent::Opened {
            outcome: UpgradeOutcome::Response(status),
            cancelled: false,
        }),
        UpgradeStage::Encoding => events.len() == 3 && upgrade_tunnelled(events),
        UpgradeStage::Publishing => events.len() == 4 && upgrade_encoded(events),
        UpgradeStage::Pumping => events.len() == 5 && upgrade_encoded(events) && events[4]
            == UpgradeEvent::Published(true),
        UpgradeStage::Closed => events.len() > 0,
    }
}

/// Whatever happens, an upgrade reaches the backend only when it was planned and
/// not cancelled, its permit is asked only for a valid switching head and while
/// nothing is cancelled, and bytes are copied only after that head was published.
pub proof fn upgrades_proceed_in_order(events: Seq<UpgradeEvent>)
    ensures
        upgrade_history(upgrade_run(events), events),
    decreases events.len(),
{
    if events.len() > 0 {
        let before = events.drop_last();
        upgrades_proceed_in_order(before);
        assert(forall|i: int| 0 <= i < before.len() ==> before[i] == events[i]);
        assert(events.last() == events[events.len() - 1]);
    }
}

/// A client never gets a second answer: once a response head may have been sent,
/// the proxy adds none of its own.
pub proof fn responses_are_answered_once(
    status: u16,
    result: Result<(), WriteBackendError>,
    cancelled: bool,
    main_frame: bool,
)
    ensures
        response_written(status, result, cancelled, main_frame).reply is Some ==> result == Err::<
            (),
            WriteBackendError,
        >(WriteBackendError::InvalidBeforeHead) && !cancelled,
{
}

/// The stage of a delivery after a sequence of events.
pub open spec fn delivery_run(events: Seq<DeliveryEvent>) -> DeliveryStage
    decreases events.len(),
{
    if events.len() == 0 {
        DeliveryStage::Preparing
    } else {
        delivery_step(delivery_run(events.drop_last()), events.last())
    }
}

/// A head is published, and a body sent, only for a response that was readied
/// while the work was not cancelled.
pub proof fn deliveries_publish_valid_heads_only(events: Seq<DeliveryEvent>)
    ensures
        match delivery_run(events) {
            DeliveryStage::Preparing => events.len() == 0,
            DeliveryStage::Publishing(b) => events.len() == 1 && events[0] == (
            DeliveryEvent::Prepared { result: Ok(b), cancelled: false }),
            DeliveryStage::SendingBody => events.len() == 2 && events[0] == (
            DeliveryEvent::Prepared { result: Ok(true), cancelled: false }) && events[1]
                == DeliveryEvent::Published(true),
            DeliveryStage::Ended(_) => events.len() > 0,
        },
    decreases events.len(),
{
    if events.len() > 0 {
        let before = events.drop_last();
        deliveries_publish_valid_heads_only(before);
        assert(forall|i: int| 0 <= i < before.len() ==> before[i] == events[i]);
        assert(events.last() == events[events.len() - 1]);
    }
}

/// The backend gets the request as it is: its method, the scheme, host, port and path that
/// were routed, and the fields and body that it is handed.
pub proof fn requests_are_handed_on(
    head: RequestHeadView,
    route: RouteView,
    host: Seq<char>,
    headers: Seq<HeaderView>,
    content: Seq<u8>,
)
    ensures
        backend_request(head, route, host, headers, content) == (ProxyRequestView {
            method: head.method,
            scheme: match route.scheme {
                crate::target::Scheme::Http => "http"@,
                crate::target::Scheme::Https => "https"@,
                crate::target::Scheme::Ws => "ws"@,
                crate::target::Scheme::Wss => "wss"@,
            },
            host,
            port: route.port,
            path_and_query: route.path_and_query,
            headers,
            body: content,
        }),
{
}

/// A request is planned exactly where its body is framed one way and, where its length is
/// known, within the limit; where it expects nothing but the interim response; and where
/// its fields can be sanitized. The interim response is sent where it is expected and a
/// body comes. What goes against the plan is answered, in this order.
pub proof fn good_requests_are_planned(
    head: RequestHeadView,
    route: RouteView,
    host: Seq<char>,
    max_body_bytes: u64,
)
    ensures
        ({
            let framing = body::framing_of(head.headers);
            let large = framing matches Ok(BodyFraming::ContentLength(n)) && n > max_body_bytes;
            let expected = forward::continue_expected(head.headers);
            let fields = forward::with_host(
                forward::sanitized(head.headers),
                host,
                route.port,
                route.scheme,
            );
            let navigates = forward::is_navigation(
                head.method,
                head.headers,
                route.path_and_query,
            );
            let r = http_plan_of(head, route, host, max_body_bytes);
            &&& r is Ok <==> framing is Ok && !large && expected is Some && fields is Ok
            &&& r matches Ok(plan) ==> {
                &&& plan.framing == framing->Ok_0
                &&& plan.send_continue == (expected == Some(true) && framing->Ok_0
                    != BodyFraming::NoBody)
                &&& plan.main_frame == navigates
                &&& plan.headers == fields->Ok_0
            }
            &&& framing matches Err(e) ==> r == Err::<HttpPlanView, Report>(
                Report::malformed(e, navigates),
            )
            &&& large ==> r == Err::<HttpPlanView, Report>(
                Report::malformed(Http1Error::BodyTooLarge, navigates),
            )
            &&& framing is Ok && !large && expected is None ==> r == Err::<HttpPlanView, Report>(
                Report::refused(
                    Refusal::Expectation,
                    RequestRejectionReason::InvalidRequest,
                    navigates,
                ),
            )
            &&& framing is Ok && !large && expected is Some && fields is Err ==> r == Err::<
                HttpPlanView,
                Report,
            >(Report::malformed(fields->Err_0, navigates))
        }),
{
}

/// An upgrade is planned exactly where it has no body or an empty one, expects nothing, and
/// is a handshake that can be sanitized.
pub proof fn good_upgrades_are_planned(head: RequestHeadView, route: RouteView, host: Seq<char>)
    ensures
        ({
            let framing = body::framing_of(head.headers);
            let empty = framing matches Ok(f) && (f is NoBody || f == BodyFraming::ContentLength(
                0,
            ));
            let expects = http1::values_of(head.headers, "expect"@).len() > 0;
            let fields = forward::with_host(
                forward::sanitized_upgrade(head.headers),
                host,
                route.port,
                route.scheme,
            );
            let refused = |refusal: Refusal|
                Err::<Seq<HeaderView>, Report>(
                    Report::refused(refusal, RequestRejectionReason::InvalidRequest, false),
                );
            let r = upgrade_plan_of(head, route, host);
            &&& r is Ok <==> empty && !expects && fields is Ok
            &&& r is Ok ==> r->Ok_0 == fields->Ok_0
            &&& framing matches Err(e) ==> r == Err::<Seq<HeaderView>, Report>(
                Report::malformed(e, false),
            )
            &&& framing is Ok && !empty ==> r == refused(Refusal::UpgradeBody)
            &&& empty && expects ==> r == refused(Refusal::Expectation)
            &&& empty && !expects && fields is Err ==> r == Err::<Seq<HeaderView>, Report>(
                Report::malformed(fields->Err_0, false),
            )
        }),
{
}

/// A request that nothing goes against is executed and answered: the interim response where
/// it is asked for, then its body, its deadline, the backend and the response, whose status
/// is then reported.
pub proof fn good_requests_are_answered(send_continue: bool, main_frame: bool, status: u16)
    ensures
        ({
            let planned = HttpEvent::Planned { refusal: None, send_continue, main_frame };
            let (s0, a0) = http_step(
                HttpFlow { stage: HttpStage::Planning, main_frame: false },
                planned,
            );
            let (s1, a1) = if send_continue {
                http_step(s0, HttpEvent::Continued(true))
            } else {
                (s0, a0)
            };
            let (s2, a2) = http_step(s1, HttpEvent::BodyRead(None));
            let (s3, a3) = http_step(s2, HttpEvent::Cleared { ok: true, cancelled: false });
            let (s4, a4) = http_step(
                s3,
                HttpEvent::Executed { result: Ok(status), cancelled: false },
            );
            let (s5, a5) = http_step(s4, HttpEvent::Written { result: Ok(()), cancelled: false });
            &&& send_continue ==> a0 == HttpAction::SendContinue
            &&& a1 == HttpAction::ReadBody
            &&& a2 == HttpAction::ClearDeadline
            &&& a3 == HttpAction::Execute
            &&& a4 == HttpAction::WriteResponse
            &&& a5 == HttpAction::Close(Report::of_phase(Phase::Completed(status)))
            &&& s5.stage == HttpStage::Closed && s4.main_frame == main_frame
        }),
{
}

/// What goes against a request ends it with its reason: a refusal as it stands, a body that
/// could not be read as what is wrong with it, a missing deadline or a cancellation by its
/// name, a failed backend with its answer, an invalid response as such; and in silence
/// what fails between the proxy and its client.
pub proof fn failed_requests_end_with_their_reason(
    s: HttpFlow,
    refusal: Report,
    send_continue: bool,
    main_frame: bool,
    error: Http1Error,
    ok: bool,
    cancelled: bool,
    failure: BackendError,
    status: u16,
)
    ensures
        ({
            let at = |stage: HttpStage| HttpFlow { stage, ..s };
            let ends = |stage: HttpStage, event: HttpEvent, report: Report|
                http_step(at(stage), event).0.stage == HttpStage::Closed && http_step(
                    at(stage),
                    event,
                ).1 == HttpAction::Close(report);
            &&& ends(
                HttpStage::Planning,
                HttpEvent::Planned { refusal: Some(refusal), send_continue, main_frame },
                refusal,
            )
            &&& ends(HttpStage::Continuing, HttpEvent::Continued(false), Report::silent())
            &&& ends(
                HttpStage::ReadingBody,
                HttpEvent::BodyRead(Some(error)),
                Report::malformed(error, s.main_frame),
            )
            &&& !ok || cancelled ==> ends(
                HttpStage::Clearing,
                HttpEvent::Cleared { ok, cancelled },
                Report::of_phase(
                    Phase::Rejected(
                        if ok {
                            RequestRejectionReason::Cancelled
                        } else {
                            RequestRejectionReason::InvalidRequest
                        },
                    ),
                ),
            )
            &&& ends(
                HttpStage::Executing,
                HttpEvent::Executed { result: Err(failure), cancelled },
                Report {
                    client: None,
                    phase: Some(Phase::BackendFailed(reply::failure_kind_of(failure))),
                    main_frame: failure !is Cancelled && !cancelled && s.main_frame,
                    reply: if failure is Cancelled || cancelled {
                        None
                    } else {
                        Some(Refusal::Backend(failure))
                    },
                },
            )
            &&& ends(
                HttpStage::Executing,
                HttpEvent::Executed { result: Ok(status), cancelled: true },
                Report::silent(),
            )
            &&& ends(
                HttpStage::Writing(status),
                HttpEvent::Written { result: Err(WriteBackendError::Io), cancelled },
                Report::silent(),
            )
            &&& ends(
                HttpStage::Writing(status),
                HttpEvent::Written {
                    result: Err(WriteBackendError::InvalidAfterHead),
                    cancelled,
                },
                Report::of_phase(Phase::BackendFailed(BackendFailureKind::InvalidResponse)),
            )
            &&& ends(
                HttpStage::Writing(status),
                HttpEvent::Written {
                    result: Err(WriteBackendError::InvalidBeforeHead),
                    cancelled,
                },
                Report {
                    client: None,
                    phase: Some(Phase::BackendFailed(BackendFailureKind::InvalidResponse)),
                    main_frame: !cancelled && s.main_frame,
                    reply: if cancelled {
                        None
                    } else {
                        Some(Refusal::InvalidUpstream)
                    },
                },
            )
        }),
{
}

/// An upgrade that nothing goes against becomes a tunnel: its head is encoded, published,
/// and the bytes are copied; where the origin gives an ordinary response, that is
/// written. Once it has ended, the observer is told.
pub proof fn good_upgrades_become_tunnels(status: u16, outcome: TunnelPumpOutcome)
    ensures
        ({
            let opened = |outcome: UpgradeOutcome|
                upgrade_step(
                    UpgradeStage::Opening,
                    UpgradeEvent::Opened { outcome, cancelled: false },
                );
            &&& upgrade_step(UpgradeStage::Planning, UpgradeEvent::Planned(None)) == (
                UpgradeStage::Clearing,
                UpgradeAction::ClearDeadline,
            )
            &&& upgrade_step(
                UpgradeStage::Clearing,
                UpgradeEvent::Cleared { ok: true, cancelled: false },
            ) == (UpgradeStage::Opening, UpgradeAction::OpenTunnel)
            &&& opened(UpgradeOutcome::Tunnel) == (
                UpgradeStage::Encoding,
                UpgradeAction::EncodeHead,
            )
            &&& opened(UpgradeOutcome::Response(status)) == (
                UpgradeStage::Writing(status),
                UpgradeAction::WriteResponse,
            )
            &&& upgrade_step(
                UpgradeStage::Encoding,
                UpgradeEvent::Encoded { ok: true, cancelled: false },
            ) == (UpgradeStage::Publishing, UpgradeAction::PublishHead)
            &&& upgrade_step(UpgradeStage::Publishing, UpgradeEvent::Published(true)) == (
                UpgradeStage::Pumping,
                UpgradeAction::PumpTunnel,
            )
            &&& upgrade_step(UpgradeStage::Pumping, UpgradeEvent::Pumped(outcome)) == (
                UpgradeStage::Closed,
                UpgradeAction::Close(
                    match outcome {
                        TunnelPumpOutcome::Completed => Report::of_phase(Phase::Completed(101)),
                        TunnelPumpOutcome::OriginIo => Report::of_phase(
                            Phase::BackendFailed(BackendFailureKind::Upstream),
                        ),
                        _ => Report::silent(),
                    },
                ),
            )
            &&& upgrade_step(
                UpgradeStage::Writing(status),
                UpgradeEvent::Written { result: Ok(()), cancelled: false },
            ) == (
                UpgradeStage::Closed,
                UpgradeAction::Close(Report::of_phase(Phase::Completed(status))),
            )
        }),
{
}

/// What goes against an upgrade ends it as it ends a request, but that an upgrade is never
/// taken for a navigation.
pub proof fn failed_upgrades_end_with_their_reason(
    refusal: Report,
    ok: bool,
    cancelled: bool,
    failure: BackendError,
    status: u16,
    result: Result<(), WriteBackendError>,
)
    ensures
        ({
            let ends = |s: UpgradeStage, e: UpgradeEvent, report: Report|
                upgrade_step(s, e) == (UpgradeStage::Closed, UpgradeAction::Close(report));
            let plain = HttpFlow { stage: HttpStage::Planning, main_frame: false };
            let invalid = Report {
                client: None,
                phase: Some(Phase::BackendFailed(BackendFailureKind::InvalidResponse)),
                main_frame: false,
                reply: if cancelled {
                    None
                } else {
                    Some(Refusal::InvalidUpstream)
                },
            };
            &&& ends(UpgradeStage::Planning, UpgradeEvent::Planned(Some(refusal)), refusal)
            &&& !ok || cancelled ==> ends(
                UpgradeStage::Clearing,
                UpgradeEvent::Cleared { ok, cancelled },
                Report::of_phase(
                    Phase::Rejected(
                        if ok {
                            RequestRejectionReason::Cancelled
                        } else {
                            RequestRejectionReason::InvalidRequest
                        },
                    ),
                ),
            )
            &&& ends(
                UpgradeStage::Opening,
                UpgradeEvent::Opened { outcome: UpgradeOutcome::Failed(failure), cancelled },
                Report {
                    client: None,
                    phase: Some(Phase::BackendFailed(reply::failure_kind_of(failure))),
                    main_frame: false,
                    reply: if failure is Cancelled || cancelled {
                        None
                    } else {
                        Some(Refusal::Backend(failure))
                    },
                },
            )
            &&& ends(
                UpgradeStage::Opening,
                UpgradeEvent::Opened { outcome: UpgradeOutcome::Tunnel, cancelled: true },
                Report::silent(),
            )
            &&& ends(
                UpgradeStage::Opening,
                UpgradeEvent::Opened {
                    outcome: UpgradeOutcome::Response(status),
                    cancelled: true,
                },
                Report::silent(),
            )
            &&& ends(UpgradeStage::Encoding, UpgradeEvent::Encoded { ok: false, cancelled }, invalid)
            &&& ends(
                UpgradeStage::Encoding,
                UpgradeEvent::Encoded { ok: true, cancelled: true },
                Report::silent(),
            )
            &&& ends(UpgradeStage::Publishing, UpgradeEvent::Published(false), Report::silent())
            &&& HttpAction::Close(
                upgrade_step(
                    UpgradeStage::Writing(status),
                    UpgradeEvent::Written { result, cancelled },
                ).1->Close_0,
            ) == http_step(
                HttpFlow { stage: HttpStage::Writing(status), ..plain },
                HttpEvent::Written { result, cancelled },
            ).1
        }),
{
}

/// A response is readied exactly where its fields are taken and its head is made from what
/// may be delivered; so is a switching head.
pub proof fn responses_are_readied_from_their_fields(
    method: Seq<char>,
    status: u16,
    reason: Seq<char>,
    headers: Seq<HeaderView>,
    body_len: u64,
)
    ensures
        ({
            let fields = response::sanitized_response(headers);
            let head = response::encoded_response(
                method,
                status,
                reason,
                fields->Ok_0.forwarded,
                body_len,
            );
            &&& prepared_response(method, status, reason, headers, body_len) is Some <==> fields is Ok
                && head is Ok
            &&& prepared_response(method, status, reason, headers, body_len) matches Some(p)
                ==> p.head == head->Ok_0 && p.fields == fields->Ok_0
            &&& prepared_upgrade(status, reason, headers) is Some <==> fields is Ok
                && response::encoded_upgrade(status, reason, headers) is Ok
            &&& prepared_upgrade(status, reason, headers) matches Some(p) ==> p.head
                == response::encoded_upgrade(status, reason, headers)->Ok_0 && p.fields
                == fields->Ok_0
        }),
{
}

/// A head that is valid and published is followed by its body where it may have one; what
/// the body comes to is what the delivery comes to. A delivery that was cancelled or has
/// no permit fails, and what is invalid is named as such.
pub proof fn valid_responses_are_delivered(
    body_allowed: bool,
    error: WriteBackendError,
    cancelled: bool,
    sent: Result<(), WriteBackendError>,
)
    ensures
        ({
            let prepared = delivery_step(
                DeliveryStage::Preparing,
                DeliveryEvent::Prepared { result: Ok(body_allowed), cancelled },
            );
            let published = delivery_step(prepared, DeliveryEvent::Published(true));
            &&& cancelled ==> prepared == DeliveryStage::Ended(Err(WriteBackendError::Io))
            &&& !cancelled && !body_allowed ==> published == DeliveryStage::Ended(Ok(()))
            &&& !cancelled && body_allowed ==> published == DeliveryStage::SendingBody
                && delivery_step(published, DeliveryEvent::BodySent(sent)) == DeliveryStage::Ended(
                sent,
            )
            &&& !cancelled ==> delivery_step(prepared, DeliveryEvent::Published(false))
                == DeliveryStage::Ended(Err(WriteBackendError::Io))
            &&& delivery_step(
                DeliveryStage::Preparing,
                DeliveryEvent::Prepared { result: Err(error), cancelled },
            ) == DeliveryStage::Ended(Err(error))
        }),
{
}

/// A response that is readied is the one that is meant; any other is invalid before its
/// head.
pub proof fn readied_responses_agree(
    r: Result<PreparedResponse, WriteBackendError>,
    v: Option<PreparedView>,
)
    ensures
        same_prepared(r, v) <==> {
            &&& r is Ok <==> v is Some
            &&& r is Ok ==> r->Ok_0@ == v->Some_0
            &&& r is Err ==> r->Err_0 == WriteBackendError::InvalidBeforeHead
        },
{
}

/// Requests and upgrades are planned, made and answered as they are meant.
pub proof fn exchanges_are_planned(
    head: &RequestHead,
    route: &HttpRoute,
    host: &NormalizedHost,
    limit: u64,
    plan: Result<HttpPlan, Report>,
    upgrade: Result<Vec<ProxyHeader>, Report>,
    fields: Vec<ProxyHeader>,
    content: Vec<u8>,
    request: ProxyRequest,
    method: &str,
    reply: &ProxyResponseHead,
    body_len: u64,
    prepared: Result<PreparedResponse, WriteBackendError>,
)
    requires
        call_ensures(plan_http, (head, route, host, limit), plan),
        call_ensures(plan_upgrade, (head, route, host), upgrade),
        call_ensures(make_request, (head, route, host, fields, content), request),
        call_ensures(prepare_response, (method, reply, body_len), prepared),
    ensures
        ({
            let meant = http_plan_of(head@, route@, host@, limit);
            &&& plan is Ok <==> meant is Ok
            &&& plan is Ok ==> plan->Ok_0@ == meant->Ok_0
            &&& plan is Err ==> plan->Err_0 == meant->Err_0
        }),
        ({
            let meant = upgrade_plan_of(head@, route@, host@);
            &&& upgrade is Ok <==> meant is Ok
            &&& upgrade is Ok ==> backend::proxy_header_views(upgrade->Ok_0@) == meant->Ok_0
            &&& upgrade is Err ==> upgrade->Err_0 == meant->Err_0
        }),
        request@ == backend_request(
            head@,
            route@,
            host@,
            backend::proxy_header_views(fields@),
            content@,
        ),
        same_prepared(
            prepared,
            prepared_response(
                method@,
                reply.status_code,
                reply.reason_phrase@,
                backend::proxy_header_views(reply.headers@),
                body_len,
            ),
        ),
{
}

} // verus!
