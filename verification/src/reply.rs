//! What the proxy answers when it does not serve a request, and what it reports
//! to its observers.

use crate::backend::BackendError;
use crate::event;
use crate::event::{
    BackendFailureKind, ClientRejectionReason, ObservedHost, ObservedMethod, ProxyEvent,
    RequestPhase, RequestRejectionReason,
};
use crate::host::HostScopeError;
use crate::http1;
use crate::http1::{Http1Error, IoKind};
use crate::metadata::{ProxyMetadataObservationKind, ProxyResponseMetadataObservation};
use crate::response::InternalResponseMetadata;
use crate::text;
use std::time::Duration;
use vstd::prelude::*;

verus! {

// ---------------------------------------------------------------------
// Statuses
// ---------------------------------------------------------------------

pub open spec fn is_timeout(e: Http1Error) -> bool {
    e == Http1Error::Io(IoKind::TimedOut) || e == Http1Error::Io(IoKind::WouldBlock)
}

pub open spec fn request_error_status_of(e: Http1Error) -> (u16, Seq<char>) {
    if is_timeout(e) {
        (408, "Request Timeout"@)
    } else {
        (http1::status_code_of(e), http1::reason_phrase_of(e))
    }
}

/// The answer to a request that could not be read.
pub fn request_error_status(error: &Http1Error) -> (r: (u16, &'static str))
    ensures
        (r.0, r.1@) == request_error_status_of(*error),
{
    match error {
        Http1Error::Io(IoKind::TimedOut)
        | Http1Error::Io(IoKind::WouldBlock) => (408, "Request Timeout"),
        _ => (error.status_code(), error.reason_phrase()),
    }
}

pub open spec fn backend_error_status_of(e: BackendError) -> (u16, Seq<char>) {
    match e {
        BackendError::Cancelled => (503, "Proxy Request Cancelled"@),
        BackendError::InvalidRequest => (400, "Invalid Gateway Request"@),
        BackendError::PolicyDenied => (403, "Gateway Policy Denied"@),
        BackendError::ResolutionFailed => (502, "HNS Resolution Failed"@),
        BackendError::TlsValidationFailed => (502, "HNS TLS Validation Failed"@),
        BackendError::UpstreamUnavailable => (502, "HNS Upstream Unavailable"@),
        BackendError::InvalidResponse => (502, "Invalid Upstream Response"@),
        BackendError::ResponseTooLarge => (502, "Upstream Response Too Large"@),
        BackendError::UnsupportedUpgrade => (501, "HNS Protocol Upgrade Unsupported"@),
        BackendError::Internal => (500, "Proxy Internal Error"@),
    }
}

/// The answer to a request that the backend failed.
pub fn backend_error_status(error: BackendError) -> (r: (u16, &'static str))
    ensures
        (r.0, r.1@) == backend_error_status_of(error),
{
    match error {
        BackendError::Cancelled => (503, "Proxy Request Cancelled"),
        BackendError::InvalidRequest => (400, "Invalid Gateway Request"),
        BackendError::PolicyDenied => (403, "Gateway Policy Denied"),
        BackendError::ResolutionFailed => (502, "HNS Resolution Failed"),
        BackendError::TlsValidationFailed => (502, "HNS TLS Validation Failed"),
        BackendError::UpstreamUnavailable => (502, "HNS Upstream Unavailable"),
        BackendError::InvalidResponse => (502, "Invalid Upstream Response"),
        BackendError::ResponseTooLarge => (502, "Upstream Response Too Large"),
        BackendError::UnsupportedUpgrade => (501, "HNS Protocol Upgrade Unsupported"),
        BackendError::Internal => (500, "Proxy Internal Error"),
    }
}

pub open spec fn connect_error_status_of(e: BackendError) -> (u16, Seq<char>) {
    match e {
        BackendError::Cancelled => (503, "Browser Security Request Cancelled"@),
        BackendError::InvalidRequest => (400, "Invalid Browser Security Request"@),
        BackendError::PolicyDenied => (403, "Browser Security Policy Denied"@),
        BackendError::ResolutionFailed => (502, "Namespace Resolution Failed"@),
        BackendError::TlsValidationFailed => (502, "Origin TLS Validation Failed"@),
        BackendError::UpstreamUnavailable => (502, "Origin Unavailable"@),
        BackendError::InvalidResponse => (502, "Invalid Origin Response"@),
        BackendError::ResponseTooLarge => (502, "Origin Response Too Large"@),
        BackendError::UnsupportedUpgrade => (501, "Protocol Upgrade Unsupported"@),
        BackendError::Internal => (503, "Browser Security Runtime Unavailable"@),
    }
}

/// The answer to a CONNECT request that the backend failed.
pub fn connect_backend_error_status(error: BackendError) -> (r: (u16, &'static str))
    ensures
        (r.0, r.1@) == connect_error_status_of(error),
{
    match error {
        BackendError::Cancelled => (503, "Browser Security Request Cancelled"),
        BackendError::InvalidRequest => (400, "Invalid Browser Security Request"),
        BackendError::PolicyDenied => (403, "Browser Security Policy Denied"),
        BackendError::ResolutionFailed => (502, "Namespace Resolution Failed"),
        BackendError::TlsValidationFailed => (502, "Origin TLS Validation Failed"),
        BackendError::UpstreamUnavailable => (502, "Origin Unavailable"),
        BackendError::InvalidResponse => (502, "Invalid Origin Response"),
        BackendError::ResponseTooLarge => (502, "Origin Response Too Large"),
        BackendError::UnsupportedUpgrade => (501, "Protocol Upgrade Unsupported"),
        BackendError::Internal => (503, "Browser Security Runtime Unavailable"),
    }
}

pub open spec fn failure_kind_of(e: BackendError) -> BackendFailureKind {
    match e {
        BackendError::Cancelled => BackendFailureKind::Cancelled,
        BackendError::InvalidRequest
        | BackendError::UnsupportedUpgrade => BackendFailureKind::InvalidRequest,
        BackendError::PolicyDenied => BackendFailureKind::PolicyDenied,
        BackendError::ResolutionFailed => BackendFailureKind::Resolution,
        BackendError::TlsValidationFailed => BackendFailureKind::TlsValidation,
        BackendError::UpstreamUnavailable => BackendFailureKind::Upstream,
        BackendError::InvalidResponse => BackendFailureKind::InvalidResponse,
        BackendError::ResponseTooLarge => BackendFailureKind::ResponseTooLarge,
        BackendError::Internal => BackendFailureKind::Internal,
    }
}

/// The kind under which a backend failure is reported.
pub fn backend_failure_kind(error: BackendError) -> (r: BackendFailureKind)
    ensures
        r == failure_kind_of(error),
{
    match error {
        BackendError::Cancelled => BackendFailureKind::Cancelled,
        BackendError::InvalidRequest
        | BackendError::UnsupportedUpgrade => BackendFailureKind::InvalidRequest,
        BackendError::PolicyDenied => BackendFailureKind::PolicyDenied,
        BackendError::ResolutionFailed => BackendFailureKind::Resolution,
        BackendError::TlsValidationFailed => BackendFailureKind::TlsValidation,
        BackendError::UpstreamUnavailable => BackendFailureKind::Upstream,
        BackendError::InvalidResponse => BackendFailureKind::InvalidResponse,
        BackendError::ResponseTooLarge => BackendFailureKind::ResponseTooLarge,
        BackendError::Internal => BackendFailureKind::Internal,
    }
}

/// Whole seconds that cover a duration.
pub fn retry_after_seconds(seconds: u64, subsecond_nanos: u32) -> (r: u64)
    requires
        subsecond_nanos != 0 ==> seconds < u64::MAX,
    ensures
        r == (if subsecond_nanos != 0 {
            seconds + 1
        } else {
            seconds as int
        }),
{
    if subsecond_nanos != 0 {
        seconds + 1
    } else {
        seconds
    }
}

/// Why a target host is not served.
#[derive(Clone, Copy, Debug, PartialEq, Eq, Structural)]
pub enum RouteRejection {
    Scope(HostScopeError),
    SpecialUse,
    InvalidClass,
}

pub open spec fn route_refusal_of(e: RouteRejection) -> Refusal {
    if e == RouteRejection::Scope(HostScopeError::OutOfScope) {
        Refusal::ScopeDenied
    } else {
        Refusal::RouteDenied
    }
}

/// The answer to a request for a host that is not served, and its reason.
pub fn route_rejection(error: RouteRejection) -> (r: (Refusal, RequestRejectionReason))
    ensures
        r.0 == route_refusal_of(error),
        r.1 == RequestRejectionReason::HostOutsideScope,
{
    match error {
        RouteRejection::Scope(HostScopeError::OutOfScope) => (
            Refusal::ScopeDenied,
            RequestRejectionReason::HostOutsideScope,
        ),
        _ => (Refusal::RouteDenied, RequestRejectionReason::HostOutsideScope),
    }
}

// ---------------------------------------------------------------------
// Refusals
// ---------------------------------------------------------------------

/// An answer that the proxy gives by itself.
#[derive(Clone, Copy, Debug, PartialEq, Eq, Structural)]
pub enum Refusal {
    /// The request is malformed, too large, or did not arrive.
    Http(Http1Error),
    /// Credentials are missing or wrong.
    Authentication,
    RouteDenied,
    ScopeDenied,
    BadRequest,
    UpgradeUnsupported,
    UpgradeBody,
    Expectation,
    ConnectBody,
    PortDenied,
    /// Come back after so many seconds.
    RateLimited { seconds: u64 },
    ClientLimit,
    Backend(BackendError),
    ConnectBackend(BackendError),
    WebPkiUnavailable,
    LocalTlsUnavailable,
    InvalidUpstream,
}

impl Refusal {
    /// Status and reason phrase.
    pub open spec fn line(self) -> (u16, Seq<char>) {
        match self {
            Refusal::Http(e) => request_error_status_of(e),
            Refusal::Authentication => (407, "Proxy Authentication Required"@),
            Refusal::RouteDenied => (403, "Proxy Scope Denied"@),
            Refusal::ScopeDenied => (403, "HNS Proxy Scope Denied"@),
            Refusal::BadRequest => (400, "Bad Request"@),
            Refusal::UpgradeUnsupported => (501, "HNS Protocol Upgrade Unsupported"@),
            Refusal::UpgradeBody => (400, "HNS Protocol Upgrade Body Unsupported"@),
            Refusal::Expectation => (417, "Expectation Failed"@),
            Refusal::ConnectBody => (400, "HNS CONNECT Body Unsupported"@),
            Refusal::PortDenied => (403, "Destination Port Denied"@),
            Refusal::RateLimited { .. } | Refusal::ClientLimit => (429, "Too Many Requests"@),
            Refusal::Backend(e) => backend_error_status_of(e),
            Refusal::ConnectBackend(e) => connect_error_status_of(e),
            Refusal::WebPkiUnavailable => (502, "ICANN WebPKI Origin Unavailable"@),
            Refusal::LocalTlsUnavailable => (503, "HNS Local TLS Unavailable"@),
            Refusal::InvalidUpstream => (502, "Invalid Upstream Response"@),
        }
    }

    /// The one field that some refusals add, by name and value. The value of a
    /// challenge is the caller's.
    pub open spec fn extra(self, challenge: Seq<char>) -> Option<(Seq<char>, Seq<char>)> {
        match self {
            Refusal::Authentication => Some(("Proxy-Authenticate"@, challenge)),
            Refusal::RateLimited { seconds } => Some(
                ("Retry-After"@, text::decimal(seconds as nat)),
            ),
            Refusal::ClientLimit => Some(("Retry-After"@, "1"@)),
            _ => None,
        }
    }

    pub fn status(&self) -> (r: u16)
        ensures
            r == self.line().0,
    {
        self.status_line().0
    }

    pub fn status_line(&self) -> (r: (u16, &'static str))
        ensures
            (r.0, r.1@) == self.line(),
    {
        match self {
            Refusal::Http(e) => request_error_status(e),
            Refusal::Authentication => (407, "Proxy Authentication Required"),
            Refusal::RouteDenied => (403, "Proxy Scope Denied"),
            Refusal::ScopeDenied => (403, "HNS Proxy Scope Denied"),
            Refusal::BadRequest => (400, "Bad Request"),
            Refusal::UpgradeUnsupported => (501, "HNS Protocol Upgrade Unsupported"),
            Refusal::UpgradeBody => (400, "HNS Protocol Upgrade Body Unsupported"),
            Refusal::Expectation => (417, "Expectation Failed"),
            Refusal::ConnectBody => (400, "HNS CONNECT Body Unsupported"),
            Refusal::PortDenied => (403, "Destination Port Denied"),
            Refusal::RateLimited { .. } | Refusal::ClientLimit => (429, "Too Many Requests"),
            Refusal::Backend(e) => backend_error_status(*e),
            Refusal::ConnectBackend(e) => connect_backend_error_status(*e),
            Refusal::WebPkiUnavailable => (502, "ICANN WebPKI Origin Unavailable"),
            Refusal::LocalTlsUnavailable => (503, "HNS Local TLS Unavailable"),
            Refusal::InvalidUpstream => (502, "Invalid Upstream Response"),
        }
    }

    /// The bytes of this answer. `challenge` is the value with which a client is
    /// asked to authenticate.
    pub fn response(&self, challenge: &str) -> (r: Vec<u8>)
        ensures
            r@ == error_response_bytes(self.line().0, self.line().1, self.extra(challenge@)),
    {
        let (status, reason) = self.status_line();
        match self {
            Refusal::Authentication => write_error_response(
                status,
                reason,
                Some(("Proxy-Authenticate", challenge)),
            ),
            Refusal::RateLimited { seconds } => {
                let value = text::decimal_text(*seconds);
                write_error_response(status, reason, Some(("Retry-After", value.as_str())))
            },
            Refusal::ClientLimit => write_error_response(
                status,
                reason,
                Some(("Retry-After", "1")),
            ),
            _ => write_error_response(status, reason, None),
        }
    }
}

/// The fields of every refusal but the last.
pub open spec fn fixed_fields() -> Seq<char> {
    "\r\nConnection: close\r\nCache-Control: no-store\r\nContent-Type: text/plain; charset=utf-8\r\nX-Content-Type-Options: nosniff\r\n"@
}

pub open spec fn error_response_text(
    status: u16,
    reason: Seq<char>,
    extra: Option<(Seq<char>, Seq<char>)>,
) -> Seq<char> {
    "HTTP/1.1 "@ + text::decimal(status as nat) + " "@ + reason + fixed_fields() + (match extra {
        Some((name, value)) => name + ": "@ + value + "\r\n"@,
        None => Seq::<char>::empty(),
    }) + "Content-Length: "@ + text::decimal(vstd::utf8::encode_utf8(reason).len()) + "\r\n\r\n"@
        + reason
}

/// A complete response with the reason phrase as its body.
pub open spec fn error_response_bytes(
    status: u16,
    reason: Seq<char>,
    extra: Option<(Seq<char>, Seq<char>)>,
) -> Seq<u8> {
    vstd::utf8::encode_utf8(error_response_text(status, reason, extra))
}

pub open spec fn field_view(extra: Option<(&str, &str)>) -> Option<(Seq<char>, Seq<char>)> {
    match extra {
        Some((name, value)) => Some((name@, value@)),
        None => None,
    }
}

pub fn write_error_response(status: u16, reason: &str, extra: Option<(&str, &str)>) -> (r: Vec<u8>)
    ensures
        r@ == error_response_bytes(status, reason@, field_view(extra)),
{
    let mut v = text::to_chars("HTTP/1.1 ");
    let d = text::digits_of(status as u64, 10);
    text::push_chars(&mut v, d.as_slice());
    text::push_str(&mut v, " ");
    text::push_str(&mut v, reason);
    text::push_str(
        &mut v,
        "\r\nConnection: close\r\nCache-Control: no-store\r\nContent-Type: text/plain; charset=utf-8\r\nX-Content-Type-Options: nosniff\r\n",
    );
    let ghost before = v@;
    match extra {
        Some((name, value)) => {
            text::push_str(&mut v, name);
            text::push_str(&mut v, ": ");
            text::push_str(&mut v, value);
            text::push_str(&mut v, "\r\n");
            assert(v@ == before + (name@ + ": "@ + value@ + "\r\n"@));
        },
        None => {
            assert(v@ == before + Seq::<char>::empty());
        },
    }
    text::push_str(&mut v, "Content-Length: ");
    let n: usize = reason.as_bytes().len();
    let d = text::digits_of(n as u64, 10);
    text::push_chars(&mut v, d.as_slice());
    text::push_str(&mut v, "\r\n\r\n");
    text::push_str(&mut v, reason);
    assert(v@ == error_response_text(status, reason@, field_view(extra)));
    let s = text::from_chars(v.as_slice());
    let mut out: Vec<u8> = Vec::new();
    text::push_text(&mut out, s.as_str());
    assert(out@ == error_response_bytes(status, reason@, field_view(extra)));
    out
}

// ---------------------------------------------------------------------
// Reports
// ---------------------------------------------------------------------

/// A phase of a request, without the time it took.
#[derive(Clone, Copy, Debug, PartialEq, Eq, Structural)]
pub enum Phase {
    Accepted,
    Rejected(RequestRejectionReason),
    Completed(u16),
    BackendFailed(BackendFailureKind),
}

impl Phase {
    pub open spec fn timed_spec(self, elapsed: Duration) -> RequestPhase {
        match self {
            Phase::Accepted => RequestPhase::Accepted,
            Phase::Rejected(reason) => RequestPhase::Rejected { reason },
            Phase::Completed(status_code) => RequestPhase::Completed { status_code, elapsed },
            Phase::BackendFailed(kind) => RequestPhase::BackendFailed { kind, elapsed },
        }
    }

    pub fn timed(self, elapsed: Duration) -> (r: RequestPhase)
        ensures
            r == self.timed_spec(elapsed),
    {
        match self {
            Phase::Accepted => RequestPhase::Accepted,
            Phase::Rejected(reason) => RequestPhase::Rejected { reason },
            Phase::Completed(status_code) => RequestPhase::Completed { status_code, elapsed },
            Phase::BackendFailed(kind) => RequestPhase::BackendFailed { kind, elapsed },
        }
    }
}

/// What one decision tells observers and the client, in this order: the
/// rejection of the client, the phase of the request, the observation that the
/// main frame got an answer of the proxy itself, and that answer.
#[derive(Clone, Copy, Debug, PartialEq, Eq, Structural)]
pub struct Report {
    pub client: Option<ClientRejectionReason>,
    pub phase: Option<Phase>,
    pub main_frame: bool,
    pub reply: Option<Refusal>,
}

impl Report {
    pub open spec fn silent() -> Report {
        Report { client: None, phase: None, main_frame: false, reply: None }
    }

    pub open spec fn of_phase(phase: Phase) -> Report {
        Report { phase: Some(phase), ..Report::silent() }
    }

    /// A refusal of a request.
    pub open spec fn refused(
        refusal: Refusal,
        reason: RequestRejectionReason,
        main_frame: bool,
    ) -> Report {
        Report {
            client: None,
            phase: Some(Phase::Rejected(reason)),
            main_frame,
            reply: Some(refusal),
        }
    }

    /// A refusal of a request that breaks HTTP.
    pub open spec fn malformed(error: Http1Error, main_frame: bool) -> Report {
        Report::refused(Refusal::Http(error), rejection_of(error), main_frame)
    }

    /// A refusal of a client whose request is not known.
    pub open spec fn client_refused(
        reason: ClientRejectionReason,
        reply: Option<Refusal>,
    ) -> Report {
        Report { client: Some(reason), phase: None, main_frame: false, reply }
    }

    pub fn nothing() -> (r: Report)
        ensures
            r == Report::silent(),
    {
        Report { client: None, phase: None, main_frame: false, reply: None }
    }

    pub fn phase(phase: Phase) -> (r: Report)
        ensures
            r == Report::of_phase(phase),
    {
        Report { client: None, phase: Some(phase), main_frame: false, reply: None }
    }

    pub fn refuse(refusal: Refusal, reason: RequestRejectionReason, main_frame: bool) -> (r: Report)
        ensures
            r == Report::refused(refusal, reason, main_frame),
    {
        Report {
            client: None,
            phase: Some(Phase::Rejected(reason)),
            main_frame,
            reply: Some(refusal),
        }
    }

    pub fn refuse_http(error: Http1Error, main_frame: bool) -> (r: Report)
        ensures
            r == Report::malformed(error, main_frame),
    {
        let reason = match error {
            Http1Error::BodyTooLarge => RequestRejectionReason::RequestTooLarge,
            _ => RequestRejectionReason::InvalidRequest,
        };
        Report::refuse(Refusal::Http(error), reason, main_frame)
    }

    pub fn refuse_client(reason: ClientRejectionReason, reply: Option<Refusal>) -> (r: Report)
        ensures
            r == Report::client_refused(reason, reply),
    {
        Report { client: Some(reason), phase: None, main_frame: false, reply }
    }

    /// The event of the client's rejection.
    pub fn client_event(&self, generation: u64) -> (r: Option<ProxyEvent>)
        ensures
            r == (match self.client {
                Some(reason) => Some(ProxyEvent::ClientRejected { generation, reason }),
                None => None,
            }),
    {
        match self.client {
            Some(reason) => Some(ProxyEvent::ClientRejected { generation, reason }),
            None => None,
        }
    }

    /// The event of the request's phase, where there is one and the host can be
    /// observed.
    pub fn request_event(
        &self,
        generation: u64,
        host: &str,
        method: ObservedMethod,
        elapsed: Duration,
    ) -> (r: Option<ProxyEvent>)
        ensures
            match (r, self.phase, event::observed_host(host@)) {
                (
                    Some(ProxyEvent::Request { generation: g, host: h, method: m, phase: p }),
                    Some(phase),
                    Ok(v),
                ) => g == generation && h@ == v && m == method && p == phase.timed_spec(elapsed),
                (None, None, _) => true,
                (None, Some(_), Err(_)) => true,
                _ => false,
            },
    {
        match self.phase {
            None => None,
            Some(phase) => event::request_event(generation, host, method, phase.timed(elapsed)),
        }
    }

    /// The observation that the main frame was answered by the proxy itself.
    pub fn main_frame_observation(
        &self,
        generation: u64,
        host: &str,
        method: ObservedMethod,
    ) -> (r: Option<ProxyResponseMetadataObservation>)
        ensures
            match (r, self.reply, event::observed_host(host@)) {
                (Some(o), Some(refusal), Ok(v)) => {
                    &&& self.main_frame
                    &&& o@.generation == generation
                    &&& o@.host == v
                    &&& o@.method == method
                    &&& o@.status_code == refusal.line().0
                    &&& o@.likely_main_frame
                    &&& o@.observation_id is None
                    &&& o@.kind == ProxyMetadataObservationKind::OriginResponse
                    &&& o@.connect_port is None
                    &&& o@.correlation_epoch is None
                    &&& o@.metadata.len() == 0
                },
                (None, Some(_), Ok(_)) => !self.main_frame,
                (None, _, _) => true,
                _ => false,
            },
    {
        if !self.main_frame {
            return None;
        }
        match self.reply {
            None => None,
            Some(refusal) => match ObservedHost::new(host) {
                Err(_) => None,
                Ok(host) => Some(
                    ProxyResponseMetadataObservation::new(
                        generation,
                        host,
                        method,
                        refusal.status(),
                        true,
                        None,
                        InternalResponseMetadata::none(),
                    ),
                ),
            },
        }
    }
}

/// The reason under which a malformed request is reported.
pub open spec fn rejection_of(error: Http1Error) -> RequestRejectionReason {
    if error == Http1Error::BodyTooLarge {
        RequestRejectionReason::RequestTooLarge
    } else {
        RequestRejectionReason::InvalidRequest
    }
}

// ---------------------------------------------------------------------
// Rate limits
// ---------------------------------------------------------------------

#[derive(Clone, Copy, Debug, PartialEq, Eq, Structural)]
pub enum RateLimitScope {
    Global,
    Host,
}

/// What a rate limiter said of one request, with the time to wait.
#[derive(Clone, Copy, Debug, PartialEq, Eq, Structural)]
pub enum RateLimitDecision {
    Allowed,
    Limited { scope: RateLimitScope, retry_seconds: u64, retry_nanos: u32 },
}

pub open spec fn rate_report(decision: RateLimitDecision, main_frame: bool) -> Option<Report> {
    match decision {
        RateLimitDecision::Allowed => None,
        RateLimitDecision::Limited { scope, retry_seconds, retry_nanos } => Some(
            Report::refused(
                Refusal::RateLimited {
                    seconds: if retry_nanos != 0 && retry_seconds < u64::MAX {
                        (retry_seconds + 1) as u64
                    } else {
                        retry_seconds
                    },
                },
                if scope == RateLimitScope::Global {
                    RequestRejectionReason::GlobalRateLimit
                } else {
                    RequestRejectionReason::HostRateLimit
                },
                main_frame,
            ),
        ),
    }
}

/// The refusal of a request over its rate limit. A wait that cannot be counted in
/// whole seconds is cut to the longest one that can.
pub fn admit_rate(decision: RateLimitDecision, main_frame: bool) -> (r: Option<Report>)
    ensures
        r == rate_report(decision, main_frame),
{
    match decision {
        RateLimitDecision::Allowed => None,
        RateLimitDecision::Limited { scope, retry_seconds, retry_nanos } => {
            let seconds: u64 = if retry_nanos != 0 && retry_seconds < u64::MAX {
                retry_after_seconds(retry_seconds, retry_nanos)
            } else {
                retry_seconds
            };
            let reason = match scope {
                RateLimitScope::Global => RequestRejectionReason::GlobalRateLimit,
                RateLimitScope::Host => RequestRejectionReason::HostRateLimit,
            };
            Some(Report::refuse(Refusal::RateLimited { seconds }, reason, main_frame))
        },
    }
}

/// The limits of a proxy that bound its request rate.
#[derive(Clone, Copy, Debug, PartialEq, Eq, Structural)]
pub struct ProxyLimits {
    pub max_active_clients: usize,
    pub max_header_bytes: usize,
    pub max_body_bytes: u64,
    pub max_requests_per_window: u32,
    pub max_requests_per_host_per_window: u32,
    pub rate_window_nanos: u128,
    pub max_tracked_hosts: usize,
}

#[derive(Clone, Copy, Debug, PartialEq, Eq, Structural)]
pub struct RateLimitConfig {
    pub global_requests: u32,
    pub per_host_requests: u32,
    pub window_nanos: u128,
    pub max_tracked_hosts: usize,
}

/// The configuration of the rate limiter under the limits of a proxy.
pub fn rate_limit_config(limits: ProxyLimits) -> (r: RateLimitConfig)
    ensures
        r == (RateLimitConfig {
            global_requests: limits.max_requests_per_window,
            per_host_requests: limits.max_requests_per_host_per_window,
            window_nanos: limits.rate_window_nanos,
            max_tracked_hosts: limits.max_tracked_hosts,
        }),
{
    RateLimitConfig {
        global_requests: limits.max_requests_per_window,
        per_host_requests: limits.max_requests_per_host_per_window,
        window_nanos: limits.rate_window_nanos,
        max_tracked_hosts: limits.max_tracked_hosts,
    }
}

// ---------------------------------------------------------------------
// Laws
// ---------------------------------------------------------------------

/// With what a failure of the backend is answered: to a request, and to a CONNECT.
pub proof fn backend_failures_have_their_answers()
    ensures
        backend_error_status_of(BackendError::Cancelled) == (503u16, "Proxy Request Cancelled"@),
        backend_error_status_of(BackendError::InvalidRequest) == (400u16, "Invalid Gateway Request"@),
        backend_error_status_of(BackendError::PolicyDenied) == (403u16, "Gateway Policy Denied"@),
        backend_error_status_of(BackendError::ResolutionFailed) == (502u16, "HNS Resolution Failed"@),
        backend_error_status_of(BackendError::TlsValidationFailed) == (502u16, "HNS TLS Validation Failed"@),
        backend_error_status_of(BackendError::UpstreamUnavailable) == (502u16, "HNS Upstream Unavailable"@),
        backend_error_status_of(BackendError::InvalidResponse) == (502u16, "Invalid Upstream Response"@),
        backend_error_status_of(BackendError::ResponseTooLarge) == (502u16, "Upstream Response Too Large"@),
        backend_error_status_of(BackendError::UnsupportedUpgrade) == (501u16, "HNS Protocol Upgrade Unsupported"@),
        backend_error_status_of(BackendError::Internal) == (500u16, "Proxy Internal Error"@),
        connect_error_status_of(BackendError::Cancelled) == (503u16, "Browser Security Request Cancelled"@),
        connect_error_status_of(BackendError::InvalidRequest) == (400u16, "Invalid Browser Security Request"@),
        connect_error_status_of(BackendError::PolicyDenied) == (403u16, "Browser Security Policy Denied"@),
        connect_error_status_of(BackendError::ResolutionFailed) == (502u16, "Namespace Resolution Failed"@),
        connect_error_status_of(BackendError::TlsValidationFailed) == (502u16, "Origin TLS Validation Failed"@),
        connect_error_status_of(BackendError::UpstreamUnavailable) == (502u16, "Origin Unavailable"@),
        connect_error_status_of(BackendError::InvalidResponse) == (502u16, "Invalid Origin Response"@),
        connect_error_status_of(BackendError::ResponseTooLarge) == (502u16, "Origin Response Too Large"@),
        connect_error_status_of(BackendError::UnsupportedUpgrade) == (501u16, "Protocol Upgrade Unsupported"@),
        connect_error_status_of(BackendError::Internal) == (503u16, "Browser Security Runtime Unavailable"@),
{
}

/// With what a refusal is answered. One that asks for credentials carries the challenge,
/// and one for too many requests says when to come back; no other carries a field more.
pub proof fn refusals_have_their_answers(
    challenge: Seq<char>,
    seconds: u64,
    e: Http1Error,
    failure: BackendError,
)
    ensures
        Refusal::Authentication.line() == (407u16, "Proxy Authentication Required"@),
        Refusal::RouteDenied.line() == (403u16, "Proxy Scope Denied"@),
        Refusal::ScopeDenied.line() == (403u16, "HNS Proxy Scope Denied"@),
        Refusal::BadRequest.line() == (400u16, "Bad Request"@),
        Refusal::UpgradeUnsupported.line() == (501u16, "HNS Protocol Upgrade Unsupported"@),
        Refusal::UpgradeBody.line() == (400u16, "HNS Protocol Upgrade Body Unsupported"@),
        Refusal::Expectation.line() == (417u16, "Expectation Failed"@),
        Refusal::ConnectBody.line() == (400u16, "HNS CONNECT Body Unsupported"@),
        Refusal::PortDenied.line() == (403u16, "Destination Port Denied"@),
        Refusal::ClientLimit.line() == (429u16, "Too Many Requests"@),
        Refusal::WebPkiUnavailable.line() == (502u16, "ICANN WebPKI Origin Unavailable"@),
        Refusal::LocalTlsUnavailable.line() == (503u16, "HNS Local TLS Unavailable"@),
        Refusal::InvalidUpstream.line() == (502u16, "Invalid Upstream Response"@),
        (Refusal::RateLimited { seconds }).line() == (429u16, "Too Many Requests"@),
        Refusal::Backend(failure).line() == backend_error_status_of(failure),
        Refusal::ConnectBackend(failure).line() == connect_error_status_of(failure),
        Refusal::Http(e).line() == request_error_status_of(e),
        Refusal::Authentication.extra(challenge) == Some(("Proxy-Authenticate"@, challenge)),
        (Refusal::RateLimited { seconds }).extra(challenge) == Some(
            ("Retry-After"@, text::decimal(seconds as nat)),
        ),
        Refusal::ClientLimit.extra(challenge) == Some(("Retry-After"@, "1"@)),
        forall|r: Refusal|
            #![trigger r.extra(challenge)]
            r.extra(challenge) is Some <==> r is Authentication || r is RateLimited
                || r is ClientLimit,
{
}

/// With what a request that could not be read is answered: one that came too late with
/// 408, one with too large a head with 431, one with too large a body with 413, one with
/// an unknown coding with 501, any other with 400.
pub proof fn unread_requests_have_their_answers(e: Http1Error)
    ensures
        request_error_status_of(e).0 == (match e {
            Http1Error::Io(IoKind::TimedOut) | Http1Error::Io(IoKind::WouldBlock) => 408u16,
            Http1Error::HeadTooLarge | Http1Error::TooManyHeaders => 431,
            Http1Error::BodyTooLarge => 413,
            Http1Error::UnsupportedTransferEncoding => 501,
            _ => 400,
        }),
        request_error_status_of(e).1 == (match e {
            Http1Error::Io(IoKind::TimedOut) | Http1Error::Io(IoKind::WouldBlock) =>
                "Request Timeout"@,
            Http1Error::HeadTooLarge
            | Http1Error::TooManyHeaders => "Request Header Fields Too Large"@,
            Http1Error::BodyTooLarge => "Payload Too Large"@,
            Http1Error::UnsupportedTransferEncoding => "Transfer Encoding Unsupported"@,
            Http1Error::InvalidContentLength => "Bad Content-Length"@,
            Http1Error::AmbiguousFraming => "Bad Request Framing"@,
            Http1Error::MissingHost | Http1Error::HostMismatch => "HNS Host Header Mismatch"@,
            Http1Error::TargetMismatch => "HNS Request Mismatch"@,
            _ => "Bad Request"@,
        }),
        rejection_of(e) is RequestTooLarge <==> e is BodyTooLarge,
        rejection_of(e) is RequestTooLarge || rejection_of(e) is InvalidRequest,
{
}

/// An answer of the proxy's own is its status line, the fields that keep it from being
/// cached, reused or guessed at, the field that its refusal carries, and the reason as a
/// text of the length that is announced.
pub proof fn answers_announce_their_length(
    status: u16,
    reason: Seq<char>,
    extra: Option<(Seq<char>, Seq<char>)>,
)
    ensures
        error_response_bytes(status, reason, extra) == vstd::utf8::encode_utf8(
            "HTTP/1.1 "@ + text::decimal(status as nat) + " "@ + reason
                + "\r\nConnection: close\r\nCache-Control: no-store\r\nContent-Type: text/plain; charset=utf-8\r\nX-Content-Type-Options: nosniff\r\n"@
                + (match extra {
                Some((name, value)) => name + ": "@ + value + "\r\n"@,
                None => Seq::empty(),
            }) + "Content-Length: "@ + text::decimal(vstd::utf8::encode_utf8(reason).len())
                + "\r\n\r\n"@ + reason,
        ),
{
}

/// What kind of failure the observer is told of.
pub proof fn failures_are_told_by_kind()
    ensures
        failure_kind_of(BackendError::Cancelled) is Cancelled,
        failure_kind_of(BackendError::InvalidRequest) is InvalidRequest,
        failure_kind_of(BackendError::UnsupportedUpgrade) is InvalidRequest,
        failure_kind_of(BackendError::PolicyDenied) is PolicyDenied,
        failure_kind_of(BackendError::ResolutionFailed) is Resolution,
        failure_kind_of(BackendError::TlsValidationFailed) is TlsValidation,
        failure_kind_of(BackendError::UpstreamUnavailable) is Upstream,
        failure_kind_of(BackendError::InvalidResponse) is InvalidResponse,
        failure_kind_of(BackendError::ResponseTooLarge) is ResponseTooLarge,
        failure_kind_of(BackendError::Internal) is Internal,
{
}

/// A request within the limits is let through without a word. Any other is told to come
/// back after the whole seconds that are left, rounded up, and the observer by which limit
/// it was held.
pub proof fn requests_over_the_limit_come_back(decision: RateLimitDecision, main_frame: bool)
    ensures
        rate_report(decision, main_frame) is None <==> decision is Allowed,
        decision matches RateLimitDecision::Limited { scope, retry_seconds, retry_nanos } ==> {
            &&& rate_report(decision, main_frame) matches Some(report)
            &&& report.client is None && report.main_frame == main_frame
            &&& report.phase == Some(
                Phase::Rejected(
                    match scope {
                        RateLimitScope::Global => RequestRejectionReason::GlobalRateLimit,
                        RateLimitScope::Host => RequestRejectionReason::HostRateLimit,
                    },
                ),
            )
            &&& report.reply matches Some(Refusal::RateLimited { seconds })
            &&& retry_nanos == 0 ==> seconds == retry_seconds
            &&& retry_nanos != 0 && retry_seconds < u64::MAX ==> seconds == retry_seconds + 1
        },
{
}

/// What is reported of a refusal, a malformed request, a phase and a client that is turned
/// away; and that a host outside the scope is told so, other routes only that they are
/// denied.
pub proof fn reports_say_what_happened(
    refusal: Refusal,
    reason: RequestRejectionReason,
    main_frame: bool,
    error: Http1Error,
    phase: Phase,
    client: ClientRejectionReason,
    reply: Option<Refusal>,
    route: RouteRejection,
)
    ensures
        Report::silent() == (Report { client: None, phase: None, main_frame: false, reply: None }),
        Report::of_phase(phase) == (Report {
            client: None,
            phase: Some(phase),
            main_frame: false,
            reply: None,
        }),
        Report::refused(refusal, reason, main_frame) == (Report {
            client: None,
            phase: Some(Phase::Rejected(reason)),
            main_frame,
            reply: Some(refusal),
        }),
        Report::malformed(error, main_frame) == (Report {
            client: None,
            phase: Some(
                Phase::Rejected(
                    if error is BodyTooLarge {
                        RequestRejectionReason::RequestTooLarge
                    } else {
                        RequestRejectionReason::InvalidRequest
                    },
                ),
            ),
            main_frame,
            reply: Some(Refusal::Http(error)),
        }),
        Report::client_refused(client, reply) == (Report {
            client: Some(client),
            phase: None,
            main_frame: false,
            reply,
        }),
        route_refusal_of(route) is ScopeDenied <==> route == RouteRejection::Scope(
            HostScopeError::OutOfScope,
        ),
        route_refusal_of(route) is ScopeDenied || route_refusal_of(route) is RouteDenied,
{
}

/// A wait is told in whole seconds, and never too short.
pub proof fn waits_are_rounded_up(seconds: u64, subsecond_nanos: u32, r: u64)
    requires
        call_ensures(retry_after_seconds, (seconds, subsecond_nanos), r),
    ensures
        subsecond_nanos == 0 ==> r == seconds,
        subsecond_nanos != 0 ==> r == seconds + 1,
{
}

/// Requests are limited as the limits of the proxy say.
pub proof fn rates_follow_the_limits(limits: ProxyLimits, r: RateLimitConfig)
    requires
        call_ensures(rate_limit_config, (limits,), r),
    ensures
        r.global_requests == limits.max_requests_per_window,
        r.per_host_requests == limits.max_requests_per_host_per_window,
        r.window_nanos == limits.rate_window_nanos,
        r.max_tracked_hosts == limits.max_tracked_hosts,
{
}

/// What ends takes its time with it; what begins or is refused has none.
pub proof fn ends_are_timed(
    reason: RequestRejectionReason,
    status_code: u16,
    kind: BackendFailureKind,
    elapsed: Duration,
)
    ensures
        Phase::Accepted.timed_spec(elapsed) == RequestPhase::Accepted,
        Phase::Rejected(reason).timed_spec(elapsed) == (RequestPhase::Rejected { reason }),
        Phase::Completed(status_code).timed_spec(elapsed) == (RequestPhase::Completed {
            status_code,
            elapsed,
        }),
        Phase::BackendFailed(kind).timed_spec(elapsed) == (RequestPhase::BackendFailed {
            kind,
            elapsed,
        }),
{
}

} // verus!
