//! From an accepted connection to an admitted request: who may speak, what is
//! asked for, and which host it is for.

use crate::addr;
use crate::addr::IpAddr;
use crate::auth::{AuthorizationView, ProxyAuthorization};
use crate::event::{ClientRejectionReason, RequestRejectionReason};
use crate::forward;
use crate::host;
use crate::host::{HostScope, HostScopeError, NameClass, NormalizedHost};
use crate::http1;
use crate::http1::{Http1Error, RequestHead, RequestHeadView};
use crate::reply::{Phase, RateLimitDecision, Refusal, Report, RouteRejection};
use crate::reply;
use crate::target;
use crate::target::{
    AbsoluteTarget, Authority, AuthorityView, RequestTarget, RequestTargetView, Scheme,
};
use vstd::prelude::*;

verus! {

// ---------------------------------------------------------------------
// Hosts
// ---------------------------------------------------------------------

#[derive(Clone, Copy, Debug, PartialEq, Eq, Structural)]
pub enum ProxyRoutingMode {
    /// Every ordinary name, whichever root it resolves in.
    DaneBrowser,
    /// The names of one HNS scope.
    ScopedHns,
}

/// What the network policy and the resolver say of a canonical host.
#[derive(Clone, Copy, Debug, PartialEq, Eq, Structural)]
pub struct HostFacts {
    pub special_use: bool,
    pub class: NameClass,
}

pub open spec fn scope_view(scope: Option<&HostScope>) -> Option<Seq<char>> {
    match scope {
        Some(s) => Some(s@),
        None => None,
    }
}

/// The canonical host, where it is served.
pub open spec fn admitted_host(
    mode: ProxyRoutingMode,
    scope: Option<Seq<char>>,
    raw_host: Seq<char>,
    facts: HostFacts,
) -> Result<Seq<char>, RouteRejection> {
    if mode == ProxyRoutingMode::DaneBrowser {
        match host::normalized(raw_host) {
            Err(e) => Err(RouteRejection::Scope(HostScopeError::InvalidHost(e))),
            Ok(h) => if facts.special_use {
                Err(RouteRejection::SpecialUse)
            } else {
                Ok(h)
            },
        }
    } else {
        match scope {
            None => Err(RouteRejection::InvalidClass),
            Some(root) => match host::normalized(raw_host) {
                Err(e) => Err(RouteRejection::Scope(HostScopeError::InvalidHost(e))),
                Ok(h) => match host::scope_decision(h, facts.class, root) {
                    Err(e) => Err(RouteRejection::Scope(e)),
                    Ok(h) => Ok(h),
                },
            },
        }
    }
}

pub open spec fn same_admission(
    r: Result<NormalizedHost, RouteRejection>,
    v: Result<Seq<char>, RouteRejection>,
) -> bool {
    match (r, v) {
        (Ok(h), Ok(w)) => h@ == w,
        (Err(e), Err(f)) => e == f,
        _ => false,
    }
}

/// Admits a target host. `facts` are those of its canonical name.
pub fn admit_target_host(
    mode: ProxyRoutingMode,
    scope: Option<&HostScope>,
    raw_host: &str,
    facts: HostFacts,
) -> (r: Result<NormalizedHost, RouteRejection>)
    ensures
        same_admission(r, admitted_host(mode, scope_view(scope), raw_host@, facts)),
{
    match mode {
        ProxyRoutingMode::DaneBrowser => match NormalizedHost::parse(raw_host) {
            Err(e) => Err(RouteRejection::Scope(HostScopeError::InvalidHost(e))),
            Ok(h) => if facts.special_use {
                Err(RouteRejection::SpecialUse)
            } else {
                Ok(h)
            },
        },
        ProxyRoutingMode::ScopedHns => match scope {
            None => Err(RouteRejection::InvalidClass),
            Some(s) => match s.authorize(raw_host, facts.class) {
                Err(e) => Err(RouteRejection::Scope(e)),
                Ok(h) => Ok(h),
            },
        },
    }
}

// ---------------------------------------------------------------------
// Heads
// ---------------------------------------------------------------------

/// The head carries the credentials exactly once.
pub open spec fn authenticated(authorization: AuthorizationView, head: RequestHeadView) -> bool {
    let values = http1::values_of(head.headers, "Proxy-Authorization"@);
    values.len() == 1 && authorization.accepts(values[0])
}

/// What a request asks for, or why the client is turned away.
pub open spec fn interpreted(
    authorization: AuthorizationView,
    head: Result<RequestHeadView, Http1Error>,
) -> Result<RequestTargetView, Report> {
    match head {
        Err(e) => Err(
            Report::client_refused(ClientRejectionReason::InvalidRequest, Some(Refusal::Http(e))),
        ),
        Ok(h) => if !authenticated(authorization, h) {
            Err(
                Report::client_refused(
                    ClientRejectionReason::AuthenticationRequired,
                    Some(Refusal::Authentication),
                ),
            )
        } else {
            match http1::validated_target_of(h, None) {
                Err(e) => Err(
                    Report::client_refused(
                        ClientRejectionReason::InvalidRequest,
                        Some(Refusal::Http(e)),
                    ),
                ),
                Ok(t) => Ok(t),
            }
        },
    }
}

pub open spec fn head_view(r: Result<&RequestHead, Http1Error>) -> Result<
    RequestHeadView,
    Http1Error,
> {
    match r {
        Ok(h) => Ok(h@),
        Err(e) => Err(e),
    }
}

pub open spec fn same_interpretation(
    r: Result<RequestTarget, Report>,
    v: Result<RequestTargetView, Report>,
) -> bool {
    match (r, v) {
        (Ok(t), Ok(w)) => t@ == w,
        (Err(e), Err(f)) => e == f,
        _ => false,
    }
}

/// Authenticates a client and interprets its request. The target is looked at
/// only once the credentials have been.
pub fn interpret_head(authorization: &ProxyAuthorization, head: Result<&RequestHead, Http1Error>) -> (r:
    Result<RequestTarget, Report>)
    ensures
        same_interpretation(r, interpreted(authorization@, head_view(head))),
{
    let head = match head {
        Err(e) => {
            return Err(
                Report::refuse_client(
                    ClientRejectionReason::InvalidRequest,
                    Some(Refusal::Http(e)),
                ),
            );
        },
        Ok(h) => h,
    };
    let values = head.header_values(crate::auth::PROXY_AUTHORIZATION_HEADER);
    assert(http1::texts(values@).len() == values@.len());
    assert(values@.len() == 1 ==> http1::texts(values@)[0] == values@[0]@);
    if !authorization.verify_header_values(values.as_slice()) {
        return Err(
            Report::refuse_client(
                ClientRejectionReason::AuthenticationRequired,
                Some(Refusal::Authentication),
            ),
        );
    }
    match head.validated_target(None) {
        Err(e) => Err(
            Report::refuse_client(ClientRejectionReason::InvalidRequest, Some(Refusal::Http(e))),
        ),
        Ok(t) => Ok(t),
    }
}

/// A client without the credentials is told the same whatever it asked for.
pub proof fn unauthenticated_clients_learn_nothing(
    authorization: AuthorizationView,
    a: RequestHeadView,
    b: RequestHeadView,
)
    requires
        !authenticated(authorization, a),
        !authenticated(authorization, b),
    ensures
        interpreted(authorization, Ok(a)) == interpreted(authorization, Ok(b)),
        interpreted(authorization, Ok(a)) is Err,
        interpreted(authorization, Ok(a))->Err_0.reply == Some(Refusal::Authentication),
{
}

/// Every target that is interpreted belongs to an authenticated client.
pub proof fn interpreted_requests_are_authenticated(
    authorization: AuthorizationView,
    head: Result<RequestHeadView, Http1Error>,
)
    requires
        interpreted(authorization, head) is Ok,
    ensures
        head is Ok,
        authenticated(authorization, head->Ok_0),
        http1::validated_target_of(head->Ok_0, None) == Ok::<RequestTargetView, Http1Error>(
            interpreted(authorization, head)->Ok_0,
        ),
{
}

// ---------------------------------------------------------------------
// The way of a client to its service
// ---------------------------------------------------------------------

/// The report of a target host that is not served. It is observed only where
/// the host has a canonical form.
pub open spec fn route_report(rejection: RouteRejection, has_canonical_host: bool) -> Report {
    Report {
        client: None,
        phase: if has_canonical_host {
            Some(Phase::Rejected(RequestRejectionReason::HostOutsideScope))
        } else {
            None
        },
        main_frame: false,
        reply: Some(reply::route_refusal_of(rejection)),
    }
}

pub fn reject_route(rejection: RouteRejection, has_canonical_host: bool) -> (r: Report)
    ensures
        r == route_report(rejection, has_canonical_host),
{
    let (refusal, reason) = reply::route_rejection(rejection);
    Report {
        client: None,
        phase: if has_canonical_host {
            Some(Phase::Rejected(reason))
        } else {
            None
        },
        main_frame: false,
        reply: Some(refusal),
    }
}

#[derive(Clone, Copy, Debug, PartialEq, Eq, Structural)]
pub enum TargetKind {
    Absolute,
    Connect,
    Origin,
}

pub open spec fn kind_of(t: RequestTargetView) -> TargetKind {
    match t {
        RequestTargetView::Absolute { .. } => TargetKind::Absolute,
        RequestTargetView::Connect { .. } => TargetKind::Connect,
        RequestTargetView::Origin { .. } => TargetKind::Origin,
    }
}

pub fn target_kind(t: &RequestTarget) -> (r: TargetKind)
    ensures
        r == kind_of(t@),
{
    match t {
        RequestTarget::Absolute(_) => TargetKind::Absolute,
        RequestTarget::Connect(_) => TargetKind::Connect,
        RequestTarget::Origin(_) => TargetKind::Origin,
    }
}

#[derive(Clone, Copy, Debug, PartialEq, Eq, Structural)]
pub enum ClientStage {
    Arriving,
    Configuring,
    Reading,
    Admitting,
    /// An absolute target is served over plain HTTP.
    ServingDirect,
    /// A CONNECT target is served.
    ServingConnect,
    Closed,
}

#[derive(Clone, Copy, Debug, PartialEq, Eq, Structural)]
pub enum ClientEvent {
    Arrived { peer: IpAddr, cancelled: bool },
    /// The socket got its write timeout, or not.
    Configured(bool),
    /// The head was interpreted, or the client is turned away.
    Interpreted(Option<Report>),
    /// The host of the target was admitted, or not.
    Admitted { refusal: Option<Report>, kind: TargetKind },
}

#[derive(Clone, Copy, Debug, PartialEq, Eq, Structural)]
pub enum ClientAction {
    ConfigureSocket,
    ReadHead,
    AdmitHost,
    ServeDirect(Report),
    ServeConnect(Report),
    Close { report: Report, shutdown: bool },
}

/// The next stage and what to do.
pub open spec fn client_step(s: ClientStage, event: ClientEvent) -> (ClientStage, ClientAction) {
    match (s, event) {
        (ClientStage::Arriving, ClientEvent::Arrived { peer, cancelled }) => if !addr::loopback(
            peer,
        ) {
            (
                ClientStage::Closed,
                ClientAction::Close {
                    report: Report::client_refused(ClientRejectionReason::InvalidPeer, None),
                    shutdown: true,
                },
            )
        } else if cancelled {
            (
                ClientStage::Closed,
                ClientAction::Close {
                    report: Report::client_refused(ClientRejectionReason::Cancelled, None),
                    shutdown: true,
                },
            )
        } else {
            (ClientStage::Configuring, ClientAction::ConfigureSocket)
        },
        (ClientStage::Configuring, ClientEvent::Configured(ok)) => if ok {
            (ClientStage::Reading, ClientAction::ReadHead)
        } else {
            (
                ClientStage::Closed,
                ClientAction::Close {
                    report: Report::client_refused(ClientRejectionReason::InvalidRequest, None),
                    shutdown: false,
                },
            )
        },
        (ClientStage::Reading, ClientEvent::Interpreted(refusal)) => match refusal {
            None => (ClientStage::Admitting, ClientAction::AdmitHost),
            Some(report) => (
                ClientStage::Closed,
                ClientAction::Close { report, shutdown: false },
            ),
        },
        (ClientStage::Admitting, ClientEvent::Admitted { refusal, kind }) => match (refusal, kind) {
            (Some(report), _) => (
                ClientStage::Closed,
                ClientAction::Close { report, shutdown: false },
            ),
            (None, TargetKind::Absolute) => (
                ClientStage::ServingDirect,
                ClientAction::ServeDirect(Report::of_phase(Phase::Accepted)),
            ),
            (None, TargetKind::Connect) => (
                ClientStage::ServingConnect,
                ClientAction::ServeConnect(Report::of_phase(Phase::Accepted)),
            ),
            (None, TargetKind::Origin) => (
                ClientStage::Closed,
                ClientAction::Close {
                    report: Report::refused(
                        Refusal::BadRequest,
                        RequestRejectionReason::InvalidRequest,
                        false,
                    ),
                    shutdown: false,
                },
            ),
        },
        _ => (
            ClientStage::Closed,
            ClientAction::Close { report: Report::silent(), shutdown: false },
        ),
    }
}

/// The way of one client.
#[derive(Clone, Copy, Debug, PartialEq, Eq, Structural)]
pub struct ClientFlow {
    pub stage: ClientStage,
}

impl ClientFlow {
    pub fn new() -> (r: Self)
        ensures
            r.stage == ClientStage::Arriving,
    {
        ClientFlow { stage: ClientStage::Arriving }
    }

    fn close(&mut self, report: Report, shutdown: bool) -> (r: ClientAction)
        ensures
            final(self).stage == ClientStage::Closed,
            r == (ClientAction::Close { report, shutdown }),
    {
        self.stage = ClientStage::Closed;
        ClientAction::Close { report, shutdown }
    }

    pub fn step(&mut self, event: ClientEvent) -> (r: ClientAction)
        ensures
            (final(self).stage, r) == client_step(old(self).stage, event),
    {
        match (self.stage, event) {
            (ClientStage::Arriving, ClientEvent::Arrived { peer, cancelled }) => {
                if !peer.is_loopback() {
                    let report = Report::refuse_client(ClientRejectionReason::InvalidPeer, None);
                    self.close(report, true)
                } else if cancelled {
                    let report = Report::refuse_client(ClientRejectionReason::Cancelled, None);
                    self.close(report, true)
                } else {
                    self.stage = ClientStage::Configuring;
                    ClientAction::ConfigureSocket
                }
            },
            (ClientStage::Configuring, ClientEvent::Configured(ok)) => {
                if ok {
                    self.stage = ClientStage::Reading;
                    ClientAction::ReadHead
                } else {
                    let report = Report::refuse_client(
                        ClientRejectionReason::InvalidRequest,
                        None,
                    );
                    self.close(report, false)
                }
            },
            (ClientStage::Reading, ClientEvent::Interpreted(refusal)) => match refusal {
                None => {
                    self.stage = ClientStage::Admitting;
                    ClientAction::AdmitHost
                },
                Some(report) => self.close(report, false),
            },
            (ClientStage::Admitting, ClientEvent::Admitted { refusal, kind }) => match refusal {
                Some(report) => self.close(report, false),
                None => match kind {
                    TargetKind::Absolute => {
                        self.stage = ClientStage::ServingDirect;
                        ClientAction::ServeDirect(Report::phase(Phase::Accepted))
                    },
                    TargetKind::Connect => {
                        self.stage = ClientStage::ServingConnect;
                        ClientAction::ServeConnect(Report::phase(Phase::Accepted))
                    },
                    TargetKind::Origin => {
                        let report = Report::refuse(
                            Refusal::BadRequest,
                            RequestRejectionReason::InvalidRequest,
                            false,
                        );
                        self.close(report, false)
                    },
                },
            },
            _ => {
                let report = Report::nothing();
                self.close(report, false)
            },
        }
    }
}

/// The stage of a client after a sequence of events.
pub open spec fn client_run(events: Seq<ClientEvent>) -> ClientStage
    decreases events.len(),
{
    if events.len() == 0 {
        ClientStage::Arriving
    } else {
        client_step(client_run(events.drop_last()), events.last()).0
    }
}

/// The events that lead to each stage but the last.
pub open spec fn client_history(s: ClientStage, events: Seq<ClientEvent>) -> bool {
    let arrived = events.len() > 0 && (events[0] matches ClientEvent::Arrived { peer, cancelled }
        && addr::loopback(peer) && !cancelled);
    let configured = arrived && events.len() > 1 && events[1] == ClientEvent::Configured(true);
    let interpreted = configured && events.len() > 2 && events[2] == ClientEvent::Interpreted(None);
    match s {
        ClientStage::Arriving => events.len() == 0,
        ClientStage::Configuring => arrived && events.len() == 1,
        ClientStage::Reading => configured && events.len() == 2,
        ClientStage::Admitting => interpreted && events.len() == 3,
        ClientStage::ServingDirect => interpreted && events.len() == 4 && events[3] == (
        ClientEvent::Admitted { refusal: None, kind: TargetKind::Absolute }),
        ClientStage::ServingConnect => interpreted && events.len() == 4 && events[3] == (
        ClientEvent::Admitted { refusal: None, kind: TargetKind::Connect }),
        ClientStage::Closed => events.len() > 0,
    }
}

/// Whatever happens, a client is served only if it came over loopback, its head
/// was authenticated and interpreted, and its host admitted, in this order.
pub proof fn clients_are_served_in_order(events: Seq<ClientEvent>)
    ensures
        client_history(client_run(events), events),
    decreases events.len(),
{
    if events.len() > 0 {
        let before = events.drop_last();
        clients_are_served_in_order(before);
        assert(forall|i: int| 0 <= i < before.len() ==> before[i] == events[i]);
        assert(events.last() == events[events.len() - 1]);
    }
}

// ---------------------------------------------------------------------
// Direct and connected requests
// ---------------------------------------------------------------------

/// How an absolute target is served.
#[derive(Clone, Copy, Debug, PartialEq, Eq, Structural)]
pub struct DirectPlan {
    pub upgrade: bool,
    pub main_frame: bool,
}

pub open spec fn direct_plan_of(head: RequestHeadView, scheme: Scheme, path: Seq<char>) -> DirectPlan {
    let upgrade = scheme == Scheme::Ws || scheme == Scheme::Wss || forward::upgrade_requested(
        head.headers,
    );
    DirectPlan {
        upgrade,
        main_frame: !upgrade && forward::is_navigation(head.method, head.headers, path),
    }
}

pub fn plan_direct(head: &RequestHead, absolute: &AbsoluteTarget) -> (r: DirectPlan)
    ensures
        r == direct_plan_of(head@, absolute.scheme_spec(), absolute.path_spec()),
{
    let upgrade = match absolute.scheme() {
        Scheme::Ws | Scheme::Wss => true,
        _ => forward::requests_upgrade(head),
    };
    let main_frame = !upgrade && forward::is_likely_main_frame_navigation(
        head,
        absolute.path_and_query(),
    );
    DirectPlan { upgrade, main_frame }
}

/// How a request inside a connection is served.
#[derive(Clone, Copy, Debug, PartialEq, Eq, Structural)]
pub enum ConnectedService {
    Http,
    Upgrade,
}

/// Where a request goes.
pub struct HttpRoute {
    pub scheme: Scheme,
    pub port: u16,
    pub path_and_query: String,
}

pub struct RouteView {
    pub scheme: Scheme,
    pub port: u16,
    pub path_and_query: Seq<char>,
}

impl View for HttpRoute {
    type V = RouteView;

    open spec fn view(&self) -> RouteView {
        RouteView {
            scheme: self.scheme,
            port: self.port,
            path_and_query: self.path_and_query@,
        }
    }
}

/// The route of an absolute target.
pub fn direct_route(absolute: &AbsoluteTarget) -> (r: HttpRoute)
    ensures
        r@ == (RouteView {
            scheme: absolute.scheme_spec(),
            port: absolute.authority_spec().port,
            path_and_query: absolute.path_spec(),
        }),
{
    HttpRoute {
        scheme: absolute.scheme(),
        port: absolute.authority().port(),
        path_and_query: absolute.path_and_query().to_owned(),
    }
}

/// Where an absolute target goes and how it is served, or why it is over its rate
/// limit.
pub open spec fn direct_service(
    head: RequestHeadView,
    scheme: Scheme,
    path: Seq<char>,
    decision: RateLimitDecision,
) -> Result<DirectPlan, Report> {
    let plan = direct_plan_of(head, scheme, path);
    match reply::rate_report(decision, plan.main_frame) {
        Some(report) => Err(report),
        None => Ok(plan),
    }
}

/// Serves an absolute target of an admitted host. `decision` is the word of the
/// rate limiter on this request.
pub fn handle_direct_http(
    head: &RequestHead,
    absolute: &AbsoluteTarget,
    decision: RateLimitDecision,
) -> (r: Result<(DirectPlan, HttpRoute), Report>)
    ensures
        match (
            r,
            direct_service(head@, absolute.scheme_spec(), absolute.path_spec(), decision),
        ) {
            (Ok((plan, route)), Ok(v)) => plan == v && route@ == (RouteView {
                scheme: absolute.scheme_spec(),
                port: absolute.authority_spec().port,
                path_and_query: absolute.path_spec(),
            }),
            (Err(e), Err(f)) => e == f,
            _ => false,
        },
{
    let plan = plan_direct(head, absolute);
    match reply::admit_rate(decision, plan.main_frame) {
        Some(report) => Err(report),
        None => Ok((plan, direct_route(absolute))),
    }
}

/// The target of a request inside a connection, or its refusal.
pub open spec fn connected_target(
    head: Result<RequestHeadView, Http1Error>,
    connected_to: AuthorityView,
) -> Result<RequestTargetView, Report> {
    match head {
        Err(e) => Err(Report::malformed(e, false)),
        Ok(h) => match http1::validated_target_of(h, Some(connected_to)) {
            Err(e) => Err(Report::malformed(e, false)),
            Ok(t) => Ok(t),
        },
    }
}

pub fn interpret_connected(head: Result<&RequestHead, Http1Error>, connected_to: &Authority) -> (r:
    Result<RequestTarget, Report>)
    ensures
        same_interpretation(r, connected_target(head_view(head), connected_to@)),
{
    match head {
        Err(e) => Err(Report::refuse_http(e, false)),
        Ok(h) => match h.validated_target(Some(connected_to)) {
            Err(e) => Err(Report::refuse_http(e, false)),
            Ok(t) => Ok(t),
        },
    }
}

/// A request inside a connection is for the host and port of the connection.
pub open spec fn connected_host(
    admission: Result<Seq<char>, RouteRejection>,
    target: RequestTargetView,
    connected_to: AuthorityView,
    outer_host: Seq<char>,
) -> Result<(), Report> {
    if admission == Ok::<Seq<char>, RouteRejection>(outer_host) && target.authority_spec().port
        == connected_to.port {
        Ok(())
    } else {
        Err(
            Report::refused(
                Refusal::ScopeDenied,
                RequestRejectionReason::HostOutsideScope,
                false,
            ),
        )
    }
}

pub fn admit_connected_host(
    mode: ProxyRoutingMode,
    scope: Option<&HostScope>,
    facts: HostFacts,
    target: &RequestTarget,
    connected_to: &Authority,
    outer_host: &NormalizedHost,
) -> (r: Result<(), Report>)
    ensures
        r == connected_host(
            admitted_host(mode, scope_view(scope), target@.authority_spec().host, facts),
            target@,
            connected_to@,
            outer_host@,
        ),
{
    let authority = target.authority();
    let same = match admit_target_host(mode, scope, authority.host(), facts) {
        Ok(h) => h.same(outer_host),
        Err(_) => false,
    };
    if same && authority.port() == connected_to.port() {
        Ok(())
    } else {
        Err(
            Report::refuse(
                Refusal::ScopeDenied,
                RequestRejectionReason::HostOutsideScope,
                false,
            ),
        )
    }
}

/// The service and route of a request inside a connection.
pub open spec fn connected_route(target: RequestTargetView, upgrade_requested: bool) -> Result<
    (ConnectedService, RouteView),
    Report,
> {
    match target {
        RequestTargetView::Origin { authority, path_and_query } => Ok(
            (
                if upgrade_requested {
                    ConnectedService::Upgrade
                } else {
                    ConnectedService::Http
                },
                RouteView { scheme: Scheme::Https, port: authority.port, path_and_query },
            ),
        ),
        RequestTargetView::Absolute { scheme, authority, path_and_query } if scheme.secure() => Ok(
            (
                if scheme == Scheme::Wss || upgrade_requested {
                    ConnectedService::Upgrade
                } else {
                    ConnectedService::Http
                },
                RouteView { scheme, port: authority.port, path_and_query },
            ),
        ),
        _ => Err(
            Report::refused(
                Refusal::UpgradeUnsupported,
                RequestRejectionReason::InvalidRequest,
                false,
            ),
        ),
    }
}

pub open spec fn same_route(
    r: Result<(ConnectedService, HttpRoute), Report>,
    v: Result<(ConnectedService, RouteView), Report>,
) -> bool {
    match (r, v) {
        (Ok(a), Ok(b)) => a.0 == b.0 && a.1@ == b.1,
        (Err(e), Err(f)) => e == f,
        _ => false,
    }
}

pub fn route_connected(target: &RequestTarget, upgrade_requested: bool) -> (r: Result<
    (ConnectedService, HttpRoute),
    Report,
>)
    ensures
        same_route(r, connected_route(target@, upgrade_requested)),
{
    match target {
        RequestTarget::Origin(origin) => Ok(
            (
                if upgrade_requested {
                    ConnectedService::Upgrade
                } else {
                    ConnectedService::Http
                },
                HttpRoute {
                    scheme: Scheme::Https,
                    port: origin.authority().port(),
                    path_and_query: origin.path_and_query().to_owned(),
                },
            ),
        ),
        RequestTarget::Absolute(absolute) => {
            let scheme = absolute.scheme();
            if !scheme.is_secure() {
                return Err(
                    Report::refuse(
                        Refusal::UpgradeUnsupported,
                        RequestRejectionReason::InvalidRequest,
                        false,
                    ),
                );
            }
            let service = match scheme {
                Scheme::Wss => ConnectedService::Upgrade,
                _ => if upgrade_requested {
                    ConnectedService::Upgrade
                } else {
                    ConnectedService::Http
                },
            };
            Ok((service, direct_route(absolute)))
        },
        RequestTarget::Connect(_) => Err(
            Report::refuse(
                Refusal::UpgradeUnsupported,
                RequestRejectionReason::InvalidRequest,
                false,
            ),
        ),
    }
}

/// What becomes of a request inside a connection.
pub struct ConnectedPlan {
    /// The request was accepted, which is reported before anything else.
    pub accepted: bool,
    pub next: Result<(ConnectedService, HttpRoute), Report>,
}

/// Whether the request is accepted, and its service and route or its refusal.
pub open spec fn connected_plan(
    mode: ProxyRoutingMode,
    scope: Option<Seq<char>>,
    facts: HostFacts,
    head: Result<RequestHeadView, Http1Error>,
    connected_to: AuthorityView,
    outer_host: Seq<char>,
) -> (bool, Result<(ConnectedService, RouteView), Report>) {
    match connected_target(head, connected_to) {
        Err(report) => (false, Err(report)),
        Ok(target) => match connected_host(
            admitted_host(mode, scope, target.authority_spec().host, facts),
            target,
            connected_to,
            outer_host,
        ) {
            Err(report) => (false, Err(report)),
            Ok(()) => (
                true,
                connected_route(target, forward::upgrade_requested(head->Ok_0.headers)),
            ),
        },
    }
}

/// Serves a request inside a connection to `outer_host`. `facts` are those of that
/// host: a request for any other host is refused whatever its facts are.
pub fn handle_connected_http(
    mode: ProxyRoutingMode,
    scope: Option<&HostScope>,
    facts: HostFacts,
    head: Result<&RequestHead, Http1Error>,
    connected_to: &Authority,
    outer_host: &NormalizedHost,
) -> (r: ConnectedPlan)
    ensures
        r.accepted == connected_plan(
            mode,
            scope_view(scope),
            facts,
            head_view(head),
            connected_to@,
            outer_host@,
        ).0,
        same_route(
            r.next,
            connected_plan(
                mode,
                scope_view(scope),
                facts,
                head_view(head),
                connected_to@,
                outer_host@,
            ).1,
        ),
{
    let target = match interpret_connected(head, connected_to) {
        Err(report) => {
            return ConnectedPlan { accepted: false, next: Err(report) };
        },
        Ok(t) => t,
    };
    match admit_connected_host(mode, scope, facts, &target, connected_to, outer_host) {
        Err(report) => ConnectedPlan { accepted: false, next: Err(report) },
        Ok(()) => {
            let upgrade = match head {
                Ok(h) => forward::requests_upgrade(h),
                Err(_) => false,
            };
            ConnectedPlan { accepted: true, next: route_connected(&target, upgrade) }
        },
    }
}

/// A request is accepted inside a connection only for the host and port of the
/// connection, and what is served of it stays with a secure scheme.
pub proof fn connected_requests_stay_connected(
    mode: ProxyRoutingMode,
    scope: Option<Seq<char>>,
    facts: HostFacts,
    head: Result<RequestHeadView, Http1Error>,
    connected_to: AuthorityView,
    outer_host: Seq<char>,
)
    ensures
        ({
            let (accepted, next) = connected_plan(
                mode,
                scope,
                facts,
                head,
                connected_to,
                outer_host,
            );
            &&& accepted ==> head is Ok && {
                let target = connected_target(head, connected_to)->Ok_0;
                &&& target.authority_spec().port == connected_to.port
                &&& admitted_host(mode, scope, target.authority_spec().host, facts) == Ok::<
                    Seq<char>,
                    RouteRejection,
                >(outer_host)
            }
            &&& next is Ok ==> accepted && next->Ok_0.1.port == connected_to.port
                && next->Ok_0.1.scheme.secure()
        }),
{
}

/// What the resolver says of another host cannot get a request for it served
/// inside a connection: with the canonical host of the request unequal to that of
/// the connection, it is refused under all facts.
pub proof fn other_hosts_are_refused_inside(
    mode: ProxyRoutingMode,
    scope: Option<Seq<char>>,
    facts: HostFacts,
    head: Result<RequestHeadView, Http1Error>,
    connected_to: AuthorityView,
    outer_host: Seq<char>,
)
    requires
        connected_target(head, connected_to) is Ok,
        host::normalized(
            connected_target(head, connected_to)->Ok_0.authority_spec().host,
        ) != Ok::<Seq<char>, host::HostNormalizationError>(outer_host),
    ensures
        connected_plan(mode, scope, facts, head, connected_to, outer_host) == (
            false,
            Err::<(ConnectedService, RouteView), Report>(
                Report::refused(
                    Refusal::ScopeDenied,
                    RequestRejectionReason::HostOutsideScope,
                    false,
                ),
            ),
        ),
{
}

/// In a browser that takes every root, a host is admitted exactly where it is a name or an
/// address that is of no special use. In a scoped one it must be a name of the scope, and
/// one that resolves under HNS. A host is admitted as its normal form, and what is refused
/// is refused for the first of these that fails.
pub proof fn hosts_are_admitted_by_mode(
    scope: Option<Seq<char>>,
    raw_host: Seq<char>,
    facts: HostFacts,
)
    ensures
        ({
            let normal = host::normalized(raw_host);
            let any = admitted_host(ProxyRoutingMode::DaneBrowser, scope, raw_host, facts);
            let scoped = admitted_host(ProxyRoutingMode::ScopedHns, scope, raw_host, facts);
            let decided = host::scope_decision(normal->Ok_0, facts.class, scope->Some_0);
            &&& any is Ok <==> normal is Ok && !facts.special_use
            &&& any is Ok ==> any->Ok_0 == normal->Ok_0
            &&& normal matches Err(e) ==> any == Err::<Seq<char>, RouteRejection>(
                RouteRejection::Scope(HostScopeError::InvalidHost(e)),
            )
            &&& normal is Ok && facts.special_use ==> any == Err::<Seq<char>, RouteRejection>(
                RouteRejection::SpecialUse,
            )
            &&& scoped is Ok <==> scope is Some && normal is Ok && decided is Ok
            &&& scoped is Ok ==> scoped->Ok_0 == decided->Ok_0
            &&& scope is None ==> scoped == Err::<Seq<char>, RouteRejection>(
                RouteRejection::InvalidClass,
            )
            &&& scope is Some ==> (normal matches Err(e) ==> scoped == Err::<
                Seq<char>,
                RouteRejection,
            >(RouteRejection::Scope(HostScopeError::InvalidHost(e))))
            &&& scope is Some && normal is Ok ==> (decided matches Err(e) ==> scoped == Err::<
                Seq<char>,
                RouteRejection,
            >(RouteRejection::Scope(e)))
        }),
{
}

/// A request is authenticated by one field of that name, in any case of letters, whose
/// value the session accepts; by none, or by several, it is not.
pub proof fn one_credential_authenticates(
    authorization: AuthorizationView,
    head: RequestHeadView,
)
    ensures
        ({
            let given = head.headers.filter(
                |h: http1::HeaderView| crate::text::lower(h.name) == "proxy-authorization"@,
            );
            authenticated(authorization, head) <==> given.len() == 1 && authorization.accepts(
                given[0].value,
            )
        }),
{
    let name = "Proxy-Authorization"@;
    reveal_strlit("Proxy-Authorization");
    reveal_strlit("proxy-authorization");
    assert(crate::text::lower(name) =~= "proxy-authorization"@);
    http1::values_are_found_by_name(head.headers, name);
    let given = head.headers.filter(
        |h: http1::HeaderView| crate::text::lower(h.name) == "proxy-authorization"@,
    );
    assert((|h: http1::HeaderView| crate::text::lower(h.name) == "proxy-authorization"@) =~= (|h: http1::HeaderView|
        crate::text::lower(h.name) == crate::text::lower(name)));
}

/// A head is interpreted exactly where it was read, is authenticated and has a target that
/// is valid. It is refused for the first of these that fails, and only what is malformed
/// is told apart.
pub proof fn good_heads_are_interpreted(
    authorization: AuthorizationView,
    head: RequestHeadView,
    error: Http1Error,
)
    ensures
        ({
            let target = http1::validated_target_of(head, None);
            let known = authenticated(authorization, head);
            let r = interpreted(authorization, Ok(head));
            let malformed = |e: Http1Error|
                Err::<RequestTargetView, Report>(
                    Report {
                        client: Some(ClientRejectionReason::InvalidRequest),
                        phase: None,
                        main_frame: false,
                        reply: Some(Refusal::Http(e)),
                    },
                );
            &&& r is Ok <==> known && target is Ok
            &&& r is Ok ==> r->Ok_0 == target->Ok_0
            &&& !known ==> r == Err::<RequestTargetView, Report>(
                Report {
                    client: Some(ClientRejectionReason::AuthenticationRequired),
                    phase: None,
                    main_frame: false,
                    reply: Some(Refusal::Authentication),
                },
            )
            &&& known && target is Err ==> r == malformed(target->Err_0)
            &&& interpreted(authorization, Err(error)) == malformed(error)
        }),
{
}

/// A client on this machine that nothing goes against is configured, read, admitted and
/// served: directly where its target is absolute, through a tunnel where it connects.
pub proof fn good_clients_are_served(peer: IpAddr, kind: TargetKind)
    requires
        addr::loopback(peer),
    ensures
        client_step(ClientStage::Arriving, ClientEvent::Arrived { peer, cancelled: false }) == (
            ClientStage::Configuring,
            ClientAction::ConfigureSocket,
        ),
        client_step(ClientStage::Configuring, ClientEvent::Configured(true)) == (
            ClientStage::Reading,
            ClientAction::ReadHead,
        ),
        client_step(ClientStage::Reading, ClientEvent::Interpreted(None)) == (
            ClientStage::Admitting,
            ClientAction::AdmitHost,
        ),
        client_step(ClientStage::Admitting, ClientEvent::Admitted { refusal: None, kind }) == (
        match kind {
            TargetKind::Absolute => (
                ClientStage::ServingDirect,
                ClientAction::ServeDirect(Report::of_phase(Phase::Accepted)),
            ),
            TargetKind::Connect => (
                ClientStage::ServingConnect,
                ClientAction::ServeConnect(Report::of_phase(Phase::Accepted)),
            ),
            TargetKind::Origin => (
                ClientStage::Closed,
                ClientAction::Close {
                    report: Report::refused(
                        Refusal::BadRequest,
                        RequestRejectionReason::InvalidRequest,
                        false,
                    ),
                    shutdown: false,
                },
            ),
        }),
{
}

/// A client that is not on this machine, or that comes after a cancellation, is cut off
/// without an answer; one that cannot be configured is closed; and one that is refused
/// gets its answer.
pub proof fn refused_clients_end_with_their_reason(
    peer: IpAddr,
    cancelled: bool,
    report: Report,
    kind: TargetKind,
)
    ensures
        ({
            let turned_away = |reason: ClientRejectionReason, shutdown: bool|
                (
                    ClientStage::Closed,
                    ClientAction::Close {
                        report: Report {
                            client: Some(reason),
                            phase: None,
                            main_frame: false,
                            reply: None,
                        },
                        shutdown,
                    },
                );
            let arrived = client_step(
                ClientStage::Arriving,
                ClientEvent::Arrived { peer, cancelled },
            );
            let closed = (
                ClientStage::Closed,
                ClientAction::Close { report, shutdown: false },
            );
            &&& !addr::loopback(peer) ==> arrived == turned_away(
                ClientRejectionReason::InvalidPeer,
                true,
            )
            &&& addr::loopback(peer) && cancelled ==> arrived == turned_away(
                ClientRejectionReason::Cancelled,
                true,
            )
            &&& client_step(ClientStage::Configuring, ClientEvent::Configured(false))
                == turned_away(ClientRejectionReason::InvalidRequest, false)
            &&& client_step(ClientStage::Reading, ClientEvent::Interpreted(Some(report)))
                == closed
            &&& client_step(
                ClientStage::Admitting,
                ClientEvent::Admitted { refusal: Some(report), kind },
            ) == closed
        }),
{
}

/// A rejected route is answered, and is reported as out of scope where its host is known.
pub proof fn rejected_routes_are_reported(rejection: RouteRejection, has_canonical_host: bool)
    ensures
        ({
            let r = route_report(rejection, has_canonical_host);
            &&& r.client is None && !r.main_frame
            &&& r.phase == if has_canonical_host {
                Some(Phase::Rejected(RequestRejectionReason::HostOutsideScope))
            } else {
                None
            }
            &&& r.reply == Some(reply::route_refusal_of(rejection))
        }),
{
}

/// A direct request opens a tunnel where its scheme is that of a web socket or it asks for
/// an upgrade; else it is a navigation where its fields say so. It is served unless it is
/// over the limit.
pub proof fn direct_requests_are_served(
    head: RequestHeadView,
    scheme: Scheme,
    path: Seq<char>,
    decision: RateLimitDecision,
)
    ensures
        ({
            let upgrade = scheme is Ws || scheme is Wss || forward::upgrade_requested(head.headers);
            let main_frame = !upgrade && forward::is_navigation(head.method, head.headers, path);
            let r = direct_service(head, scheme, path, decision);
            let report = reply::rate_report(decision, main_frame);
            &&& r is Ok <==> report is None
            &&& r is Ok ==> r->Ok_0.upgrade == upgrade && r->Ok_0.main_frame == main_frame
            &&& r is Err ==> r->Err_0 == report->Some_0
        }),
{
}

/// A request inside a tunnel is accepted exactly where its target is valid there, its host
/// is admitted as the one that was connected to, and its port is that one. It is then
/// served in its origin form, or in an absolute form that is secure.
pub proof fn requests_inside_are_accepted(
    mode: ProxyRoutingMode,
    scope: Option<Seq<char>>,
    facts: HostFacts,
    head: RequestHeadView,
    connected_to: AuthorityView,
    outer_host: Seq<char>,
)
    ensures
        ({
            let target = http1::validated_target_of(head, Some(connected_to));
            let at = target->Ok_0.authority_spec();
            let same = admitted_host(mode, scope, at.host, facts) == Ok::<
                Seq<char>,
                RouteRejection,
            >(outer_host) && at.port == connected_to.port;
            let upgrade = forward::upgrade_requested(head.headers);
            let (accepted, next) = connected_plan(
                mode,
                scope,
                facts,
                Ok(head),
                connected_to,
                outer_host,
            );
            &&& accepted <==> target is Ok && same
            &&& target matches Err(e) ==> next == Err::<(ConnectedService, RouteView), Report>(
                Report::malformed(e, false),
            )
            &&& target is Ok && !same ==> next == Err::<(ConnectedService, RouteView), Report>(
                Report::refused(
                    Refusal::ScopeDenied,
                    RequestRejectionReason::HostOutsideScope,
                    false,
                ),
            )
            &&& accepted ==> (match target->Ok_0 {
                RequestTargetView::Origin { path_and_query, .. } => next is Ok && next->Ok_0 == (
                    if upgrade {
                        ConnectedService::Upgrade
                    } else {
                        ConnectedService::Http
                    },
                    RouteView { scheme: Scheme::Https, port: connected_to.port, path_and_query },
                ),
                RequestTargetView::Absolute { scheme, path_and_query, .. } => if scheme is Https
                    || scheme is Wss {
                    next is Ok && next->Ok_0 == (
                        if upgrade || scheme is Wss {
                            ConnectedService::Upgrade
                        } else {
                            ConnectedService::Http
                        },
                        RouteView { scheme, port: connected_to.port, path_and_query },
                    )
                } else {
                    next == Err::<(ConnectedService, RouteView), Report>(
                        Report::refused(
                            Refusal::UpgradeUnsupported,
                            RequestRejectionReason::InvalidRequest,
                            false,
                        ),
                    )
                },
                RequestTargetView::Connect { .. } => next == Err::<
                    (ConnectedService, RouteView),
                    Report,
                >(
                    Report::refused(
                        Refusal::UpgradeUnsupported,
                        RequestRejectionReason::InvalidRequest,
                        false,
                    ),
                ),
            })
        }),
{
}

/// A head inside a tunnel that could not be read is refused as what is wrong with it.
pub proof fn unread_heads_inside_are_refused(
    mode: ProxyRoutingMode,
    scope: Option<Seq<char>>,
    facts: HostFacts,
    error: Http1Error,
    connected_to: AuthorityView,
    outer_host: Seq<char>,
)
    ensures
        connected_plan(mode, scope, facts, Err(error), connected_to, outer_host) == (
            false,
            Err::<(ConnectedService, RouteView), Report>(Report::malformed(error, false)),
        ),
{
}

/// A host that is admitted is the one that is meant, and so is a rejection.
pub proof fn admitted_hosts_agree(
    r: Result<NormalizedHost, RouteRejection>,
    v: Result<Seq<char>, RouteRejection>,
)
    ensures
        same_admission(r, v) <==> {
            &&& r is Ok <==> v is Ok
            &&& r is Ok ==> r->Ok_0@ == v->Ok_0
            &&& r is Err ==> r->Err_0 == v->Err_0
        },
{
}

/// A head is interpreted as the target that is meant, and so is a report.
pub proof fn interpreted_heads_agree(
    r: Result<RequestTarget, Report>,
    v: Result<RequestTargetView, Report>,
)
    ensures
        same_interpretation(r, v) <==> {
            &&& r is Ok <==> v is Ok
            &&& r is Ok ==> r->Ok_0@ == v->Ok_0
            &&& r is Err ==> r->Err_0 == v->Err_0
        },
{
}

/// A route that is found is the one that is meant, and so is a report.
pub proof fn found_routes_agree(
    r: Result<(ConnectedService, HttpRoute), Report>,
    v: Result<(ConnectedService, RouteView), Report>,
)
    ensures
        same_route(r, v) <==> {
            &&& r is Ok <==> v is Ok
            &&& r is Ok ==> r->Ok_0.0 == v->Ok_0.0 && r->Ok_0.1@ == v->Ok_0.1
            &&& r is Err ==> r->Err_0 == v->Err_0
        },
{
}

/// Hosts, heads and routes are taken as they are meant.
pub proof fn requests_are_routed(
    mode: ProxyRoutingMode,
    scope: &HostScope,
    raw_host: &str,
    facts: HostFacts,
    host: Result<NormalizedHost, RouteRejection>,
    authorization: &ProxyAuthorization,
    head: &RequestHead,
    target: Result<RequestTarget, Report>,
    connected_to: &Authority,
    inside: Result<RequestTarget, Report>,
    inner: &RequestTarget,
    upgrade: bool,
    route: Result<(ConnectedService, HttpRoute), Report>,
)
    requires
        call_ensures(admit_target_host, (mode, Some(scope), raw_host, facts), host),
        call_ensures(interpret_head, (authorization, Ok(head)), target),
        call_ensures(interpret_connected, (Ok(head), connected_to), inside),
        call_ensures(route_connected, (inner, upgrade), route),
    ensures
        same_admission(host, admitted_host(mode, Some(scope@), raw_host@, facts)),
        same_interpretation(target, interpreted(authorization@, Ok(head@))),
        same_interpretation(inside, connected_target(Ok(head@), connected_to@)),
        same_route(route, connected_route(inner@, upgrade)),
{
}

} // verus!
