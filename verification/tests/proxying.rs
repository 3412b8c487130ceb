use hns_browser::addr::{IpAddr, Ipv4Addr};
use hns_browser::auth::ProxyAuthorization;
use hns_browser::backend::{
    BackendError, ProxyHeader, ProxyRequest, ProxyRequestBody, ProxyResponseHead,
};
use hns_browser::body::read_request_body;
use hns_browser::certificate::PrepareStep;
use hns_browser::connect::{
    check_connect, connect_request, ConnectAction, ConnectEvent, ConnectFlow, ConnectOutcome,
    CONNECT_ESTABLISHED_RESPONSE,
};
use hns_browser::event::{
    BackendFailureKind, ClientRejectionReason, LifecycleEvent, ObservedHost, ObservedMethod,
    ProxyEvent, RequestPhase, RequestRejectionReason, StopReason,
};
use hns_browser::exchange::{
    make_request, plan_http, plan_upgrade, prepare_response, prepare_upgrade, Delivery,
    DeliveryEvent, DeliveryStage, HttpAction, HttpEvent, HttpFlow, PreparedResponse,
    UpgradeAction, UpgradeEvent, UpgradeFlow, UpgradeOutcome, CONTINUE_RESPONSE,
};
use hns_browser::forward::is_likely_main_frame_navigation;
use hns_browser::host::{HostScope, NameClass, NormalizedHost};
use hns_browser::http1::{
    parse_request_head, read_request_head, Input, IoKind, RequestHead,
    DEFAULT_MAX_REQUEST_BODY_BYTES, DEFAULT_MAX_REQUEST_HEAD_BYTES,
};
use hns_browser::instance::{ProxyInstanceId, ProxySessionId};
use hns_browser::issuing::{generate_identity, IssuedIdentity};
use hns_browser::lifecycle::{
    listener_exit, stop_event, ListenerExitPhase, ProxyError, RunningProxy, StopOp, StopStep,
};
use hns_browser::metadata::{ProxyMetadataObservationKind, ProxyResponseMetadataObservation};
use hns_browser::reply::{
    backend_error_status, retry_after_seconds, Phase, RateLimitDecision, RateLimitScope, Report,
};
use hns_browser::routing::{
    admit_target_host, handle_connected_http, handle_direct_http, interpret_head, reject_route,
    target_kind, ClientAction, ClientEvent, ClientFlow, ConnectedService, HostFacts, HttpRoute,
    ProxyRoutingMode,
};
use hns_browser::target::{Authority, RequestTarget};
use hns_browser::tls::{
    plan_io, HandshakeIo, HandshakeStage, HandshakeStart, IoPlan, LocalHandshake,
    TlsTerminationError, WaitError, CANCELLATION_POLL_NANOS,
};
use hns_browser::tunnel::{
    connect_outcome, record_connect_outcome, CopyEvent, CopyStage, Direction, ExactCopy,
    HalfEvent, HalfPump, HalfStage, PumpEvent, PumpStage, TunnelPump, TunnelPumpOutcome,
    TunnelRead, WriteBackendError,
};
use std::time::Duration;

/// What the backend does.
enum Plan {
    Respond {
        headers: Vec<ProxyHeader>,
        body: Vec<u8>,
        expected_len: u64,
    },
    Fail(BackendError),
    Switch {
        head: ProxyResponseHead,
        initial: Vec<u8>,
    },
    RefuseUpgrade(ProxyResponseHead, Vec<u8>),
}

impl Plan {
    fn plain(body: &str) -> Self {
        Self::fixed(vec![ProxyHeader::new("Content-Type", "text/plain")], body)
    }

    fn fixed(headers: Vec<ProxyHeader>, body: &str) -> Self {
        Plan::Respond {
            headers,
            body: body.as_bytes().to_vec(),
            expected_len: body.len() as u64,
        }
    }

    fn websocket(initial: &str) -> Self {
        Plan::Switch {
            head: ProxyResponseHead {
                status_code: 101,
                reason_phrase: "Switching Protocols".to_owned(),
                headers: vec![
                    ProxyHeader::new("Connection", "keep-alive, Upgrade, X-Origin-Hop"),
                    ProxyHeader::new("Upgrade", "websocket"),
                    ProxyHeader::new("Sec-WebSocket-Accept", "accepted"),
                    ProxyHeader::new("X-Origin-Hop", "secret"),
                    ProxyHeader::new("X-HNS-Security-Path", "secret"),
                ],
                observation_id: None,
            },
            initial: initial.as_bytes().to_vec(),
        }
    }
}

/// A proxy whose clients, backend and clock are values.
struct Proxy {
    running: RunningProxy<IssuedIdentity>,
    mode: ProxyRoutingMode,
    scope: Option<HostScope>,
    plan: Plan,
    connect: ConnectOutcome,
    allowance: Option<usize>,
    permitted: bool,
    requests: Vec<ProxyRequest>,
    observations: Vec<ProxyResponseMetadataObservation>,
    events: Vec<ProxyEvent>,
}

/// Where answers go, and what the requests inside a connection are.
struct Client {
    sent: Vec<u8>,
    inside: Vec<u8>,
    inner: Vec<u8>,
}

fn facts(name: &str) -> HostFacts {
    HostFacts {
        special_use: name == "localhost" || name.ends_with(".onion"),
        class: if name.ends_with(".com") {
            NameClass::Icann
        } else {
            NameClass::Hns
        },
    }
}

impl Proxy {
    fn started(session: ProxySessionId, generation: u64, plan: Plan) -> Self {
        let (running, listening) = RunningProxy::start(
            ProxyInstanceId::new(session, generation),
            ProxyAuthorization::generate().ok(),
            true,
            Some(40_000),
        )
        .ok()
        .unwrap();
        Proxy {
            running,
            mode: ProxyRoutingMode::ScopedHns,
            scope: HostScope::new("welcome", NameClass::Hns).ok(),
            plan,
            connect: ConnectOutcome::InterceptLocally,
            allowance: None,
            permitted: true,
            requests: Vec::new(),
            observations: Vec::new(),
            events: vec![listening],
        }
    }

    fn new(plan: Plan) -> Self {
        Self::started(ProxySessionId::generate().unwrap(), 1, plan)
    }

    fn dane_browser(plan: Plan) -> Self {
        Proxy {
            mode: ProxyRoutingMode::DaneBrowser,
            scope: None,
            ..Self::new(plan)
        }
    }

    fn auth(&self) -> String {
        format!(
            "Proxy-Authorization: {}\r\n",
            self.running.endpoint().authorization_header_value()
        )
    }

    fn generation(&self) -> u64 {
        self.running.endpoint().instance().generation()
    }

    fn report(&mut self, report: Report, host: &str, method: ObservedMethod, out: &mut Vec<u8>) {
        let generation = self.generation();
        self.events.extend(report.client_event(generation));
        self.events
            .extend(report.request_event(generation, host, method, Duration::from_secs(1)));
        self.observations
            .extend(report.main_frame_observation(generation, host, method));
        if let Some(refusal) = report.reply {
            let challenge = self
                .running
                .endpoint()
                .authorization()
                .challenge_header_value();
            out.extend(refusal.response(&challenge));
        }
    }

    fn rate(&mut self) -> RateLimitDecision {
        match &mut self.allowance {
            None => RateLimitDecision::Allowed,
            Some(0) => RateLimitDecision::Limited {
                scope: RateLimitScope::Host,
                retry_seconds: 2,
                retry_nanos: 1,
            },
            Some(left) => {
                *left -= 1;
                RateLimitDecision::Allowed
            }
        }
    }

    fn send(&mut self, bytes: &str) -> Vec<u8> {
        self.serve(bytes, b"").sent
    }

    fn serve(&mut self, bytes: &str, inside: &[u8]) -> Client {
        let mut client = Client {
            sent: Vec::new(),
            inside: inside.to_vec(),
            inner: Vec::new(),
        };
        let mut input = Input::new(bytes.as_bytes().to_vec());
        let mut flow = ClientFlow::new();
        let mut event = ClientEvent::Arrived {
            peer: IpAddr::V4(Ipv4Addr::new(127, 0, 0, 1)),
            cancelled: self.running.is_stop_requested(),
        };
        let mut asked: Option<(RequestHead, RequestTarget)> = None;
        let mut canonical: Option<NormalizedHost> = None;
        loop {
            let method = match &asked {
                Some((head, _)) => ObservedMethod::from_token(head.method()),
                None => ObservedMethod::Other,
            };
            let host = canonical
                .as_ref()
                .map(|host| host.as_str().to_owned())
                .unwrap_or_default();
            event = match flow.step(event) {
                ClientAction::ConfigureSocket => ClientEvent::Configured(true),
                ClientAction::ReadHead => {
                    let head = read_request_head(&mut input, DEFAULT_MAX_REQUEST_HEAD_BYTES);
                    let authorization = self.running.endpoint().authorization();
                    let result = interpret_head(authorization, head.as_ref().map_err(|e| *e));
                    match result {
                        Ok(target) => {
                            asked = Some((head.ok().unwrap(), target));
                            ClientEvent::Interpreted(None)
                        }
                        Err(report) => ClientEvent::Interpreted(Some(report)),
                    }
                }
                ClientAction::AdmitHost => {
                    let (_, target) = asked.as_ref().unwrap();
                    let raw = target.authority().host();
                    canonical = NormalizedHost::parse(raw).ok();
                    let admitted = admit_target_host(
                        self.mode,
                        self.scope.as_ref(),
                        raw,
                        facts(raw),
                    );
                    ClientEvent::Admitted {
                        refusal: admitted
                            .err()
                            .map(|error| reject_route(error, canonical.is_some())),
                        kind: target_kind(target),
                    }
                }
                ClientAction::ServeDirect(report) => {
                    self.report(report, &host, method, &mut client.sent);
                    let (head, target) = asked.unwrap();
                    let RequestTarget::Absolute(absolute) = target else {
                        unreachable!()
                    };
                    let decision = self.rate();
                    let (plan, route) = match handle_direct_http(&head, &absolute, decision) {
                        Ok(served) => served,
                        Err(report) => {
                            self.report(report, &host, method, &mut client.sent);
                            return client;
                        }
                    };
                    let host = canonical.unwrap();
                    if plan.upgrade {
                        self.upgrade(&head, &route, &host, &mut input, &mut client.sent);
                    } else {
                        self.http(&head, &route, &host, &mut input, &mut client.sent);
                    }
                    return client;
                }
                ClientAction::ServeConnect(report) => {
                    self.report(report, &host, method, &mut client.sent);
                    let (head, target) = asked.unwrap();
                    self.connect(&head, target.authority(), &canonical.unwrap(), &mut client);
                    return client;
                }
                ClientAction::Close { report, .. } => {
                    self.report(report, &host, method, &mut client.sent);
                    return client;
                }
            };
        }
    }

    fn connect(
        &mut self,
        head: &RequestHead,
        authority: &Authority,
        host: &NormalizedHost,
        client: &mut Client,
    ) {
        let method = ObservedMethod::from_token(head.method());
        let blocked = authority.port() == 22;
        let mut flow = ConnectFlow::new();
        let mut event = ConnectEvent::Checked {
            refusal: check_connect(head, blocked),
            cancelled: self.running.is_stop_requested(),
        };
        loop {
            event = match flow.step(event) {
                ConnectAction::CheckRate => ConnectEvent::Limited(self.rate()),
                ConnectAction::OpenBackend => {
                    if self.connect != ConnectOutcome::InterceptLocally {
                        self.requests.push(connect_request(host, authority.port()));
                    }
                    ConnectEvent::Opened(self.connect)
                }
                ConnectAction::PublishEstablished => {
                    if self.permitted {
                        client.sent.extend(CONNECT_ESTABLISHED_RESPONSE.bytes());
                    }
                    ConnectEvent::Published(self.permitted)
                }
                ConnectAction::PumpTunnel => {
                    self.observations
                        .push(ProxyResponseMetadataObservation::connect_decision(
                            self.generation(),
                            ObservedHost::new(host.as_str()).unwrap(),
                            authority.port(),
                            Some(9),
                            7,
                        ));
                    client.inner = client.inside.clone();
                    ConnectEvent::Pumped(TunnelPumpOutcome::Completed)
                }
                ConnectAction::PrepareIdentity => {
                    let prepared = match self.running.prepare(host) {
                        Ok(PrepareStep::Cached { .. }) => true,
                        Ok(PrepareStep::Generate) => {
                            let instance = self.running.endpoint().instance().copy();
                            let identity =
                                generate_identity(instance, host.clone(), None).ok().unwrap();
                            let pin = identity.pin.copy();
                            self.running
                                .commit(host.clone(), pin, identity)
                                .is_ok()
                        }
                        Err(_) => false,
                    };
                    ConnectEvent::Prepared(prepared)
                }
                ConnectAction::WriteEstablished => {
                    client.sent.extend(CONNECT_ESTABLISHED_RESPONSE.bytes());
                    ConnectEvent::Established(true)
                }
                ConnectAction::Handshake => ConnectEvent::Handshaken {
                    ok: true,
                    cancelled: false,
                },
                ConnectAction::ServeInside(report) => {
                    self.report(report, host.as_str(), method, &mut client.sent);
                    self.inside(authority, host, client);
                    ConnectEvent::Served
                }
                ConnectAction::CloseSession => {
                    self.running.release(host);
                    return;
                }
                ConnectAction::Close { report, .. } => {
                    self.report(report, host.as_str(), method, &mut client.sent);
                    return;
                }
            };
        }
    }

    fn inside(&mut self, outer: &Authority, host: &NormalizedHost, client: &mut Client) {
        let mut input = Input::new(client.inside.clone());
        let head = read_request_head(&mut input, DEFAULT_MAX_REQUEST_HEAD_BYTES);
        let method = match &head {
            Ok(head) => ObservedMethod::from_token(head.method()),
            Err(_) => ObservedMethod::Other,
        };
        let plan = handle_connected_http(
            self.mode,
            self.scope.as_ref(),
            facts(host.as_str()),
            head.as_ref().map_err(|e| *e),
            outer,
            host,
        );
        if plan.accepted {
            let report = Report::phase(Phase::Accepted);
            self.report(report, host.as_str(), method, &mut client.inner);
        }
        match plan.next {
            Err(report) => self.report(report, host.as_str(), method, &mut client.inner),
            Ok((ConnectedService::Http, route)) => {
                let head = head.ok().unwrap();
                self.http(&head, &route, host, &mut input, &mut client.inner);
            }
            Ok((ConnectedService::Upgrade, route)) => {
                let head = head.ok().unwrap();
                self.upgrade(&head, &route, host, &mut input, &mut client.inner);
            }
        }
    }

    fn http(
        &mut self,
        head: &RequestHead,
        route: &HttpRoute,
        host: &NormalizedHost,
        input: &mut Input,
        out: &mut Vec<u8>,
    ) {
        let method = ObservedMethod::from_token(head.method());
        let mut flow = HttpFlow::new();
        let planned = plan_http(head, route, host, DEFAULT_MAX_REQUEST_BODY_BYTES);
        let mut event = match &planned {
            Ok(plan) => HttpEvent::Planned {
                refusal: None,
                send_continue: plan.send_continue,
                main_frame: plan.main_frame,
            },
            Err(report) => HttpEvent::Planned {
                refusal: Some(*report),
                send_continue: false,
                main_frame: false,
            },
        };
        let mut plan = planned.ok();
        let mut body = Vec::new();
        loop {
            event = match flow.step(event) {
                HttpAction::SendContinue => {
                    out.extend(CONTINUE_RESPONSE.bytes());
                    HttpEvent::Continued(true)
                }
                HttpAction::ReadBody => {
                    let framing = plan.as_ref().unwrap().framing;
                    match read_request_body(input, framing, DEFAULT_MAX_REQUEST_BODY_BYTES) {
                        Ok(bytes) => {
                            body = bytes;
                            HttpEvent::BodyRead(None)
                        }
                        Err(error) => HttpEvent::BodyRead(Some(error)),
                    }
                }
                HttpAction::ClearDeadline => HttpEvent::Cleared {
                    ok: true,
                    cancelled: self.running.is_stop_requested(),
                },
                HttpAction::Execute => {
                    let headers = plan.take().unwrap().headers;
                    let request =
                        make_request(head, route, host, headers, std::mem::take(&mut body));
                    self.requests.push(request);
                    HttpEvent::Executed {
                        result: match &self.plan {
                            Plan::Respond { .. } => Ok(200),
                            Plan::Fail(error) => Err(*error),
                            _ => Err(BackendError::Internal),
                        },
                        cancelled: self.running.is_stop_requested(),
                    }
                }
                HttpAction::WriteResponse => {
                    let Plan::Respond {
                        headers,
                        body,
                        expected_len,
                    } = &self.plan
                    else {
                        unreachable!()
                    };
                    let response = ProxyResponseHead {
                        status_code: 200,
                        reason_phrase: "OK".to_owned(),
                        headers: headers.clone(),
                        observation_id: None,
                    };
                    let (body, expected) = (body.clone(), *expected_len);
                    let result = self.deliver(
                        head.method(),
                        &response,
                        &body,
                        expected,
                        host,
                        flow.main_frame,
                        out,
                    );
                    HttpEvent::Written {
                        result,
                        cancelled: self.running.is_stop_requested(),
                    }
                }
                HttpAction::Close(report) => {
                    return self.report(report, host.as_str(), method, out);
                }
            };
        }
    }

    #[allow(clippy::too_many_arguments)]
    fn deliver(
        &mut self,
        method: &str,
        response: &ProxyResponseHead,
        body: &[u8],
        expected: u64,
        host: &NormalizedHost,
        main_frame: bool,
        out: &mut Vec<u8>,
    ) -> Result<(), WriteBackendError> {
        let prepared = prepare_response(method, response, expected);
        let mut delivery = Delivery::new();
        delivery.step(DeliveryEvent::Prepared {
            result: match &prepared {
                Ok(prepared) => Ok(prepared.head.body_allowed()),
                Err(error) => Err(*error),
            },
            cancelled: self.running.is_stop_requested(),
        });
        loop {
            match delivery.stage {
                DeliveryStage::Publishing(_) => {
                    if self.permitted {
                        let prepared = prepared.as_ref().ok().unwrap();
                        out.extend(prepared.head.as_bytes());
                        self.observe(prepared, response, method, host, main_frame);
                    }
                    delivery.step(DeliveryEvent::Published(self.permitted));
                }
                DeliveryStage::SendingBody => {
                    delivery.step(DeliveryEvent::BodySent(copy(body, expected, out)));
                }
                DeliveryStage::Ended(result) => return result,
                DeliveryStage::Preparing => unreachable!(),
            }
        }
    }

    fn observe(
        &mut self,
        prepared: &PreparedResponse,
        response: &ProxyResponseHead,
        method: &str,
        host: &NormalizedHost,
        main_frame: bool,
    ) {
        self.observations.push(ProxyResponseMetadataObservation::new(
            self.generation(),
            ObservedHost::new(host.as_str()).unwrap(),
            ObservedMethod::from_token(method),
            response.status_code,
            main_frame,
            response.observation_id,
            prepared.fields.metadata().clone(),
        ));
    }

    fn upgrade(
        &mut self,
        head: &RequestHead,
        route: &HttpRoute,
        host: &NormalizedHost,
        input: &mut Input,
        out: &mut Vec<u8>,
    ) {
        let method = ObservedMethod::from_token(head.method());
        let mut flow = UpgradeFlow::new();
        let planned = plan_upgrade(head, route, host);
        let mut event = UpgradeEvent::Planned(planned.as_ref().err().copied());
        let mut headers = planned.ok();
        let mut prepared = None;
        loop {
            let cancelled = self.running.is_stop_requested();
            event = match flow.step(event) {
                UpgradeAction::ClearDeadline => UpgradeEvent::Cleared {
                    ok: true,
                    cancelled,
                },
                UpgradeAction::OpenTunnel => {
                    let request =
                        make_request(head, route, host, headers.take().unwrap(), Vec::new());
                    let outcome = match &self.plan {
                        Plan::Switch { .. } => UpgradeOutcome::Tunnel,
                        Plan::RefuseUpgrade(head, _) => UpgradeOutcome::Response(head.status_code),
                        _ => UpgradeOutcome::Failed(BackendError::UnsupportedUpgrade),
                    };
                    if !matches!(outcome, UpgradeOutcome::Failed(_)) {
                        self.requests.push(request);
                    }
                    UpgradeEvent::Opened { outcome, cancelled }
                }
                UpgradeAction::WriteResponse => {
                    let Plan::RefuseUpgrade(response, body) = &self.plan else {
                        unreachable!()
                    };
                    let (response, body) = (response.clone(), body.clone());
                    let result = self.deliver(
                        head.method(),
                        &response,
                        &body,
                        body.len() as u64,
                        host,
                        false,
                        out,
                    );
                    UpgradeEvent::Written { result, cancelled }
                }
                UpgradeAction::EncodeHead => {
                    let Plan::Switch { head, .. } = &self.plan else {
                        unreachable!()
                    };
                    prepared = prepare_upgrade(head).ok();
                    UpgradeEvent::Encoded {
                        ok: prepared.is_some(),
                        cancelled,
                    }
                }
                UpgradeAction::PublishHead => {
                    if self.permitted {
                        out.extend(prepared.as_ref().unwrap().head.as_bytes());
                    }
                    UpgradeEvent::Published(self.permitted)
                }
                UpgradeAction::PumpTunnel => {
                    let Plan::Switch {
                        head: response,
                        initial,
                    } = &self.plan
                    else {
                        unreachable!()
                    };
                    let (response, initial) = (response.clone(), initial.clone());
                    let prepared = prepared.take().unwrap();
                    self.observe(&prepared, &response, head.method(), host, false);
                    UpgradeEvent::Pumped(echo(input, initial, out))
                }
                UpgradeAction::Close(report) => {
                    return self.report(report, host.as_str(), method, out);
                }
            };
        }
    }
}

/// Copies a body of a declared length.
fn copy(body: &[u8], expected: u64, out: &mut Vec<u8>) -> Result<(), WriteBackendError> {
    let mut copy = ExactCopy::new(expected);
    let mut position = 0;
    loop {
        match copy.stage {
            CopyStage::Idle => copy.step(CopyEvent::Next { cancelled: false }),
            CopyStage::Reading(limit) => {
                copy.step(CopyEvent::Read(Some(limit.min(body.len() - position))));
            }
            CopyStage::Writing(count) => {
                out.extend(&body[position..position + count]);
                position += count;
                copy.step(CopyEvent::Written(true));
            }
            CopyStage::Finished => return Ok(()),
            CopyStage::Failed(error) => return Err(error),
        }
    }
}

/// An origin that sends back what it gets.
fn echo(input: &mut Input, initial: Vec<u8>, out: &mut Vec<u8>) -> TunnelPumpOutcome {
    let mut pending = initial;
    let mut pump = TunnelPump::new();
    let mut from_client = input.rest();
    loop {
        match pump.stage {
            PumpStage::ClientTurn => pump.step(PumpEvent::ClientReady {
                cancelled: false,
                deadline_set: true,
            }),
            PumpStage::ClientReading => {
                let read = if from_client.is_empty() && !pending.is_empty() {
                    TunnelRead::Failed(IoKind::TimedOut)
                } else {
                    TunnelRead::Bytes(from_client.len())
                };
                pump.step(PumpEvent::ClientRead {
                    read,
                    deadline_cleared: true,
                });
            }
            PumpStage::OriginWriting(count) => {
                pending.extend(from_client.drain(..count));
                pump.step(PumpEvent::OriginWritten(true));
            }
            PumpStage::OriginTurn => pump.step(PumpEvent::OriginReady { cancelled: false }),
            PumpStage::OriginReading => {
                pump.step(PumpEvent::OriginRead(TunnelRead::Bytes(pending.len())));
            }
            PumpStage::ClientWriting(count) => {
                out.extend(pending.drain(..count));
                pump.step(PumpEvent::ClientWritten(true));
            }
            PumpStage::Ended(outcome) => return outcome,
        }
    }
}

fn status(response: &[u8]) -> u16 {
    let text = String::from_utf8_lossy(response);
    text.split(' ').nth(1).unwrap().parse().unwrap()
}

fn parts(response: &[u8]) -> (String, Vec<u8>) {
    let end = response
        .windows(4)
        .position(|window| window == b"\r\n\r\n")
        .unwrap()
        + 4;
    (
        String::from_utf8(response[..end].to_vec()).unwrap(),
        response[end..].to_vec(),
    )
}

fn has(request: &ProxyRequest, name: &str, value: &str) -> bool {
    request
        .headers
        .iter()
        .any(|header| header.name.eq_ignore_ascii_case(name) && header.value == value)
}

fn names(request: &ProxyRequest) -> Vec<String> {
    request
        .headers
        .iter()
        .map(|header| header.name.to_ascii_lowercase())
        .collect()
}

fn parsed_test_head(method: &str, headers: &[(&str, &str)]) -> RequestHead {
    let mut request = format!("{method} http://welcome/ HTTP/1.1\r\nHost: welcome\r\n");
    for (name, value) in headers {
        request.push_str(name);
        request.push_str(": ");
        request.push_str(value);
        request.push_str("\r\n");
    }
    request.push_str("\r\n");
    parse_request_head(request.as_bytes()).ok().unwrap()
}

#[test]
fn likely_main_frame_classification_treats_fetch_destination_as_authoritative() {
    let classify = |method, path, headers: &[(&str, &str)]| {
        is_likely_main_frame_navigation(&parsed_test_head(method, headers), path)
    };

    assert!(classify(
        "GET",
        "/asset.js",
        &[("Sec-Fetch-Dest", "document")]
    ));
    assert!(!classify(
        "HEAD",
        "/asset.js",
        &[
            ("Sec-Fetch-Dest", "IFRAME"),
            ("Sec-Fetch-Mode", "navigate"),
            ("Accept", "text/html"),
        ]
    ));
    assert!(!classify(
        "GET",
        "/",
        &[
            ("Sec-Fetch-Dest", "script"),
            ("Sec-Fetch-Mode", "navigate"),
            ("Accept", "text/html"),
        ],
    ));
    assert!(!classify(
        "GET",
        "/",
        &[
            ("Sec-Fetch-Dest", "future-subresource"),
            ("Sec-Fetch-Mode", "navigate"),
            ("Upgrade-Insecure-Requests", "1"),
            ("Accept", "text/html"),
        ],
    ));
    assert!(classify(
        "GET",
        "/asset.js",
        &[("Sec-Fetch-Mode", "navigate")],
    ));
    assert!(classify(
        "GET",
        "/asset.js",
        &[("Upgrade-Insecure-Requests", "1")],
    ));
    assert!(classify(
        "GET",
        "/asset.js",
        &[("Accept", "application/xhtml+xml, TEXT/HTML;q=0.9")],
    ));
    assert!(classify("GET", "/", &[]));
    assert!(!classify("GET", "/?private=1", &[]));
    assert!(!classify("GET", "/asset.css", &[]));
    assert!(!classify("POST", "/", &[("Sec-Fetch-Dest", "document")],));
}

/// Stops a generation, as its owner asks.
fn stop(proxy: &mut RunningProxy<IssuedIdentity>) {
    proxy.request_stop();
    for op in [
        StopOp::Announce(1),
        StopOp::Announced,
        StopOp::Complete(StopReason::Requested),
    ] {
        proxy.stop(op);
    }
}

#[test]
fn starts_on_ephemeral_loopback_with_fresh_redacted_credentials() {
    let mut first = Proxy::new(Plan::plain("unused"));
    let mut second = Proxy::new(Plan::plain("unused"));
    let endpoint = first.running.endpoint();
    assert!(endpoint.address().ip().is_loopback());
    assert_ne!(endpoint.port(), 0);
    assert_ne!(endpoint.realm(), second.running.endpoint().realm());
    assert_ne!(endpoint.password(), second.running.endpoint().password());
    let debug = first.running.describe(0);
    assert!(!debug.contains(endpoint.realm()));
    assert!(!debug.contains(endpoint.password()));
    stop(&mut first.running);
    stop(&mut first.running);
    stop(&mut second.running);
    assert!(first.running.is_stopped());
}

#[test]
fn proxies_name_what_did_not_start() {
    let instance = || ProxyInstanceId::new(ProxySessionId::from_token("session"), 1);
    let start = |authorization, limiter, port| {
        RunningProxy::<IssuedIdentity>::start(instance(), authorization, limiter, port)
            .err()
            .unwrap()
    };
    let generated = || ProxyAuthorization::generate().ok();
    assert_eq!(start(None, true, Some(1)), ProxyError::Authorization);
    assert_eq!(start(generated(), false, Some(1)), ProxyError::RateLimit);
    assert_eq!(start(generated(), true, None), ProxyError::Listener);
}

#[test]
fn request_stop_revokes_admission_before_the_blocking_join() {
    let mut proxy = Proxy::new(Plan::plain("unused"));
    proxy.running.request_stop();
    assert!(proxy.running.local_certificate_pin("welcome").is_none());
    assert!(!proxy
        .running
        .matches_local_certificate("welcome", b"certificate"));
    assert!(proxy.send("GET http://welcome/ HTTP/1.1\r\n\r\n").is_empty());
    assert!(matches!(
        proxy.events.last(),
        Some(ProxyEvent::ClientRejected {
            reason: ClientRejectionReason::Cancelled,
            ..
        })
    ));
}

#[test]
fn stops_are_announced_and_completed_once() {
    let mut proxy = Proxy::new(Plan::plain("unused"));
    let generation = proxy.generation();
    let mut events = Vec::new();
    for op in [
        StopOp::Request,
        StopOp::Announce(1),
        StopOp::Announce(2),
        StopOp::Announce(1),
        StopOp::Announced,
        StopOp::Announce(2),
        StopOp::Complete(StopReason::Requested),
        StopOp::Complete(StopReason::ListenerFailure),
    ] {
        let step = proxy.running.stop(op);
        match op {
            StopOp::Announce(2) if events.len() == 1 => {
                assert!(matches!(step, StopStep::Wait | StopStep::Proceed));
            }
            _ => {}
        }
        events.extend(stop_event(generation, step));
    }
    assert!(proxy.running.is_stopped());
    let kinds: Vec<LifecycleEvent> = proxy
        .events
        .iter()
        .chain(&events)
        .map(|event| match event {
            ProxyEvent::Lifecycle { event, .. } => *event,
            _ => unreachable!(),
        })
        .collect();
    assert_eq!(
        kinds,
        vec![
            LifecycleEvent::Listening { port: 40_000 },
            LifecycleEvent::Stopping,
            LifecycleEvent::Stopped {
                reason: StopReason::Requested,
            },
        ]
    );
    assert_eq!(
        listener_exit(ListenerExitPhase::QuiescedAfterFailure),
        Some(StopReason::ListenerFailure)
    );
    assert_eq!(listener_exit(ListenerExitPhase::FailureDetected), None);
}

/// What the observer is told when the listener came to an end.
fn listener_ended(
    proxy: &mut RunningProxy<IssuedIdentity>,
    generation: u64,
    phase: ListenerExitPhase,
) -> Vec<LifecycleEvent> {
    let mut ops = vec![StopOp::Request, StopOp::Announce(1), StopOp::Announced];
    ops.extend(listener_exit(phase).map(StopOp::Complete));
    let mut events = Vec::new();
    for op in ops {
        let step = proxy.stop(op);
        if let Some(ProxyEvent::Lifecycle { event, .. }) = stop_event(generation, step) {
            events.push(event);
        }
    }
    events
}

#[test]
fn listener_failure_revokes_pins_and_reports_quiescence_once() {
    let instance = || ProxyInstanceId::new(ProxySessionId::from_token("session"), 71);
    let host = NormalizedHost::parse("welcome").unwrap();
    let (mut proxy, _) = RunningProxy::<IssuedIdentity>::start(
        instance(),
        ProxyAuthorization::generate().ok(),
        true,
        Some(40_000),
    )
    .ok()
    .unwrap();
    assert!(matches!(proxy.prepare(&host), Ok(PrepareStep::Generate)));
    let identity = generate_identity(instance(), host.clone(), None).ok().unwrap();
    let pin = identity.pin.copy();
    assert!(proxy.commit(host.clone(), pin, identity).is_ok());
    proxy.release(&host);
    assert!(proxy.local_certificate_pin("welcome").is_some());

    let events = listener_ended(&mut proxy, 71, ListenerExitPhase::FailureDetected);
    assert!(proxy.is_stop_requested());
    assert!(!proxy.is_stopped());
    assert!(proxy.local_certificate_pin("welcome").is_none());
    assert_eq!(events, vec![LifecycleEvent::Stopping]);

    let events = listener_ended(&mut proxy, 71, ListenerExitPhase::QuiescedAfterFailure);
    assert!(proxy.is_stopped());
    assert_eq!(
        events,
        vec![LifecycleEvent::Stopped {
            reason: StopReason::ListenerFailure,
        }]
    );
    let events = listener_ended(&mut proxy, 71, ListenerExitPhase::QuiescedAfterFailure);
    assert!(events.is_empty());
}

#[test]
fn stopping_observer_can_reenter_running_proxy_stop() {
    let mut proxy = Proxy::new(Plan::plain("unused")).running;
    assert_eq!(proxy.stop(StopOp::Announce(1)), StopStep::EmitStopping);
    assert_eq!(proxy.stop(StopOp::Announce(1)), StopStep::Reentrant);
    assert!(!proxy.is_stopped());
    assert_eq!(proxy.stop(StopOp::Announced), StopStep::Proceed);
    assert_eq!(
        proxy.stop(StopOp::Complete(StopReason::Requested)),
        StopStep::EmitStopped(StopReason::Requested)
    );
    assert!(proxy.is_stopped());
}

#[test]
fn authentication_precedes_target_validation_and_rejects_duplicates() {
    let mut proxy = Proxy::new(Plan::plain("unused"));
    let valid = proxy.running.endpoint().authorization_header_value();
    let cases = [
        "GET not-an-absolute-target HTTP/1.1\r\nHost: mismatch.example\r\n\r\n"
            .to_owned(),
        "GET not-an-absolute-target HTTP/1.1\r\nHost: mismatch.example\r\nProxy-Authorization: Basic d3Jvbmc6d3Jvbmc=\r\n\r\n"
            .to_owned(),
        format!(
            "GET not-an-absolute-target HTTP/1.1\r\nHost: mismatch.example\r\nProxy-Authorization: {valid}\r\nProxy-Authorization: {valid}\r\n\r\n"
        ),
        "CONNECT welcome:443 HTTP/1.1\r\nHost: welcome:443\r\n\r\n".to_owned(),
    ];

    for request in cases {
        let response = proxy.send(&request);
        assert_eq!(status(&response), 407, "{request:?}");
        let (head, _) = parts(&response);
        assert!(head.contains(&format!(
            "Proxy-Authenticate: Basic realm=\"{}\"",
            proxy.running.endpoint().realm()
        )));
    }
    assert_eq!(proxy.requests.len(), 0);

    let request = format!(
        "GET not-an-absolute-target HTTP/1.1\r\nHost: welcome\r\n{}\r\n",
        proxy.auth()
    );
    assert_eq!(status(&proxy.send(&request)), 400);
    assert_eq!(proxy.requests.len(), 0);
}

#[test]
fn rate_limited_connect_does_not_generate_or_publish_an_identity() {
    let mut proxy = Proxy::new(Plan::Fail(BackendError::Internal));
    proxy.allowance = Some(1);
    let admitted = format!(
        "GET http://welcome/ HTTP/1.1\r\nHost: welcome\r\n{}\r\n",
        proxy.auth()
    );
    assert_eq!(status(&proxy.send(&admitted)), 500);
    assert!(proxy.running.local_certificate_pin("welcome").is_none());

    let limited = format!(
        "CONNECT welcome:443 HTTP/1.1\r\nHost: welcome:443\r\n{}\r\n",
        proxy.auth()
    );
    let response = proxy.send(&limited);
    assert_eq!(status(&response), 429);
    assert!(parts(&response).0.contains("Retry-After: 3\r\n"));
    assert!(proxy.running.local_certificate_pin("welcome").is_none());
    assert!(matches!(
        proxy.events.last(),
        Some(ProxyEvent::Request {
            phase: RequestPhase::Rejected {
                reason: RequestRejectionReason::HostRateLimit
            },
            ..
        })
    ));
}

#[test]
fn canonical_forwarding_and_both_header_boundaries_are_enforced() {
    let mut proxy = Proxy::new(Plan::fixed(
        vec![
            ProxyHeader::new("Content-Type", "text/plain"),
            ProxyHeader::new("X-Origin-Keep", "yes"),
            ProxyHeader::new("X-HNS-Security-Path", "dane"),
            ProxyHeader::new("X-HNS-Future", "private"),
            ProxyHeader::new("Connection", "X-Origin-Hop"),
            ProxyHeader::new("X-Origin-Hop", "remove"),
            ProxyHeader::new("Alt-Svc", "h3=\":443\""),
            ProxyHeader::new("Proxy-Authentication-Info", "secret"),
            ProxyHeader::new("Proxy-Future", "secret"),
            ProxyHeader::new("Content-Length", "999"),
            ProxyHeader::new("Transfer-Encoding", "chunked"),
        ],
        "response-body",
    ));
    let body = "request-body";
    let request = format!(
        "POST http://Sub.WELCOME.:8080/private?q=s3cr3t HTTP/1.1\r\nHost: sub.welcome:8080\r\n{}Proxy-Future: secret\r\nX-HNS-Forged: secret\r\nConnection: keep-alive, X-Remove\r\nProxy-Connection: X-Proxy-Remove\r\nX-Remove: secret\r\nX-Proxy-Remove: secret\r\nKeep-Alive: timeout=5\r\nTE: trailers\r\nTrailer: X-Later\r\nAuthorization: Bearer origin-secret\r\nX-Keep: yes\r\nContent-Length: {}\r\n\r\n{body}",
        proxy.auth(),
        body.len()
    );

    let response = proxy.send(&request);
    assert_eq!(status(&response), 200);
    let (head, response_body) = parts(&response);
    assert_eq!(response_body, b"response-body");
    let lower_head = head.to_ascii_lowercase();
    assert!(lower_head.contains("x-origin-keep: yes\r\n"));
    assert!(lower_head.contains("connection: close\r\n"));
    assert!(lower_head.contains("content-length: 13\r\n"));
    for forbidden in [
        "x-hns-",
        "x-origin-hop",
        "alt-svc",
        "proxy-authentication-info",
        "proxy-future",
        "transfer-encoding",
        "content-length: 999",
    ] {
        assert!(
            !lower_head.contains(forbidden),
            "leaked {forbidden}: {head}"
        );
    }

    assert_eq!(proxy.requests.len(), 1);
    let forwarded = &proxy.requests[0];
    assert_eq!(forwarded.method, "POST");
    assert_eq!(forwarded.scheme, "http");
    assert_eq!(forwarded.host, "sub.welcome");
    assert_eq!(forwarded.port, 8080);
    assert_eq!(forwarded.path_and_query, "/private?q=s3cr3t");
    assert_eq!(forwarded.body.as_bytes(), body.as_bytes());
    let forwarded_names = names(forwarded);
    assert_eq!(
        forwarded_names
            .iter()
            .filter(|name| *name == "host")
            .count(),
        1
    );
    assert!(!forwarded_names.iter().any(|name| {
        name.starts_with("proxy-")
            || name.starts_with("x-hns-")
            || matches!(
                name.as_str(),
                "connection"
                    | "keep-alive"
                    | "te"
                    | "trailer"
                    | "transfer-encoding"
                    | "content-length"
                    | "x-remove"
                    | "x-proxy-remove"
            )
    }));
    assert!(has(forwarded, "host", "sub.welcome:8080"));
    assert!(has(forwarded, "authorization", "Bearer origin-secret"));
    assert!(has(forwarded, "x-keep", "yes"));
}

#[test]
fn ordinary_response_delivers_only_sanitized_typed_metadata() {
    let mut proxy = Proxy::new(Plan::fixed(
        vec![
            ProxyHeader::new("Content-Type", "text/plain"),
            ProxyHeader::new("X-HNS-Security-Path", "dane"),
            ProxyHeader::new(
                "X-HNS-Resolution-Trace",
                r#"[{"origin_path":"/private?server=secret"}]"#,
            ),
            ProxyHeader::new("X-HNS-Future", "untrusted"),
            ProxyHeader::new("Connection", "X-HNS-Resolver-Policy"),
            ProxyHeader::new("X-HNS-Resolver-Policy", "nominated"),
        ],
        "response-body-secret",
    ));
    let body = "request-body-secret";
    let request = format!(
        "GET http://welcome/private?token=request-secret HTTP/1.1\r\nHost: welcome\r\n{}Sec-Fetch-Dest: document\r\nX-Request-Secret: request-header-secret\r\nContent-Length: {}\r\n\r\n{body}",
        proxy.auth(),
        body.len(),
    );

    let response = proxy.send(&request);
    assert_eq!(status(&response), 200);
    let (head, response_body) = parts(&response);
    assert_eq!(response_body, b"response-body-secret");
    assert!(!head.to_ascii_lowercase().contains("x-hns-"));

    assert_eq!(proxy.observations.len(), 1);
    let observation = &proxy.observations[0];
    assert_eq!(observation.generation(), 1);
    assert_eq!(observation.host().as_str(), "welcome");
    assert_eq!(observation.method(), ObservedMethod::Get);
    assert_eq!(observation.status_code(), 200);
    assert!(observation.is_likely_main_frame());
    assert_eq!(
        observation.metadata().get("X-HNS-Security-Path"),
        Some("dane")
    );
    assert_eq!(
        observation.metadata().get("X-HNS-Resolution-Trace"),
        Some(r#"[{"origin_path":"/private?server=secret"}]"#)
    );
    assert_eq!(observation.metadata().get("X-HNS-Future"), None);
    assert_eq!(observation.metadata().get("X-HNS-Resolver-Policy"), None);
    let diagnostic = observation.describe();
    for secret in [
        "private",
        "request-secret",
        "server=secret",
        "request-body-secret",
        "request-header-secret",
    ] {
        assert!(
            !diagnostic.contains(secret),
            "leaked {secret}: {diagnostic}"
        );
    }
}

#[test]
fn withheld_permits_publish_nothing() {
    let mut proxy = Proxy::new(Plan::plain("must-not-publish"));
    proxy.permitted = false;
    let ordinary = format!(
        "GET http://welcome/ HTTP/1.1\r\nHost: welcome\r\n{}\r\n",
        proxy.auth()
    );
    assert!(proxy.send(&ordinary).is_empty());
    proxy.plan = Plan::websocket("");
    let upgrade = format!(
        "GET ws://welcome/ HTTP/1.1\r\nHost: welcome\r\n{}Connection: Upgrade\r\nUpgrade: websocket\r\n\r\n",
        proxy.auth()
    );
    assert!(proxy.send(&upgrade).is_empty());
    proxy.connect = ConnectOutcome::WebPkiPassthrough;
    let connect = format!(
        "CONNECT welcome:443 HTTP/1.1\r\nHost: welcome:443\r\n{}\r\n",
        proxy.auth()
    );
    assert!(proxy.send(&connect).is_empty());
    assert!(proxy.observations.is_empty());
}

#[test]
fn iframe_response_status_is_not_marked_as_main_frame() {
    let mut proxy = Proxy::new(Plan::plain("iframe"));
    let request = format!(
        "GET http://welcome/ HTTP/1.1\r\nHost: welcome\r\n{}Sec-Fetch-Dest: iframe\r\nSec-Fetch-Mode: navigate\r\nAccept: text/html\r\n\r\n",
        proxy.auth()
    );

    assert_eq!(status(&proxy.send(&request)), 200);
    assert_eq!(proxy.observations.len(), 1);
    assert_eq!(proxy.observations[0].status_code(), 200);
    assert!(!proxy.observations[0].is_likely_main_frame());
}

#[test]
fn invalid_response_head_reports_only_the_proxy_generated_main_frame_error() {
    let mut proxy = Proxy::new(Plan::fixed(
        vec![
            ProxyHeader::new("X-HNS-TLS-Policy", "dane"),
            ProxyHeader::new("x-hns-tls-policy", "webpki"),
        ],
        "",
    ));
    let request = format!(
        "GET http://welcome/ HTTP/1.1\r\nHost: welcome\r\n{}\r\n",
        proxy.auth()
    );

    assert_eq!(status(&proxy.send(&request)), 502);
    assert_eq!(proxy.observations.len(), 1);
    assert_eq!(proxy.observations[0].status_code(), 502);
    assert!(proxy.observations[0].is_likely_main_frame());
    assert!(proxy.observations[0].metadata().is_empty());
}

#[test]
fn backend_failure_reports_the_proxy_generated_main_frame_status() {
    let mut proxy = Proxy::new(Plan::Fail(BackendError::Internal));
    let request = format!(
        "GET http://welcome/ HTTP/1.1\r\nHost: welcome\r\n{}\r\n",
        proxy.auth()
    );

    assert_eq!(status(&proxy.send(&request)), 500);
    assert_eq!(proxy.observations.len(), 1);
    assert_eq!(proxy.observations[0].status_code(), 500);
    assert!(proxy.observations[0].is_likely_main_frame());
    assert!(proxy.observations[0].metadata().is_empty());
    assert!(matches!(
        proxy.events.last(),
        Some(ProxyEvent::Request {
            phase: RequestPhase::BackendFailed {
                kind: BackendFailureKind::Internal,
                ..
            },
            ..
        })
    ));
}

#[test]
fn fixed_and_chunked_request_bodies_are_forwarded_without_framing_fields() {
    let mut proxy = Proxy::new(Plan::plain("ok"));
    let fixed = format!(
        "POST http://welcome/fixed HTTP/1.1\r\nHost: welcome\r\n{}Content-Length: 5\r\n\r\nfixed",
        proxy.auth()
    );
    assert_eq!(status(&proxy.send(&fixed)), 200);

    let chunked = format!(
        "POST http://welcome/chunked HTTP/1.1\r\nHost: welcome\r\n{}Transfer-Encoding: chunked\r\n\r\n4\r\nWiki\r\n5\r\npedia\r\n0\r\nX-Origin-Trailer: ignored\r\n\r\n",
        proxy.auth()
    );
    assert_eq!(status(&proxy.send(&chunked)), 200);

    assert_eq!(proxy.requests.len(), 2);
    assert_eq!(proxy.requests[0].path_and_query, "/fixed");
    assert_eq!(proxy.requests[0].body.as_bytes(), b"fixed");
    assert_eq!(proxy.requests[1].path_and_query, "/chunked");
    assert_eq!(proxy.requests[1].body.as_bytes(), b"Wikipedia");
    for request in &proxy.requests {
        assert!(!request.headers.iter().any(|header| {
            header.name.eq_ignore_ascii_case("content-length")
                || header.name.eq_ignore_ascii_case("transfer-encoding")
                || header.name.eq_ignore_ascii_case("x-hns-trailer")
                || header.name.eq_ignore_ascii_case("x-origin-trailer")
        }));
    }
}

#[test]
fn oversized_expect_request_is_rejected_before_continue_or_body_read() {
    let mut proxy = Proxy::new(Plan::plain("unused"));
    let request = format!(
        "POST http://welcome/upload HTTP/1.1\r\nHost: welcome\r\n{}Expect: 100-continue\r\nContent-Length: {}\r\n\r\n",
        proxy.auth(),
        DEFAULT_MAX_REQUEST_BODY_BYTES + 1,
    );

    let response = proxy.send(&request);
    assert_eq!(status(&response), 413);
    assert!(!response.starts_with(b"HTTP/1.1 100 Continue"));
    assert_eq!(proxy.requests.len(), 0);

    let request = format!(
        "POST http://welcome/upload HTTP/1.1\r\nHost: welcome\r\n{}Expect: 100-continue\r\nContent-Length: 2\r\n\r\nok",
        proxy.auth(),
    );
    assert!(proxy.send(&request).starts_with(b"HTTP/1.1 100 Continue\r\n\r\nHTTP/1.1 200 OK"));
}

#[test]
fn connect_rejections_before_200_never_publish_a_pin_or_reach_the_backend() {
    let mut proxy = Proxy::new(Plan::plain("unused"));
    let valid = proxy.running.endpoint().authorization_header_value();
    let auth = proxy.auth();
    let cases = [
        (
            "CONNECT welcome:443 HTTP/1.1\r\nHost: welcome:443\r\n\r\n".to_owned(),
            407,
        ),
        (
            "CONNECT welcome:443 HTTP/1.1\r\nHost: welcome:443\r\nProxy-Authorization: Basic d3Jvbmc6d3Jvbmc=\r\n\r\n"
                .to_owned(),
            407,
        ),
        (
            format!(
                "CONNECT welcome:443 HTTP/1.1\r\nHost: welcome:443\r\nProxy-Authorization: {valid}\r\nProxy-Authorization: {valid}\r\n\r\n"
            ),
            407,
        ),
        (
            format!("CONNECT other:443 HTTP/1.1\r\nHost: other:443\r\n{auth}\r\n"),
            403,
        ),
        (
            format!("CONNECT welcome:443 HTTP/1.1\r\nHost: sub.welcome:443\r\n{auth}\r\n"),
            400,
        ),
        (
            format!(
                "CONNECT welcome:443 HTTP/1.1\r\nHost: welcome:443\r\n{auth}Content-Length: 1\r\n\r\nx"
            ),
            400,
        ),
        (
            format!(
                "CONNECT welcome:443 HTTP/1.1\r\nHost: welcome:443\r\n{auth}Transfer-Encoding: chunked\r\n\r\n0\r\n\r\n"
            ),
            400,
        ),
        (
            format!(
                "CONNECT welcome:443 HTTP/1.1\r\nHost: welcome:443\r\n{auth}Expect: 100-continue\r\nContent-Length: 0\r\n\r\n"
            ),
            417,
        ),
    ];

    for (request, expected_status) in cases {
        let response = proxy.send(&request);
        assert_eq!(status(&response), expected_status, "{request:?}");
        assert!(proxy.running.local_certificate_pin("welcome").is_none());
        assert!(proxy.running.local_certificate_pin("other").is_none());
        assert!(!proxy
            .running
            .matches_local_certificate("welcome", b"not-a-certificate"));
    }
    assert_eq!(proxy.requests.len(), 0);
}

fn connect_to(proxy: &Proxy, authority: &str) -> String {
    format!(
        "CONNECT {authority} HTTP/1.1\r\nHost: {authority}\r\n{}\r\n",
        proxy.auth()
    )
}

/// The certificate that a proxy presents for a host.
fn certificate(proxy: &Proxy, host: &str) -> Vec<u8> {
    let store = proxy.running.identities();
    let host = NormalizedHost::parse(host).ok().unwrap();
    (0..store.entry_count())
        .map(|index| store.identity(index))
        .find(|identity| identity.pin.host().same(&host))
        .unwrap()
        .certificate_der
        .clone()
}

#[test]
fn exact_sni_get_and_post_use_https_routes_and_sanitize_both_header_boundaries() {
    let mut proxy = Proxy::new(Plan::fixed(
        vec![
            ProxyHeader::new("Content-Type", "text/plain"),
            ProxyHeader::new("X-Origin-Keep", "yes"),
            ProxyHeader::new("X-HNS-Security-Path", "dane"),
            ProxyHeader::new("Alt-Svc", "h3=\":443\""),
            ProxyHeader::new("Connection", "X-Origin-Hop"),
            ProxyHeader::new("X-Origin-Hop", "remove"),
        ],
        "tls-ok",
    ));

    let get = b"GET /asset?q=1 HTTP/1.1\r\nHost: welcome\r\nProxy-Authorization: forged\r\nProxy-Future: secret\r\nX-HNS-Forged: secret\r\nConnection: close, X-Remove\r\nX-Remove: secret\r\nAuthorization: Bearer origin-secret\r\nX-Keep: yes\r\n\r\n";
    let connect = connect_to(&proxy, "welcome:443");
    let client = proxy.serve(&connect, get);
    assert_eq!(client.sent, CONNECT_ESTABLISHED_RESPONSE.as_bytes());
    assert_eq!(status(&client.inner), 200);
    let (get_head, get_body) = parts(&client.inner);
    assert_eq!(get_body, b"tls-ok");
    let lower_get_head = get_head.to_ascii_lowercase();
    assert!(lower_get_head.contains("x-origin-keep: yes\r\n"));
    for forbidden in ["x-hns-", "alt-svc", "x-origin-hop"] {
        assert!(!lower_get_head.contains(forbidden), "{get_head}");
    }
    let get_certificate = certificate(&proxy, "welcome");
    assert!(proxy
        .running
        .matches_local_certificate("welcome", &get_certificate));
    assert!(!proxy
        .running
        .matches_local_certificate("sub.welcome", &get_certificate));

    let post = b"POST /submit?q=2 HTTP/1.1\r\nHost: sub.welcome:8443\r\nContent-Type: text/plain\r\nContent-Length: 7\r\nProxy-Future: secret\r\nX-HNS-Forged: secret\r\nX-Keep: post\r\n\r\npayload";
    let connect = connect_to(&proxy, "sub.welcome:8443");
    let client = proxy.serve(&connect, post);
    assert_eq!(status(&client.inner), 200);
    let post_certificate = certificate(&proxy, "sub.welcome");
    assert!(proxy
        .running
        .matches_local_certificate("sub.welcome", &post_certificate));
    assert!(!proxy
        .running
        .matches_local_certificate("welcome", &post_certificate));

    assert_eq!(proxy.requests.len(), 2);
    let get_request = &proxy.requests[0];
    assert_eq!(get_request.method, "GET");
    assert_eq!(get_request.scheme, "https");
    assert_eq!(get_request.host, "welcome");
    assert_eq!(get_request.port, 443);
    assert_eq!(get_request.path_and_query, "/asset?q=1");
    assert!(get_request.body.is_empty());
    assert!(has(get_request, "host", "welcome"));
    assert!(has(get_request, "authorization", "Bearer origin-secret"));

    let post_request = &proxy.requests[1];
    assert_eq!(post_request.method, "POST");
    assert_eq!(post_request.scheme, "https");
    assert_eq!(post_request.host, "sub.welcome");
    assert_eq!(post_request.port, 8443);
    assert_eq!(post_request.path_and_query, "/submit?q=2");
    assert_eq!(post_request.body.as_bytes(), b"payload");
    assert!(has(post_request, "host", "sub.welcome:8443"));

    for request in &proxy.requests {
        assert!(!names(request).iter().any(|name| {
            name.starts_with("proxy-")
                || name.starts_with("x-hns-")
                || matches!(
                    name.as_str(),
                    "connection" | "content-length" | "transfer-encoding" | "x-remove"
                )
        }));
    }
}

#[test]
fn invalid_connected_targets_never_reach_the_backend() {
    let mut proxy = Proxy::new(Plan::plain("unused"));
    let cases: [(&str, &[u8], u16); 6] = [
        (
            "welcome:443",
            b"GET / HTTP/1.1\r\nHost: other.welcome\r\n\r\n",
            400,
        ),
        (
            "welcome:8443",
            b"GET / HTTP/1.1\r\nHost: welcome\r\n\r\n",
            400,
        ),
        (
            "welcome:443",
            b"GET http://welcome/ HTTP/1.1\r\nHost: welcome\r\n\r\n",
            400,
        ),
        (
            "welcome:443",
            b"CONNECT welcome:443 HTTP/1.1\r\nHost: welcome:443\r\n\r\n",
            400,
        ),
        (
            "welcome:443",
            b"GET /socket HTTP/1.1\r\nHost: welcome\r\nConnection: Upgrade\r\nUpgrade: websocket\r\n\r\n",
            501,
        ),
        (
            "welcome:443",
            b"GET wss://welcome/socket HTTP/1.1\r\nHost: welcome\r\n\r\n",
            400,
        ),
    ];

    for (authority, request, expected_status) in cases {
        let connect = connect_to(&proxy, authority);
        let client = proxy.serve(&connect, request);
        assert_eq!(
            status(&client.inner),
            expected_status,
            "authority={authority:?}, request={request:?}"
        );
    }
    assert_eq!(proxy.requests.len(), 0);
}

#[test]
fn certificate_pins_are_generation_bound_and_revoked_on_stop() {
    let session = ProxySessionId::generate().unwrap();
    let mut first = Proxy::started(session.clone(), 1, Plan::plain("first"));
    let mut second = Proxy::started(session, 2, Plan::plain("second"));
    let request = b"GET / HTTP/1.1\r\nHost: welcome\r\n\r\n";

    for proxy in [&mut first, &mut second] {
        let connect = connect_to(proxy, "welcome:443");
        assert_eq!(status(&proxy.serve(&connect, request).inner), 200);
    }
    let first_certificate = certificate(&first, "welcome");
    let second_certificate = certificate(&second, "welcome");
    let first_pin = first.running.local_certificate_pin("welcome").unwrap();
    let second_pin = second.running.local_certificate_pin("welcome").unwrap();
    assert_eq!(first_pin.instance().generation(), 1);
    assert_eq!(second_pin.instance().generation(), 2);
    assert!(!first_pin
        .certificate_sha256()
        .same(second_pin.certificate_sha256()));
    let first = &mut first.running;
    let second = &mut second.running;
    assert!(first.matches_local_certificate("welcome", &first_certificate));
    assert!(!first.matches_local_certificate("welcome", &second_certificate));
    assert!(second.matches_local_certificate("welcome", &second_certificate));
    assert!(!second.matches_local_certificate("welcome", &first_certificate));

    first.request_stop();
    assert!(first.local_certificate_pin("welcome").is_none());
    assert!(!first.matches_local_certificate("welcome", &first_certificate));
    assert!(second.local_certificate_pin("welcome").is_some());
    assert!(second.matches_local_certificate("welcome", &second_certificate));
    second.request_stop();
    assert!(second.local_certificate_pin("welcome").is_none());
    assert!(!second.matches_local_certificate("welcome", &second_certificate));
}

#[test]
fn direct_websocket_upgrade_is_sanitized_and_copied_bidirectionally() {
    let mut proxy = Proxy::new(Plan::websocket("origin"));
    let request = format!(
        "GET ws://welcome/socket?q=1 HTTP/1.1\r\nHost: welcome\r\n{}Connection: keep-alive, Upgrade, X-Secret\r\nUpgrade: websocket\r\nSec-WebSocket-Key: key\r\nSec-WebSocket-Version: 13\r\nX-Secret: remove\r\nX-HNS-Client: remove\r\n\r\nclient",
        proxy.auth()
    );
    let response = proxy.send(&request);
    let (response_text, copied) = parts(&response);
    assert_eq!(status(&response), 101);
    assert!(response_text.contains("Connection: Upgrade\r\n"));
    assert!(response_text.contains("Upgrade: websocket\r\n"));
    assert!(response_text.contains("Sec-WebSocket-Accept: accepted\r\n"));
    assert!(!response_text.contains("keep-alive"));
    assert!(!response_text.contains("X-Origin-Hop"));
    assert!(!response_text.contains("X-HNS-"));
    assert_eq!(proxy.observations.len(), 1);
    let observation = &proxy.observations[0];
    assert_eq!(observation.generation(), 1);
    assert_eq!(observation.host().as_str(), "welcome");
    assert_eq!(observation.method(), ObservedMethod::Get);
    assert_eq!(observation.status_code(), 101);
    assert!(!observation.is_likely_main_frame());
    assert_eq!(
        observation.metadata().get("X-HNS-Security-Path"),
        Some("secret")
    );
    let diagnostic = observation.describe();
    assert!(!diagnostic.contains("socket"));
    assert!(!diagnostic.contains("q=1"));
    assert!(!diagnostic.contains("secret"));
    assert_eq!(copied, b"originclient");

    assert_eq!(proxy.requests.len(), 1);
    let request = &proxy.requests[0];
    assert_eq!(request.method, "GET");
    assert_eq!(request.scheme, "ws");
    assert_eq!(request.host, "welcome");
    assert_eq!(request.port, 80);
    assert_eq!(request.path_and_query, "/socket?q=1");
    assert!(request.body.is_empty());
    assert!(has(request, "connection", "Upgrade"));
    assert!(has(request, "upgrade", "websocket"));
    assert!(has(request, "sec-websocket-key", "key"));
    assert!(!names(request).iter().any(|name| {
        name == "proxy-authorization" || name == "x-secret" || name.starts_with("x-hns-")
    }));
}

#[test]
fn connect_webpki_passthrough_skips_local_tls_and_copies_bidirectionally() {
    let mut proxy = Proxy::new(Plan::plain("unused"));
    proxy.connect = ConnectOutcome::WebPkiPassthrough;
    let connect = connect_to(&proxy, "welcome:443");
    let client = proxy.serve(&connect, b"browser tls");
    assert_eq!(client.sent, CONNECT_ESTABLISHED_RESPONSE.as_bytes());
    assert_eq!(client.inner, b"browser tls");
    assert!(proxy.running.local_certificate_pin("welcome").is_none());
    assert_eq!(proxy.requests.len(), 1);
    let request = &proxy.requests[0];
    assert_eq!(request.method, "CONNECT");
    assert_eq!(request.scheme, "https");
    assert_eq!(request.host, "welcome");
    assert_eq!(request.port, 443);
    assert_eq!(request.path_and_query, "/");
    assert!(request.headers.is_empty());
    assert!(matches!(request.body, ProxyRequestBody::Empty));
    assert_eq!(proxy.observations.len(), 1);
    let observation = &proxy.observations[0];
    assert_eq!(
        observation.kind(),
        ProxyMetadataObservationKind::WebPkiConnectDecision
    );
    assert_eq!(observation.connect_port(), Some(443));
    assert_eq!(observation.observation_id(), Some(9));
    assert_eq!(observation.correlation_epoch(), Some(7));
    assert!(observation.metadata().is_empty());
}

#[test]
fn selected_webpki_connect_failure_never_prepares_a_local_identity() {
    let mut proxy = Proxy::new(Plan::plain("unused"));
    proxy.connect = ConnectOutcome::WebPkiUnavailable;
    let connect = connect_to(&proxy, "welcome:443");
    let response = proxy.send(&connect);

    assert_eq!(status(&response), 502);
    assert!(response.starts_with(b"HTTP/1.1 502 ICANN WebPKI Origin Unavailable\r\n"));
    assert!(proxy.running.local_certificate_pin("welcome").is_none());
}

#[test]
fn unexpected_connect_backend_failures_never_fall_back_to_local_tls() {
    let mut proxy = Proxy::new(Plan::plain("unused"));
    proxy.connect = ConnectOutcome::Failed(BackendError::Internal);
    let connect = connect_to(&proxy, "welcome:443");
    let response = proxy.send(&connect);

    assert_eq!(status(&response), 503);
    assert!(response.starts_with(b"HTTP/1.1 503 Browser Security Runtime Unavailable\r\n"));
    assert!(proxy.running.local_certificate_pin("welcome").is_none());
}

#[test]
fn post_connect_wss_upgrade_uses_the_same_rust_tunnel_path() {
    let mut proxy = Proxy::new(Plan::websocket(""));
    let connect = connect_to(&proxy, "welcome:443");
    let client = proxy.serve(
        &connect,
        b"GET wss://welcome/socket HTTP/1.1\r\nHost: welcome\r\nConnection: Upgrade\r\nUpgrade: websocket\r\nSec-WebSocket-Key: key\r\nSec-WebSocket-Version: 13\r\n\r\nping",
    );
    assert_eq!(status(&client.inner), 101);
    let (head, echoed) = parts(&client.inner);
    assert!(!head.contains("X-HNS-Security-Path"));
    assert_eq!(echoed, b"ping");

    assert_eq!(proxy.requests.len(), 1);
    assert_eq!(proxy.requests[0].scheme, "wss");
    assert_eq!(proxy.requests[0].host, "welcome");
    assert_eq!(proxy.requests[0].port, 443);
    assert_eq!(proxy.requests[0].path_and_query, "/socket");
}

#[test]
fn invalid_upgrade_response_fails_before_switching_protocols() {
    let mut proxy = Proxy::new(Plan::Switch {
        head: ProxyResponseHead {
            status_code: 200,
            reason_phrase: "OK".to_owned(),
            headers: vec![
                ProxyHeader::new("Connection", "Upgrade"),
                ProxyHeader::new("Upgrade", "websocket"),
                ProxyHeader::new("X-HNS-Security-Path", "must-not-observe"),
            ],
            observation_id: None,
        },
        initial: Vec::new(),
    });
    let request = format!(
        "GET ws://welcome/socket HTTP/1.1\r\nHost: welcome\r\n{}Connection: Upgrade\r\nUpgrade: websocket\r\n\r\n",
        proxy.auth()
    );

    let response = proxy.send(&request);
    assert_eq!(status(&response), 502);
    assert!(!String::from_utf8_lossy(&response).contains("101 Switching Protocols"));
    assert_eq!(proxy.requests.len(), 1);
    assert!(proxy.observations.is_empty());
}

#[test]
fn upgrade_backend_can_fail_with_a_bounded_http_response() {
    let mut proxy = Proxy::new(Plan::RefuseUpgrade(
        ProxyResponseHead {
            status_code: 404,
            reason_phrase: "Not Found".to_owned(),
            headers: vec![
                ProxyHeader::new("Content-Type", "text/plain"),
                ProxyHeader::new("X-HNS-Security-Path", "verified-non-inclusion"),
            ],
            observation_id: None,
        },
        b"verified non-inclusion".to_vec(),
    ));
    let request = format!(
        "GET ws://welcome/ HTTP/1.1\r\nHost: welcome\r\n{}Connection: Upgrade\r\nUpgrade: websocket\r\nSec-Fetch-Dest: document\r\n\r\n",
        proxy.auth()
    );

    let response = proxy.send(&request);
    assert_eq!(status(&response), 404);
    let (head, body) = parts(&response);
    assert!(head.contains("Content-Type: text/plain\r\n"));
    assert!(head.contains("Content-Length: 22\r\n"));
    assert!(!head.contains("Upgrade:"));
    assert!(!head.contains("X-HNS-"));
    assert_eq!(body, b"verified non-inclusion");
    assert_eq!(proxy.observations.len(), 1);
    assert_eq!(proxy.observations[0].status_code(), 404);
    assert_eq!(proxy.observations[0].method(), ObservedMethod::Get);
    assert!(!proxy.observations[0].is_likely_main_frame());
    assert_eq!(
        proxy.observations[0]
            .metadata()
            .get("X-HNS-Security-Path"),
        Some("verified-non-inclusion")
    );
}

#[test]
fn upgrades_and_out_of_scope_targets_never_reach_the_backend() {
    let mut proxy = Proxy::new(Plan::plain("unused"));
    let auth = proxy.auth();
    let cases = [
        (
            format!("CONNECT other:443 HTTP/1.1\r\nHost: other:443\r\n{auth}\r\n"),
            403,
        ),
        (
            format!(
                "GET http://welcome/socket HTTP/1.1\r\nHost: welcome\r\n{auth}Connection: Upgrade\r\nUpgrade: websocket\r\n\r\n"
            ),
            501,
        ),
        (
            format!("GET ws://welcome/socket HTTP/1.1\r\nHost: welcome\r\n{auth}\r\n"),
            400,
        ),
        (
            format!("GET http://other/ HTTP/1.1\r\nHost: other\r\n{auth}\r\n"),
            403,
        ),
        (
            format!("GET http://example.com/ HTTP/1.1\r\nHost: example.com\r\n{auth}\r\n"),
            403,
        ),
    ];

    for (request, expected) in cases {
        assert_eq!(status(&proxy.send(&request)), expected, "{request:?}");
    }
    assert_eq!(proxy.requests.len(), 0);
}

#[test]
fn premature_response_stream_eof_closes_without_a_second_response() {
    let mut proxy = Proxy::new(Plan::Respond {
        headers: vec![ProxyHeader::new("Content-Type", "application/octet-stream")],
        body: b"tiny".to_vec(),
        expected_len: 9,
    });
    let request = format!(
        "GET http://welcome/stream HTTP/1.1\r\nHost: welcome\r\n{}\r\n",
        proxy.auth()
    );

    let response = proxy.send(&request);
    assert_eq!(status(&response), 200);
    let (head, body) = parts(&response);
    assert!(head.contains("Content-Length: 9\r\n"));
    assert_eq!(body, b"tiny");
    assert_eq!(
        response
            .windows(b"HTTP/1.1".len())
            .filter(|window| *window == b"HTTP/1.1")
            .count(),
        1
    );
    assert_eq!(proxy.requests.len(), 1);
}

#[test]
fn helper_rounds_retry_after_up_and_maps_backend_failures() {
    assert_eq!(retry_after_seconds(0, 1), 1);
    assert_eq!(retry_after_seconds(2, 0), 2);
    assert_eq!(
        backend_error_status(BackendError::TlsValidationFailed),
        (502, "HNS TLS Validation Failed")
    );
}

#[test]
fn exact_stream_copy_rejects_premature_eof() {
    let mut out = Vec::new();
    assert_eq!(
        copy(b"x", 2, &mut out),
        Err(WriteBackendError::InvalidAfterHead)
    );
    assert_eq!(out, b"x");
    let mut cancelled = ExactCopy::new(1);
    cancelled.step(CopyEvent::Next { cancelled: true });
    assert_eq!(cancelled.stage, CopyStage::Failed(WriteBackendError::Io));
}

#[test]
fn dane_browser_routes_hns_and_icann_through_one_backend_boundary() {
    let mut proxy = Proxy::dane_browser(Plan::plain("native"));

    for host in ["welcome", "sub.unregistered-hns-root", "example.com"] {
        let request = format!(
            "GET http://{host}/ HTTP/1.1\r\nHost: {host}\r\n{}\r\n",
            proxy.auth()
        );
        assert_eq!(status(&proxy.send(&request)), 200);
    }

    for host in ["localhost", "example.onion", "127.0.0.1"] {
        let request = format!(
            "GET http://{host}/ HTTP/1.1\r\nHost: {host}\r\n{}\r\n",
            proxy.auth()
        );
        assert_eq!(status(&proxy.send(&request)), 403);
    }
    assert_eq!(proxy.requests.len(), 3);
}

#[test]
fn dane_browser_rejects_named_icann_unsafe_connect_port_before_tls_and_backend() {
    let mut proxy = Proxy::dane_browser(Plan::plain("unreachable"));
    let request = connect_to(&proxy, "example.com:22");

    assert_eq!(status(&proxy.send(&request)), 403);
    assert_eq!(proxy.requests.len(), 0);
}

#[test]
fn authentication_challenge_matching_is_revoked_on_stop_request() {
    let mut proxy = Proxy::new(Plan::plain("unused")).running;
    let port = proxy.endpoint().port();
    let realm = proxy.endpoint().realm().to_owned();
    assert!(proxy.matches_authentication_challenge("127.0.0.1", port, &realm));
    assert!(!proxy.matches_authentication_challenge("localhost", port, &realm));
    proxy.request_stop();
    assert!(proxy.is_stop_requested());
    assert!(!proxy.matches_authentication_challenge("127.0.0.1", port, &realm));
}

#[test]
fn clients_from_elsewhere_are_turned_away() {
    let mut flow = ClientFlow::new();
    let action = flow.step(ClientEvent::Arrived {
        peer: IpAddr::V4(Ipv4Addr::new(10, 0, 0, 1)),
        cancelled: false,
    });
    assert_eq!(
        action,
        ClientAction::Close {
            report: Report::refuse_client(ClientRejectionReason::InvalidPeer, None),
            shutdown: true,
        }
    );
}

#[test]
fn halves_of_a_tunnel_end_with_the_first_outcome() {
    let mut upload = HalfPump::new(Direction::Upload);
    upload.step(HalfEvent::Ready {
        cancelled: false,
        ended: false,
    });
    assert_eq!(upload.stage, HalfStage::Reading);
    upload.step(HalfEvent::Read {
        read: TunnelRead::Bytes(5),
        cancelled: false,
    });
    assert_eq!(upload.stage, HalfStage::Writing(5));
    upload.step(HalfEvent::Written {
        ok: false,
        cancelled: false,
    });
    assert_eq!(upload.stage, HalfStage::Ended(TunnelPumpOutcome::OriginIo));

    let first = record_connect_outcome(0, TunnelPumpOutcome::OriginIo);
    let second = record_connect_outcome(first, TunnelPumpOutcome::Completed);
    assert_eq!(connect_outcome(second), TunnelPumpOutcome::OriginIo);
}

fn handshake_to(name: Option<&str>, alpn: Option<&[u8]>) -> Result<(), TlsTerminationError> {
    let mut handshake = LocalHandshake::new(NormalizedHost::parse("welcome").ok().unwrap());
    handshake.start(HandshakeStart {
        cancelled: false,
        deadline: true,
        timeouts: true,
        connection: true,
        handshaking: true,
    })?;
    handshake.exchange(HandshakeIo::Moved {
        any: true,
        handshaking: true,
    })?;
    assert_eq!(handshake.stage(), HandshakeStage::Exchanging);
    handshake.exchange(HandshakeIo::Moved {
        any: true,
        handshaking: false,
    })?;
    assert_eq!(handshake.stage(), HandshakeStage::Complete);
    handshake.finish(false, false, name, alpn)?;
    handshake.restored(true)?;
    assert_eq!(handshake.stage(), HandshakeStage::Established);
    Ok(())
}

#[test]
fn sessions_are_for_the_expected_host_and_protocol() {
    assert_eq!(handshake_to(Some("WELCOME"), None), Ok(()));
    assert_eq!(handshake_to(Some("welcome"), Some(b"http/1.1")), Ok(()));
    assert_eq!(
        handshake_to(Some("other.welcome"), None),
        Err(TlsTerminationError::ServerNameRejected)
    );
    assert_eq!(
        handshake_to(None, None),
        Err(TlsTerminationError::ServerNameRejected)
    );
    assert_eq!(
        handshake_to(Some("welcome"), Some(b"h2")),
        Err(TlsTerminationError::ApplicationProtocolRejected)
    );
    let mut stalled = LocalHandshake::new(NormalizedHost::parse("welcome").ok().unwrap());
    assert_eq!(
        stalled.start(HandshakeStart {
            cancelled: true,
            deadline: true,
            timeouts: true,
            connection: true,
            handshaking: true,
        }),
        Err(TlsTerminationError::Cancelled)
    );
    assert_eq!(
        stalled.exchange(HandshakeIo::Moved {
            any: true,
            handshaking: true
        }),
        Err(TlsTerminationError::HandshakeFailed)
    );
}

#[test]
fn waits_end_at_the_deadline_and_at_the_poll() {
    assert_eq!(plan_io(true, true, None), IoPlan::Nothing);
    assert_eq!(plan_io(false, true, None), IoPlan::Fail(WaitError::Aborted));
    assert_eq!(plan_io(false, false, None), IoPlan::Direct);
    assert_eq!(plan_io(false, false, Some(Some(7))), IoPlan::Wait(7));
    assert_eq!(
        plan_io(false, false, Some(Some(u128::MAX))),
        IoPlan::Wait(CANCELLATION_POLL_NANOS)
    );
    assert_eq!(
        plan_io(false, false, Some(None)),
        IoPlan::Fail(WaitError::TimedOut)
    );
}

#[test]
fn requests_without_bytes_reach_the_backend_without_a_body() {
    let mut proxy = Proxy::new(Plan::plain("ok"));
    for (framing, body) in [
        ("", ""),
        ("Content-Length: 0\r\n", ""),
        ("Transfer-Encoding: chunked\r\n", "0\r\n\r\n"),
        ("Content-Length: 1\r\n", "x"),
    ] {
        let request = format!(
            "POST http://welcome/ HTTP/1.1\r\nHost: welcome\r\n{}{framing}\r\n{body}",
            proxy.auth()
        );
        assert_eq!(status(&proxy.send(&request)), 200);
    }
    let empty: Vec<bool> = proxy
        .requests
        .iter()
        .map(|request| matches!(request.body, ProxyRequestBody::Empty))
        .collect();
    assert_eq!(empty, vec![true, true, true, false]);
}

#[test]
fn a_cancelled_upgrade_publishes_no_head() {
    for (ok, cancelled) in [(true, false), (true, true), (false, false), (false, true)] {
        let mut flow = UpgradeFlow::new();
        flow.step(UpgradeEvent::Planned(None));
        flow.step(UpgradeEvent::Cleared {
            ok: true,
            cancelled: false,
        });
        let opened = flow.step(UpgradeEvent::Opened {
            outcome: UpgradeOutcome::Tunnel,
            cancelled: false,
        });
        assert_eq!(opened, UpgradeAction::EncodeHead);
        let encoded = flow.step(UpgradeEvent::Encoded { ok, cancelled });
        match encoded {
            UpgradeAction::PublishHead => assert!(ok && !cancelled),
            UpgradeAction::Close(report) => {
                assert!(!ok || cancelled);
                if ok {
                    assert_eq!(report, Report::nothing());
                }
            }
            _ => unreachable!(),
        }
    }
}
