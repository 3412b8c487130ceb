//! The life of one proxy generation: starting, announcing that it stops, and
//! having stopped.

use crate::addr::{Ipv4Addr, SocketAddr};
use crate::auth::ProxyAuthorization;
use crate::backend;
use crate::certificate;
use crate::certificate::{
    CertificateError, LocalCertificatePin, LocalTlsIdentityStore, PinView, PrepareStep, StoreView,
};
use crate::endpoint;
use crate::endpoint::{EndpointView, ProxyEndpoint};
use crate::event::{LifecycleEvent, ProxyEvent, StopReason};
use crate::host;
use crate::host::NormalizedHost;
use crate::instance::ProxyInstanceId;
use crate::text;
use vstd::prelude::*;

verus! {

/// Why a proxy did not start.
#[derive(Clone, Copy, Debug, PartialEq, Eq, Structural)]
pub enum ProxyError {
    Authorization,
    RateLimit,
    Listener,
}

pub open spec fn proxy_error_text(e: ProxyError) -> Seq<char> {
    match e {
        ProxyError::Authorization => "unable to generate mandatory loopback proxy credentials"@,
        ProxyError::RateLimit => "invalid loopback proxy rate-limit configuration"@,
        ProxyError::Listener => "unable to start the IPv4 loopback proxy listener"@,
    }
}

impl ProxyError {
    pub fn message(&self) -> (r: &'static str)
        ensures
            r@ == proxy_error_text(*self),
    {
        match self {
            ProxyError::Authorization => "unable to generate mandatory loopback proxy credentials",
            ProxyError::RateLimit => "invalid loopback proxy rate-limit configuration",
            ProxyError::Listener => "unable to start the IPv4 loopback proxy listener",
        }
    }
}

// ---------------------------------------------------------------------
// Stopping
// ---------------------------------------------------------------------

/// Who announces that the proxy stops. Threads are known by a number.
#[derive(Clone, Copy, Debug, PartialEq, Eq, Structural)]
pub enum Announcement {
    Pending,
    Emitting(u64),
    Emitted,
}

#[derive(Clone, Copy, Debug, PartialEq, Eq, Structural)]
pub struct ProxyStopState {
    pub requested: bool,
    pub completed: bool,
    pub listening: bool,
    pub announcement: Announcement,
}

/// What happens to the stop state.
#[derive(Clone, Copy, Debug, PartialEq, Eq, Structural)]
pub enum StopOp {
    /// Someone wants the proxy to stop.
    Request,
    /// The observer knows that the proxy listens.
    PublishListening,
    /// A thread wants the stop to be announced.
    Announce(u64),
    /// The announcing thread is done.
    Announced,
    /// All work has ended.
    Complete(StopReason),
}

/// What a thread has to do.
#[derive(Clone, Copy, Debug, PartialEq, Eq, Structural)]
pub enum StopStep {
    Nothing,
    /// Tell the observer that the proxy stops, then report back.
    EmitStopping,
    /// Return: this very thread is announcing.
    Reentrant,
    /// Wait until the announcing thread is done, then ask again.
    Wait,
    /// Go on: the stop has been announced.
    Proceed,
    /// Tell the observer that the proxy has stopped.
    EmitStopped(StopReason),
}

pub open spec fn initial_stop_state() -> ProxyStopState {
    ProxyStopState {
        requested: false,
        completed: false,
        listening: false,
        announcement: Announcement::Pending,
    }
}

pub open spec fn stop_step(s: ProxyStopState, op: StopOp) -> (ProxyStopState, StopStep) {
    match op {
        StopOp::Request => (ProxyStopState { requested: true, ..s }, StopStep::Nothing),
        StopOp::PublishListening => (ProxyStopState { listening: true, ..s }, StopStep::Nothing),
        StopOp::Announce(thread) => match s.announcement {
            Announcement::Pending => (
                ProxyStopState { announcement: Announcement::Emitting(thread), ..s },
                StopStep::EmitStopping,
            ),
            Announcement::Emitting(owner) => (
                s,
                if owner == thread {
                    StopStep::Reentrant
                } else {
                    StopStep::Wait
                },
            ),
            Announcement::Emitted => (s, StopStep::Proceed),
        },
        StopOp::Announced => if s.announcement is Emitting {
            (ProxyStopState { announcement: Announcement::Emitted, ..s }, StopStep::Proceed)
        } else {
            (s, StopStep::Nothing)
        },
        StopOp::Complete(reason) => if s.completed {
            (s, StopStep::Nothing)
        } else {
            (ProxyStopState { completed: true, ..s }, StopStep::EmitStopped(reason))
        },
    }
}

impl ProxyStopState {
    pub fn new() -> (r: Self)
        ensures
            r == initial_stop_state(),
    {
        ProxyStopState {
            requested: false,
            completed: false,
            listening: false,
            announcement: Announcement::Pending,
        }
    }

    pub fn step(&mut self, op: StopOp) -> (r: StopStep)
        ensures
            (*final(self), r) == stop_step(*old(self), op),
    {
        match op {
            StopOp::Request => {
                self.requested = true;
                StopStep::Nothing
            },
            StopOp::PublishListening => {
                self.listening = true;
                StopStep::Nothing
            },
            StopOp::Announce(thread) => match self.announcement {
                Announcement::Pending => {
                    self.announcement = Announcement::Emitting(thread);
                    StopStep::EmitStopping
                },
                Announcement::Emitting(owner) => if owner == thread {
                    StopStep::Reentrant
                } else {
                    StopStep::Wait
                },
                Announcement::Emitted => StopStep::Proceed,
            },
            StopOp::Announced => match self.announcement {
                Announcement::Emitting(_) => {
                    self.announcement = Announcement::Emitted;
                    StopStep::Proceed
                },
                _ => StopStep::Nothing,
            },
            StopOp::Complete(reason) => if self.completed {
                StopStep::Nothing
            } else {
                self.completed = true;
                StopStep::EmitStopped(reason)
            },
        }
    }
}

/// The event that a step tells the observer.
pub fn stop_event(generation: u64, step: StopStep) -> (r: Option<ProxyEvent>)
    ensures
        r == (match step {
            StopStep::EmitStopping => Some(
                ProxyEvent::Lifecycle { generation, event: LifecycleEvent::Stopping },
            ),
            StopStep::EmitStopped(reason) => Some(
                ProxyEvent::Lifecycle { generation, event: LifecycleEvent::Stopped { reason } },
            ),
            _ => None,
        }),
{
    match step {
        StopStep::EmitStopping => Some(
            ProxyEvent::Lifecycle { generation, event: LifecycleEvent::Stopping },
        ),
        StopStep::EmitStopped(reason) => Some(
            ProxyEvent::Lifecycle { generation, event: LifecycleEvent::Stopped { reason } },
        ),
        _ => None,
    }
}

/// How the listener came to its end.
#[derive(Clone, Copy, Debug, PartialEq, Eq, Structural)]
pub enum ListenerExitPhase {
    FailureDetected,
    QuiescedOnRequest,
    QuiescedAfterFailure,
}

/// What is done when the listener ends, after the stop was requested, every
/// identity revoked, and the observer knows that the proxy listened: the stop is
/// announced, and completed once all work has ended.
pub fn listener_exit(phase: ListenerExitPhase) -> (r: Option<StopReason>)
    ensures
        r == (match phase {
            ListenerExitPhase::FailureDetected => None,
            ListenerExitPhase::QuiescedOnRequest => Some(StopReason::Requested),
            ListenerExitPhase::QuiescedAfterFailure => Some(StopReason::ListenerFailure),
        }),
{
    match phase {
        ListenerExitPhase::FailureDetected => None,
        ListenerExitPhase::QuiescedOnRequest => Some(StopReason::Requested),
        ListenerExitPhase::QuiescedAfterFailure => Some(StopReason::ListenerFailure),
    }
}

/// The stop state after a sequence of operations.
pub open spec fn stop_run(ops: Seq<StopOp>) -> ProxyStopState
    decreases ops.len(),
{
    if ops.len() == 0 {
        initial_stop_state()
    } else {
        stop_step(stop_run(ops.drop_last()), ops.last()).0
    }
}

/// How often the observer was told that the proxy stops.
pub open spec fn announcements(ops: Seq<StopOp>) -> int
    decreases ops.len(),
{
    if ops.len() == 0 {
        0
    } else {
        announcements(ops.drop_last()) + (if stop_step(stop_run(ops.drop_last()), ops.last()).1
            == StopStep::EmitStopping {
            1int
        } else {
            0
        })
    }
}

/// How often the observer was told that the proxy has stopped.
pub open spec fn completions(ops: Seq<StopOp>) -> int
    decreases ops.len(),
{
    if ops.len() == 0 {
        0
    } else {
        completions(ops.drop_last()) + (if stop_step(
            stop_run(ops.drop_last()),
            ops.last(),
        ).1 is EmitStopped {
            1int
        } else {
            0
        })
    }
}

/// However many threads stop the proxy, and in whatever order, the observer is
/// told once that it stops and once that it has stopped.
pub proof fn stops_are_told_once(ops: Seq<StopOp>)
    ensures
        announcements(ops) == (if stop_run(ops).announcement is Pending {
            0int
        } else {
            1
        }),
        completions(ops) == (if stop_run(ops).completed {
            1int
        } else {
            0
        }),
    decreases ops.len(),
{
    if ops.len() > 0 {
        stops_are_told_once(ops.drop_last());
    }
}

/// A thread goes on to wait for the work only when the observer has been told
/// that the proxy stops, and a request to stop is never taken back.
pub proof fn stops_are_final(s: ProxyStopState, op: StopOp)
    ensures
        stop_step(s, op).1 == StopStep::Proceed ==> stop_step(s, op).0.announcement
            == Announcement::Emitted,
        s.requested ==> stop_step(s, op).0.requested,
        s.completed ==> stop_step(s, op).0.completed,
        s.announcement is Emitted ==> stop_step(s, op).0.announcement is Emitted,
{
}

// ---------------------------------------------------------------------
// A running proxy
// ---------------------------------------------------------------------

/// One proxy generation: where it listens, its local identities, and how far it
/// has stopped.
pub struct RunningProxy<I> {
    endpoint: ProxyEndpoint,
    identities: LocalTlsIdentityStore<I>,
    stop_state: ProxyStopState,
}

pub struct RunningView<I> {
    pub endpoint: EndpointView,
    pub identities: StoreView<I>,
    pub stop: ProxyStopState,
}

impl<I> View for RunningProxy<I> {
    type V = RunningView<I>;

    closed spec fn view(&self) -> RunningView<I> {
        RunningView {
            endpoint: self.endpoint@,
            identities: self.identities@,
            stop: self.stop_state,
        }
    }
}

impl<I> RunningView<I> {
    /// The identities are valid, and revoked once a stop was requested.
    pub open spec fn wf(self) -> bool {
        self.identities.wf() && (self.stop.requested ==> !self.identities.active)
    }

    /// The identities after someone asked for the pin of a host by whatever name: they
    /// are looked at only while the proxy runs, and for a name that denotes a host.
    pub open spec fn asked(self, name: Seq<char>) -> StoreView<I> {
        if self.stop.requested {
            self.identities
        } else {
            match host::normalized(name) {
                Err(_) => self.identities,
                Ok(h) => self.identities.asked(h),
            }
        }
    }

    /// The pin of a host by whatever name, while the proxy runs.
    pub open spec fn pin_of(self, name: Seq<char>) -> Option<PinView> {
        if self.stop.requested {
            None
        } else {
            match host::normalized(name) {
                Err(_) => None,
                Ok(h) => self.identities.pin_of(h),
            }
        }
    }
}

impl<I> RunningProxy<I> {
    /// Starts a generation from what starting its parts came to, in the order in
    /// which they are started: its credentials, its rate limiter, and its
    /// listener on the IPv4 loopback address, which has a port. The event that it
    /// listens is for the observer.
    pub fn start(
        instance: ProxyInstanceId,
        authorization: Option<ProxyAuthorization>,
        rate_limiter: bool,
        port: Option<u16>,
    ) -> (r: Result<(Self, ProxyEvent), ProxyError>)
        ensures
            match r {
                Err(e) => e == (if authorization is None {
                    ProxyError::Authorization
                } else if !rate_limiter {
                    ProxyError::RateLimit
                } else {
                    ProxyError::Listener
                }) && (authorization is None || !rate_limiter || port is None),
                Ok((p, event)) => {
                    &&& authorization is Some && rate_limiter && port is Some
                    &&& p@.wf()
                    &&& p@.endpoint == (EndpointView {
                        instance: instance@,
                        address: SocketAddr::V4 {
                            ip: Ipv4Addr { bits: endpoint::LOOPBACK_BITS },
                            port: port->0,
                        },
                        authorization: authorization->0@,
                    })
                    &&& p@.identities.active && p@.identities.entries.len() == 0
                    &&& p@.identities.instance == instance@
                    &&& p@.stop == (ProxyStopState { listening: true, ..initial_stop_state() })
                    &&& event == (ProxyEvent::Lifecycle {
                        generation: instance@.generation,
                        event: LifecycleEvent::Listening { port: port->0 },
                    })
                },
            },
    {
        let authorization = match authorization {
            None => {
                return Err(ProxyError::Authorization);
            },
            Some(a) => a,
        };
        if !rate_limiter {
            return Err(ProxyError::RateLimit);
        }
        let port: u16 = match port {
            None => {
                return Err(ProxyError::Listener);
            },
            Some(p) => p,
        };
        let generation = instance.generation();
        let identities = LocalTlsIdentityStore::new(instance.copy());
        let address = SocketAddr::V4 {
            ip: Ipv4Addr { bits: endpoint::LOOPBACK_BITS },
            port,
        };
        let endpoint = ProxyEndpoint::new(instance, address, authorization);
        let mut stop_state = ProxyStopState::new();
        let _ = stop_state.step(StopOp::PublishListening);
        let event = ProxyEvent::Lifecycle { generation, event: LifecycleEvent::Listening { port } };
        Ok((RunningProxy { endpoint, identities, stop_state }, event))
    }

    pub fn endpoint(&self) -> (r: &ProxyEndpoint)
        ensures
            r@ == self@.endpoint,
    {
        &self.endpoint
    }

    pub fn is_stopped(&self) -> (r: bool)
        ensures
            r == self@.stop.completed,
    {
        self.stop_state.completed
    }

    pub fn is_stop_requested(&self) -> (r: bool)
        ensures
            r == self@.stop.requested,
    {
        self.stop_state.requested
    }

    /// Whether an authentication challenge is this proxy's, while it runs.
    pub fn matches_authentication_challenge(&self, host: &str, port: u16, realm: &str) -> (r: bool)
        ensures
            r == (!self@.stop.requested && self@.endpoint.is_challenge(host@, port, realm@)),
    {
        !self.is_stop_requested() && self.endpoint.matches_challenge(host, port, realm)
    }

    /// The pin of a host that was prepared, while the proxy runs.
    pub fn local_certificate_pin(&mut self, host: &str) -> (r: Option<LocalCertificatePin>)
        requires
            old(self)@.wf(),
        ensures
            final(self)@.wf(),
            final(self)@.endpoint == old(self)@.endpoint,
            final(self)@.stop == old(self)@.stop,
            final(self)@.identities == old(self)@.asked(host@),
            match r {
                Some(p) => old(self)@.pin_of(host@) == Some(p@),
                None => old(self)@.pin_of(host@) is None,
            },
    {
        if self.stop_state.requested {
            return None;
        }
        match NormalizedHost::parse(host) {
            Err(_) => None,
            Ok(h) => self.identities.pin(&h),
        }
    }

    /// Whether a certificate that a browser was shown is this proxy's for the
    /// host, while it runs.
    pub fn matches_local_certificate(&mut self, host: &str, certificate_der: &[u8]) -> (r: bool)
        requires
            old(self)@.wf(),
        ensures
            final(self)@.wf(),
            final(self)@.endpoint == old(self)@.endpoint,
            final(self)@.stop == old(self)@.stop,
            final(self)@.identities == (if certificate_der@.len()
                > certificate::MAX_PRESENTED_CERTIFICATE_DER_BYTES {
                old(self)@.identities
            } else {
                old(self)@.asked(host@)
            }),
            r == (match old(self)@.pin_of(host@) {
                Some(p) => certificate::der_matches(p.digest, certificate_der@),
                None => false,
            }),
    {
        if self.stop_state.requested {
            return false;
        }
        match NormalizedHost::parse(host) {
            Err(_) => false,
            Ok(h) => self.identities.matches_der(&h, certificate_der),
        }
    }

    /// The identities of this generation.
    pub fn identities(&self) -> (r: &LocalTlsIdentityStore<I>)
        ensures
            r@ == self@.identities,
    {
        &self.identities
    }

    /// Looks for the identity of a host, or for room to generate it.
    pub fn prepare(&mut self, host: &NormalizedHost) -> (r: Result<PrepareStep, CertificateError>)
        requires
            old(self)@.wf(),
        ensures
            final(self)@.wf(),
            final(self)@.endpoint == old(self)@.endpoint,
            final(self)@.stop == old(self)@.stop,
            (r, final(self)@.identities) == old(self)@.identities.prepared(host@),
    {
        self.identities.prepare(host)
    }

    /// Caches a generated identity and leases it.
    pub fn commit(&mut self, host: NormalizedHost, pin: LocalCertificatePin, identity: I) -> (r:
        Result<usize, CertificateError>)
        requires
            old(self)@.wf(),
        ensures
            final(self)@.wf(),
            final(self)@.endpoint == old(self)@.endpoint,
            final(self)@.stop == old(self)@.stop,
            old(self)@.identities.committed(host@, pin@, identity, r, final(self)@.identities),
    {
        self.identities.commit(host, pin, identity)
    }

    /// Ends one lease of a host's identity.
    pub fn release(&mut self, host: &NormalizedHost)
        requires
            old(self)@.wf(),
        ensures
            final(self)@.wf(),
            final(self)@.endpoint == old(self)@.endpoint,
            final(self)@.stop == old(self)@.stop,
            final(self)@.identities == old(self)@.identities.released(host@),
    {
        self.identities.release(host);
    }

    /// Revokes every identity at once and for good.
    pub fn request_stop(&mut self)
        requires
            old(self)@.wf(),
        ensures
            final(self)@.wf(),
            final(self)@.endpoint == old(self)@.endpoint,
            final(self)@.stop == (ProxyStopState { requested: true, ..old(self)@.stop }),
            final(self)@.identities == old(self)@.identities.revoked(),
    {
        let _ = self.stop_state.step(StopOp::Request);
        self.identities.deactivate();
    }

    /// One step of stopping, for a thread that has asked for the stop. It says
    /// what the thread has to do.
    pub fn stop(&mut self, op: StopOp) -> (r: StopStep)
        requires
            old(self)@.wf(),
        ensures
            final(self)@.wf(),
            final(self)@.endpoint == old(self)@.endpoint,
            final(self)@.identities == old(self)@.identities.revoked(),
            (final(self)@.stop, r) == stop_step(
                ProxyStopState { requested: true, ..old(self)@.stop },
                op,
            ),
    {
        self.request_stop();
        self.stop_state.step(op)
    }

    /// A diagnostic description that withholds the session and the credentials.
    pub fn describe(&self, active_clients: usize) -> (r: String)
        ensures
            r@ == "RunningProxy { endpoint: "@ + self@.endpoint.description()
                + ", active_clients: "@ + text::decimal(active_clients as nat)
                + ", stop_requested: "@ + backend::bool_text(self@.stop.requested)
                + ", stop_completed: "@ + backend::bool_text(self@.stop.completed) + " }"@,
    {
        let mut v = text::to_chars("RunningProxy { endpoint: ");
        let e = self.endpoint.describe();
        text::push_str(&mut v, e.as_str());
        text::push_str(&mut v, ", active_clients: ");
        let d = text::digits_of(active_clients as u64, 10);
        text::push_chars(&mut v, d.as_slice());
        text::push_str(&mut v, ", stop_requested: ");
        backend::push_bool(&mut v, self.stop_state.requested);
        text::push_str(&mut v, ", stop_completed: ");
        backend::push_bool(&mut v, self.stop_state.completed);
        text::push_str(&mut v, " }");
        text::from_chars(v.as_slice())
    }
}

/// After a stop was requested, a proxy answers no challenge and vouches for no
/// certificate.
pub proof fn stopped_proxies_vouch_for_nothing<I>(p: RunningView<I>, name: Seq<char>)
    requires
        p.stop.requested,
    ensures
        p.pin_of(name) is None,
        p.wf() ==> p.identities.entries.len() == 0,
{
}

/// A stop is announced by the first thread that wants to; the others wait for it, but for
/// itself, and go on once it is done. It is complete once, with the reason that came first.
pub proof fn stops_go_their_way(s: ProxyStopState, thread: u64, owner: u64, reason: StopReason)
    ensures
        stop_step(s, StopOp::Request) == (
            ProxyStopState { requested: true, ..s },
            StopStep::Nothing,
        ),
        stop_step(s, StopOp::PublishListening) == (
            ProxyStopState { listening: true, ..s },
            StopStep::Nothing,
        ),
        ({
            let pending = ProxyStopState { announcement: Announcement::Pending, ..s };
            let emitting = ProxyStopState { announcement: Announcement::Emitting(owner), ..s };
            let emitted = ProxyStopState { announcement: Announcement::Emitted, ..s };
            &&& stop_step(pending, StopOp::Announce(owner)) == (emitting, StopStep::EmitStopping)
            &&& stop_step(emitting, StopOp::Announce(thread)) == (
                emitting,
                if thread == owner {
                    StopStep::Reentrant
                } else {
                    StopStep::Wait
                },
            )
            &&& stop_step(emitting, StopOp::Announced) == (emitted, StopStep::Proceed)
            &&& stop_step(emitted, StopOp::Announce(thread)) == (emitted, StopStep::Proceed)
            &&& stop_step(pending, StopOp::Announced) == (pending, StopStep::Nothing)
            &&& stop_step(emitted, StopOp::Announced) == (emitted, StopStep::Nothing)
        }),
        stop_step(s, StopOp::Complete(reason)) == (
            ProxyStopState { completed: true, ..s },
            if s.completed {
                StopStep::Nothing
            } else {
                StopStep::EmitStopped(reason)
            },
        ),
{
}

/// A proxy that runs vouches for a host exactly where its name is one and its store holds
/// it.
pub proof fn running_proxies_vouch_for_their_hosts<I>(p: RunningView<I>, name: Seq<char>)
    requires
        !p.stop.requested,
    ensures
        host::normalized(name) is Ok ==> p.pin_of(name) == p.identities.pin_of(
            host::normalized(name)->Ok_0,
        ) && p.asked(name) == p.identities.asked(host::normalized(name)->Ok_0),
        host::normalized(name) is Err ==> p.pin_of(name) is None && p.asked(name) == p.identities,
{
}

/// A listener that failed has no reason yet; once all is quiet, the reason is the request or
/// the failure.
pub proof fn listeners_end_for_a_reason(phase: ListenerExitPhase, r: Option<StopReason>)
    requires
        call_ensures(listener_exit, (phase,), r),
    ensures
        r == (match phase {
            ListenerExitPhase::FailureDetected => None,
            ListenerExitPhase::QuiescedOnRequest => Some(StopReason::Requested),
            ListenerExitPhase::QuiescedAfterFailure => Some(StopReason::ListenerFailure),
        }),
{
}

/// The observer is told of a stop that begins and of one that is complete, and of nothing in
/// between.
pub proof fn stops_are_observed(generation: u64, step: StopStep, r: Option<ProxyEvent>)
    requires
        call_ensures(stop_event, (generation, step), r),
    ensures
        r is Some <==> step is EmitStopping || step is EmitStopped,
        step is EmitStopping ==> r == Some(
            ProxyEvent::Lifecycle { generation, event: LifecycleEvent::Stopping },
        ),
        step matches StopStep::EmitStopped(reason) ==> r == Some(
            ProxyEvent::Lifecycle { generation, event: LifecycleEvent::Stopped { reason } },
        ),
{
}

/// Each failure is told in its own words.
pub proof fn failures_to_start_have_their_words(e: ProxyError)
    ensures
        proxy_error_text(e) == (match e {
            ProxyError::Authorization => "unable to generate mandatory loopback proxy credentials"@,
            ProxyError::RateLimit => "invalid loopback proxy rate-limit configuration"@,
            ProxyError::Listener => "unable to start the IPv4 loopback proxy listener"@,
        }),
{
}

} // verus!
