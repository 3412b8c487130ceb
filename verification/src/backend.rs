//! The values that cross the boundary between the proxy and its backend.

use crate::text;
use vstd::prelude::*;

verus! {

#[derive(Clone, PartialEq, Eq)]
pub struct ProxyHeader {
    pub name: String,
    pub value: String,
}

pub open spec fn proxy_header_views(headers: Seq<ProxyHeader>) -> Seq<crate::http1::HeaderView> {
    headers.map_values(|h: ProxyHeader| h@)
}

impl View for ProxyHeader {
    type V = crate::http1::HeaderView;

    open spec fn view(&self) -> crate::http1::HeaderView {
        crate::http1::HeaderView { name: self.name@, value: self.value@ }
    }
}

impl ProxyHeader {
    pub fn new(name: &str, value: &str) -> (r: Self)
        ensures
            r@ == (crate::http1::HeaderView { name: name@, value: value@ }),
    {
        ProxyHeader { name: name.to_owned(), value: value.to_owned() }
    }

    /// A diagnostic description that withholds name and value.
    pub fn describe(&self) -> (r: &'static str)
        ensures
            r@ == "ProxyHeader(<redacted>)"@,
    {
        "ProxyHeader(<redacted>)"
    }
}

#[derive(Clone, PartialEq, Eq)]
pub enum ProxyRequestBody {
    Empty,
    Bytes(Vec<u8>),
}

impl View for ProxyRequestBody {
    type V = Seq<u8>;

    open spec fn view(&self) -> Seq<u8> {
        match *self {
            ProxyRequestBody::Empty => Seq::empty(),
            ProxyRequestBody::Bytes(b) => b@,
        }
    }
}

impl ProxyRequestBody {
    pub fn len(&self) -> (r: usize)
        ensures
            r == self@.len(),
    {
        match self {
            ProxyRequestBody::Empty => 0,
            ProxyRequestBody::Bytes(bytes) => bytes.len(),
        }
    }

    pub fn is_empty(&self) -> (r: bool)
        ensures
            r == (self@.len() == 0),
    {
        self.len() == 0
    }

    pub fn as_bytes(&self) -> (r: &[u8])
        ensures
            r@ == self@,
    {
        match self {
            ProxyRequestBody::Empty => {
                let none: &[u8] = &[];
                assert(none@ == Seq::<u8>::empty());
                none
            },
            ProxyRequestBody::Bytes(bytes) => bytes.as_slice(),
        }
    }

    pub fn into_bytes(self) -> (r: Vec<u8>)
        ensures
            r@ == self@,
    {
        match self {
            ProxyRequestBody::Empty => {
                let none: Vec<u8> = Vec::new();
                assert(none@ == Seq::<u8>::empty());
                none
            },
            ProxyRequestBody::Bytes(bytes) => bytes,
        }
    }

    /// A body that holds the bytes; no bytes are no body.
    pub fn of(bytes: Vec<u8>) -> (r: Self)
        ensures
            r@ == bytes@,
            r is Empty <==> bytes@.len() == 0,
    {
        if bytes.len() == 0 {
            assert(bytes@ == Seq::<u8>::empty());
            ProxyRequestBody::Empty
        } else {
            ProxyRequestBody::Bytes(bytes)
        }
    }

    pub open spec fn description(self) -> Seq<char> {
        "ProxyRequestBody { len: "@ + text::decimal(self@.len()) + " }"@
    }

    /// A diagnostic description that withholds the bytes.
    pub fn describe(&self) -> (r: String)
        ensures
            r@ == self.description(),
    {
        let mut v = text::to_chars("ProxyRequestBody { len: ");
        let d = text::digits_of(self.len() as u64, 10);
        text::push_chars(&mut v, d.as_slice());
        text::push_str(&mut v, " }");
        text::from_chars(v.as_slice())
    }
}

/// One admitted request, as the backend sees it.
#[derive(Clone, PartialEq, Eq)]
pub struct ProxyRequest {
    pub method: String,
    pub scheme: String,
    pub host: String,
    pub port: u16,
    pub path_and_query: String,
    pub headers: Vec<ProxyHeader>,
    pub body: ProxyRequestBody,
}

#[verifier::ext_equal]
pub struct ProxyRequestView {
    pub method: Seq<char>,
    pub scheme: Seq<char>,
    pub host: Seq<char>,
    pub port: u16,
    pub path_and_query: Seq<char>,
    pub headers: Seq<crate::http1::HeaderView>,
    pub body: Seq<u8>,
}

impl View for ProxyRequest {
    type V = ProxyRequestView;

    open spec fn view(&self) -> ProxyRequestView {
        ProxyRequestView {
            method: self.method@,
            scheme: self.scheme@,
            host: self.host@,
            port: self.port,
            path_and_query: self.path_and_query@,
            headers: proxy_header_views(self.headers@),
            body: self.body@,
        }
    }
}

impl ProxyRequest {
    /// A diagnostic description that shows port and sizes only.
    pub fn describe(&self) -> (r: String)
        ensures
            r@ == "ProxyRequest { port: "@ + text::decimal(self.port as nat) + ", header_count: "@
                + text::decimal(self.headers@.len()) + ", body: "@ + self.body.description()
                + ", .. }"@,
    {
        let mut v = text::to_chars("ProxyRequest { port: ");
        let d = text::digits_of(self.port as u64, 10);
        text::push_chars(&mut v, d.as_slice());
        text::push_str(&mut v, ", header_count: ");
        let d = text::digits_of(self.headers.len() as u64, 10);
        text::push_chars(&mut v, d.as_slice());
        text::push_str(&mut v, ", body: ");
        let b = self.body.describe();
        text::push_str(&mut v, b.as_str());
        text::push_str(&mut v, ", .. }");
        text::from_chars(v.as_slice())
    }
}

#[derive(Clone, PartialEq, Eq)]
pub struct ProxyResponseHead {
    pub status_code: u16,
    pub reason_phrase: String,
    pub headers: Vec<ProxyHeader>,
    /// Opaque correlation for typed status delivery; never written to a client.
    pub observation_id: Option<u64>,
}

pub open spec fn bool_text(b: bool) -> Seq<char> {
    if b {
        "true"@
    } else {
        "false"@
    }
}

pub fn push_bool(out: &mut Vec<char>, b: bool)
    ensures
        final(out)@ == old(out)@ + bool_text(b),
{
    if b {
        text::push_str(out, "true");
    } else {
        text::push_str(out, "false");
    }
}

impl ProxyResponseHead {
    /// A diagnostic description that shows status and sizes only.
    pub fn describe(&self) -> (r: String)
        ensures
            r@ == "ProxyResponseHead { status_code: "@ + text::decimal(self.status_code as nat)
                + ", header_count: "@ + text::decimal(self.headers@.len())
                + ", observation_id_present: "@ + bool_text(self.observation_id is Some)
                + ", .. }"@,
    {
        let mut v = text::to_chars("ProxyResponseHead { status_code: ");
        let d = text::digits_of(self.status_code as u64, 10);
        text::push_chars(&mut v, d.as_slice());
        text::push_str(&mut v, ", header_count: ");
        let d = text::digits_of(self.headers.len() as u64, 10);
        text::push_chars(&mut v, d.as_slice());
        text::push_str(&mut v, ", observation_id_present: ");
        push_bool(&mut v, self.observation_id.is_some());
        text::push_str(&mut v, ", .. }");
        text::from_chars(v.as_slice())
    }
}

/// A response body: bytes, or a stream `R` of announced length.
pub enum ProxyResponseBody<R> {
    Bytes(Vec<u8>),
    Stream { expected_len: u64, reader: R },
}

impl<R> ProxyResponseBody<R> {
    pub open spec fn length(self) -> u64 {
        match self {
            ProxyResponseBody::Bytes(b) => b@.len() as u64,
            ProxyResponseBody::Stream { expected_len, .. } => expected_len,
        }
    }

    pub fn empty() -> (r: Self)
        ensures
            r is Bytes,
            r->Bytes_0@.len() == 0,
    {
        ProxyResponseBody::Bytes(Vec::new())
    }

    pub fn expected_len(&self) -> (r: u64)
        ensures
            r == self.length(),
    {
        match self {
            ProxyResponseBody::Bytes(bytes) => bytes.len() as u64,
            ProxyResponseBody::Stream { expected_len, .. } => *expected_len,
        }
    }

    pub fn is_empty(&self) -> (r: bool)
        ensures
            r == (self.length() == 0),
    {
        self.expected_len() == 0
    }

    /// A diagnostic description that withholds the contents.
    pub fn describe(&self) -> (r: String)
        ensures
            r@ == "ProxyResponseBody { expected_len: "@ + text::decimal(self.length() as nat)
                + " }"@,
    {
        let mut v = text::to_chars("ProxyResponseBody { expected_len: ");
        let d = text::digits_of(self.expected_len(), 10);
        text::push_chars(&mut v, d.as_slice());
        text::push_str(&mut v, " }");
        text::from_chars(v.as_slice())
    }
}

/// A backend response; `P` is the permit that its head is published under.
pub struct ProxyResponse<R, P> {
    pub head: ProxyResponseHead,
    pub body: ProxyResponseBody<R>,
    pub publication_permit: P,
}

/// One Upgrade response and its live origin connection `S`.
pub struct ProxyTunnel<S, P> {
    pub head: ProxyResponseHead,
    pub stream: S,
    pub publication_permit: P,
}

/// Pre-TLS disposition of an authenticated CONNECT; `T` is the tunnel that
/// carries browser TLS unchanged.
pub enum ProxyConnectOpen<T> {
    /// Continue through the local certificate and HTTP gateway path.
    Intercept,
    /// The selected origin socket could not be opened. Never substitute local
    /// TLS.
    WebPkiUnavailable,
    WebPkiPassthrough(T),
}

/// A raw, policy-bound CONNECT stream in two halves.
pub struct ProxyConnectTunnel<R, W, H, P> {
    pub reader: R,
    pub writer: W,
    pub shutdown: H,
    pub observation_id: Option<u64>,
    pub correlation_epoch: u64,
    pub publication_permit: P,
}

/// The result of opening an Upgrade route.
pub enum ProxyTunnelOpen<S, R, P> {
    Tunnel(ProxyTunnel<S, P>),
    Response(ProxyResponse<R, P>),
}

#[derive(Clone, Copy, Debug, PartialEq, Eq, Structural)]
pub enum BackendError {
    Cancelled,
    InvalidRequest,
    PolicyDenied,
    ResolutionFailed,
    TlsValidationFailed,
    UpstreamUnavailable,
    InvalidResponse,
    ResponseTooLarge,
    UnsupportedUpgrade,
    Internal,
}

pub open spec fn backend_error_text(e: BackendError) -> Seq<char> {
    match e {
        BackendError::Cancelled => "backend operation was cancelled"@,
        BackendError::InvalidRequest => "backend rejected an invalid request"@,
        BackendError::PolicyDenied => "backend policy denied the request"@,
        BackendError::ResolutionFailed => "name resolution failed"@,
        BackendError::TlsValidationFailed => "upstream TLS validation failed"@,
        BackendError::UpstreamUnavailable => "upstream service is unavailable"@,
        BackendError::InvalidResponse => "upstream returned an invalid response"@,
        BackendError::ResponseTooLarge => "upstream response exceeds the configured limit"@,
        BackendError::UnsupportedUpgrade => "backend does not support HTTP Upgrade tunnelling"@,
        BackendError::Internal => "internal backend failure"@,
    }
}

impl BackendError {
    /// What went wrong, in words.
    pub fn message(&self) -> (r: &'static str)
        ensures
            r@ == backend_error_text(*self),
    {
        match self {
            BackendError::Cancelled => "backend operation was cancelled",
            BackendError::InvalidRequest => "backend rejected an invalid request",
            BackendError::PolicyDenied => "backend policy denied the request",
            BackendError::ResolutionFailed => "name resolution failed",
            BackendError::TlsValidationFailed => "upstream TLS validation failed",
            BackendError::UpstreamUnavailable => "upstream service is unavailable",
            BackendError::InvalidResponse => "upstream returned an invalid response",
            BackendError::ResponseTooLarge => "upstream response exceeds the configured limit",
            BackendError::UnsupportedUpgrade => "backend does not support HTTP Upgrade tunnelling",
            BackendError::Internal => "internal backend failure",
        }
    }
}

/// What a holder of a shared cancellation does with it.
pub enum CancellationCall {
    Cancel,
    Ask,
}

/// Whether a shared state is cancelled after a call, and what the call returns.
pub open spec fn cancellation_step(cancelled: bool, call: CancellationCall) -> (bool, bool) {
    match call {
        CancellationCall::Cancel => (true, !cancelled),
        CancellationCall::Ask => (cancelled, cancelled),
    }
}

/// Whether a new state is cancelled after the calls of its holders, each with the
/// number of the holder.
pub open spec fn cancelled_after(calls: Seq<(nat, CancellationCall)>) -> bool
    decreases calls.len(),
{
    calls.len() > 0 && cancellation_step(
        cancelled_after(calls.drop_last()),
        calls.last().1,
    ).0
}

/// What one of the calls returns.
pub open spec fn cancellation_answer(calls: Seq<(nat, CancellationCall)>, at: int) -> bool {
    cancellation_step(cancelled_after(calls.take(at)), calls[at].1).1
}

/// Whether any holder has cancelled before the call at `at`.
pub open spec fn was_cancelled(calls: Seq<(nat, CancellationCall)>, at: int) -> bool {
    exists|i: int| 0 <= i < at && (#[trigger] calls[i]).1 is Cancel
}

/// Cancellation of one proxy generation, which its owner guards and shares.
pub struct CancellationState {
    cancelled: bool,
}

impl CancellationState {
    pub closed spec fn cancelled_spec(self) -> bool {
        self.cancelled
    }

    pub fn new() -> (r: Self)
        ensures
            !r.cancelled_spec(),
    {
        CancellationState { cancelled: false }
    }

    /// Cancels. Returns `true` only for the first cancellation.
    pub fn cancel(&mut self) -> (r: bool)
        ensures
            (final(self).cancelled_spec(), r) == cancellation_step(
                old(self).cancelled_spec(),
                CancellationCall::Cancel,
            ),
    {
        let first = !self.cancelled;
        self.cancelled = true;
        first
    }

    pub fn is_cancelled(&self) -> (r: bool)
        ensures
            (self.cancelled_spec(), r) == cancellation_step(
                self.cancelled_spec(),
                CancellationCall::Ask,
            ),
    {
        self.cancelled
    }
}

proof fn lemma_cancelled_after(calls: Seq<(nat, CancellationCall)>)
    ensures
        cancelled_after(calls) == was_cancelled(calls, calls.len() as int),
    decreases calls.len(),
{
    if calls.len() > 0 {
        let front = calls.drop_last();
        lemma_cancelled_after(front);
        if was_cancelled(front, front.len() as int) {
            let i = choose|i: int| 0 <= i < front.len() && (#[trigger] front[i]).1 is Cancel;
            assert(calls[i].1 is Cancel);
        }
        if was_cancelled(calls, calls.len() as int) && !(calls.last().1 is Cancel) {
            let i = choose|i: int| 0 <= i < calls.len() && (#[trigger] calls[i]).1 is Cancel;
            assert(front[i].1 is Cancel);
        }
    }
}

/// All holders of a cancellation see it alike. Each is told that it is cancelled exactly
/// where some holder has cancelled before, and a cancellation returns `true` exactly
/// where it is the first.
pub proof fn cancellations_are_shared(calls: Seq<(nat, CancellationCall)>, at: int)
    requires
        0 <= at < calls.len(),
    ensures
        calls[at].1 is Ask ==> cancellation_answer(calls, at) == was_cancelled(calls, at),
        calls[at].1 is Cancel ==> cancellation_answer(calls, at) == !was_cancelled(calls, at),
{
    let before = calls.take(at);
    lemma_cancelled_after(before);
    if was_cancelled(before, at) {
        let i = choose|i: int| 0 <= i < at && (#[trigger] before[i]).1 is Cancel;
        assert(calls[i].1 is Cancel);
    }
    if was_cancelled(calls, at) {
        let i = choose|i: int| 0 <= i < at && (#[trigger] calls[i]).1 is Cancel;
        assert(before[i].1 is Cancel);
    }
}

/// Each failure is told in its own words.
pub proof fn failures_of_backends_have_their_words(e: BackendError)
    ensures
        backend_error_text(e) == (match e {
            BackendError::Cancelled => "backend operation was cancelled"@,
            BackendError::InvalidRequest => "backend rejected an invalid request"@,
            BackendError::PolicyDenied => "backend policy denied the request"@,
            BackendError::ResolutionFailed => "name resolution failed"@,
            BackendError::TlsValidationFailed => "upstream TLS validation failed"@,
            BackendError::UpstreamUnavailable => "upstream service is unavailable"@,
            BackendError::InvalidResponse => "upstream returned an invalid response"@,
            BackendError::ResponseTooLarge => "upstream response exceeds the configured limit"@,
            BackendError::UnsupportedUpgrade => "backend does not support HTTP Upgrade tunnelling"@,
            BackendError::Internal => "internal backend failure"@,
        }),
{
}

/// A body is described by its length.
pub proof fn bodies_are_not_told(a: ProxyRequestBody)
    ensures
        a.description() == "ProxyRequestBody { len: "@ + text::decimal(a@.len()) + " }"@,
{
}

} // verus!
