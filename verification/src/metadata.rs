//! Typed delivery of trusted, sensitive response metadata.

use crate::backend;
use crate::event::{ObservedHost, ObservedMethod};
use crate::response::InternalResponseMetadata;
use crate::text;
use vstd::prelude::*;

verus! {

/// What an observation reports.
#[derive(Clone, Copy, Debug, PartialEq, Eq, Structural)]
pub enum ProxyMetadataObservationKind {
    /// A response head that the browser receives.
    OriginResponse,
    /// The decision to tunnel browser TLS for a CONNECT.
    WebPkiConnectDecision,
}

/// One observation: a response status and trusted metadata, with no field for a
/// request target, a query, a header or a body.
#[derive(Clone, PartialEq, Eq)]
pub struct ProxyResponseMetadataObservation {
    generation: u64,
    host: ObservedHost,
    method: ObservedMethod,
    status_code: u16,
    likely_main_frame: bool,
    observation_id: Option<u64>,
    kind: ProxyMetadataObservationKind,
    connect_port: Option<u16>,
    correlation_epoch: Option<u64>,
    metadata: InternalResponseMetadata,
}

#[verifier::ext_equal]
pub struct ObservationView {
    pub generation: u64,
    pub host: Seq<char>,
    pub method: ObservedMethod,
    pub status_code: u16,
    pub likely_main_frame: bool,
    pub observation_id: Option<u64>,
    pub kind: ProxyMetadataObservationKind,
    pub connect_port: Option<u16>,
    pub correlation_epoch: Option<u64>,
    pub metadata: Seq<crate::http1::HeaderView>,
}

impl View for ProxyResponseMetadataObservation {
    type V = ObservationView;

    closed spec fn view(&self) -> ObservationView {
        ObservationView {
            generation: self.generation,
            host: self.host@,
            method: self.method,
            status_code: self.status_code,
            likely_main_frame: self.likely_main_frame,
            observation_id: self.observation_id,
            kind: self.kind,
            connect_port: self.connect_port,
            correlation_epoch: self.correlation_epoch,
            metadata: self.metadata@,
        }
    }
}

impl ProxyResponseMetadataObservation {
    /// The observation of a response head.
    pub fn new(
        generation: u64,
        host: ObservedHost,
        method: ObservedMethod,
        status_code: u16,
        likely_main_frame: bool,
        observation_id: Option<u64>,
        metadata: InternalResponseMetadata,
    ) -> (r: Self)
        ensures
            r@ == (ObservationView {
                generation,
                host: host@,
                method,
                status_code,
                likely_main_frame,
                observation_id,
                kind: ProxyMetadataObservationKind::OriginResponse,
                connect_port: None,
                correlation_epoch: None,
                metadata: metadata@,
            }),
    {
        ProxyResponseMetadataObservation {
            generation,
            host,
            method,
            status_code,
            likely_main_frame,
            observation_id,
            kind: ProxyMetadataObservationKind::OriginResponse,
            connect_port: None,
            correlation_epoch: None,
            metadata,
        }
    }

    /// The observation of a CONNECT that tunnels browser TLS.
    pub fn connect_decision(
        generation: u64,
        host: ObservedHost,
        port: u16,
        observation_id: Option<u64>,
        correlation_epoch: u64,
    ) -> (r: Self)
        ensures
            r@ == (ObservationView {
                generation,
                host: host@,
                method: ObservedMethod::Connect,
                status_code: 200,
                likely_main_frame: false,
                observation_id,
                kind: ProxyMetadataObservationKind::WebPkiConnectDecision,
                connect_port: Some(port),
                correlation_epoch: Some(correlation_epoch),
                metadata: Seq::empty(),
            }),
    {
        let metadata = InternalResponseMetadata::none();
        assert(metadata@ == Seq::<crate::http1::HeaderView>::empty());
        ProxyResponseMetadataObservation {
            generation,
            host,
            method: ObservedMethod::Connect,
            status_code: 200,
            likely_main_frame: false,
            observation_id,
            kind: ProxyMetadataObservationKind::WebPkiConnectDecision,
            connect_port: Some(port),
            correlation_epoch: Some(correlation_epoch),
            metadata,
        }
    }

    pub fn generation(&self) -> (r: u64)
        ensures
            r == self@.generation,
    {
        self.generation
    }

    pub fn host(&self) -> (r: &ObservedHost)
        ensures
            r@ == self@.host,
    {
        &self.host
    }

    pub fn method(&self) -> (r: ObservedMethod)
        ensures
            r == self@.method,
    {
        self.method
    }

    pub fn status_code(&self) -> (r: u16)
        ensures
            r == self@.status_code,
    {
        self.status_code
    }

    /// Whether the request looked like the navigation of a main frame.
    pub fn is_likely_main_frame(&self) -> (r: bool)
        ensures
            r == self@.likely_main_frame,
    {
        self.likely_main_frame
    }

    /// Opaque backend-local correlation; never written to a client.
    pub fn observation_id(&self) -> (r: Option<u64>)
        ensures
            r == self@.observation_id,
    {
        self.observation_id
    }

    pub fn kind(&self) -> (r: ProxyMetadataObservationKind)
        ensures
            r == self@.kind,
    {
        self.kind
    }

    pub fn connect_port(&self) -> (r: Option<u16>)
        ensures
            r == self@.connect_port,
    {
        self.connect_port
    }

    pub fn correlation_epoch(&self) -> (r: Option<u64>)
        ensures
            r == self@.correlation_epoch,
    {
        self.correlation_epoch
    }

    pub fn metadata(&self) -> (r: &InternalResponseMetadata)
        ensures
            r@ == self@.metadata,
    {
        &self.metadata
    }

    /// A diagnostic description that withholds metadata values.
    pub fn describe(&self) -> (r: String)
        ensures
            r@ == "ProxyResponseMetadataObservation { generation: "@ + text::decimal(
                self@.generation as nat,
            ) + ", host: ObservedHost(\""@ + self@.host + "\"), method: "@ + self@.method.text()
                + ", status_code: "@ + text::decimal(self@.status_code as nat)
                + ", likely_main_frame: "@ + backend::bool_text(self@.likely_main_frame)
                + ", observation_id_present: "@ + backend::bool_text(
                self@.observation_id is Some,
            ) + ", metadata: "@ + InternalResponseMetadata::description(self@.metadata.len())
                + " }"@,
    {
        let mut v = text::to_chars("ProxyResponseMetadataObservation { generation: ");
        let d = text::digits_of(self.generation, 10);
        text::push_chars(&mut v, d.as_slice());
        text::push_str(&mut v, ", host: ObservedHost(\"");
        text::push_str(&mut v, self.host.as_str());
        text::push_str(&mut v, "\"), method: ");
        text::push_str(&mut v, self.method.as_str());
        text::push_str(&mut v, ", status_code: ");
        let d = text::digits_of(self.status_code as u64, 10);
        text::push_chars(&mut v, d.as_slice());
        text::push_str(&mut v, ", likely_main_frame: ");
        backend::push_bool(&mut v, self.likely_main_frame);
        text::push_str(&mut v, ", observation_id_present: ");
        backend::push_bool(&mut v, self.observation_id.is_some());
        text::push_str(&mut v, ", metadata: ");
        let m = self.metadata.describe();
        text::push_str(&mut v, m.as_str());
        text::push_str(&mut v, " }");
        text::from_chars(v.as_slice())
    }
}

/// Receives observations. Implementations must return promptly and retain them
/// only as narrowly as needed.
pub trait ProxyResponseMetadataObserver {
    fn observe(&self, observation: &ProxyResponseMetadataObservation);
}

#[derive(Clone, Copy, Debug)]
pub struct NoopProxyResponseMetadataObserver;

impl ProxyResponseMetadataObserver for NoopProxyResponseMetadataObserver {
    fn observe(&self, _observation: &ProxyResponseMetadataObservation) {
    }
}

/// What is observed of a response, and of the decision to tunnel, is what was seen, and each
/// is told as what it is.
pub proof fn observations_hold_what_was_seen(
    generation: u64,
    host: ObservedHost,
    port: u16,
    observation_id: Option<u64>,
    epoch: u64,
    r: ProxyResponseMetadataObservation,
)
    requires
        call_ensures(
            ProxyResponseMetadataObservation::connect_decision,
            (generation, host, port, observation_id, epoch),
            r,
        ),
    ensures
        r@.generation == generation && r@.host == host@,
        r@.method is Connect && r@.status_code == 200 && !r@.likely_main_frame,
        r@.kind is WebPkiConnectDecision,
        r@.observation_id == observation_id && r@.connect_port == Some(port),
        r@.correlation_epoch == Some(epoch),
        r@.metadata.len() == 0,
{
}

} // verus!
