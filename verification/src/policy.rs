//! The plain values that the runtime, the resolution policy and the namespace
//! classifier report: what a status is made of.

use vstd::prelude::*;

verus! {

/// The runtime schema that a status can report.
pub const RUNTIME_SCHEMA_VERSION: u16 = 1;

/// How far the browser may trust its own resolution.
#[derive(Clone, Copy, Debug, PartialEq, Eq, Structural)]
pub enum AuthorityState {
    Uninitialized,
    LocalStateOpened,
    HeaderSyncing,
    HeaderCurrent,
    ProofReady,
    ResolutionTransportReady,
    DnssecVerified,
    DaneOriginVerified,
    BrowserBridgeReady,
    Active,
    Degraded,
    Revoked,
    Stopped,
}

/// One atomically read runtime tuple.
#[derive(Clone, Copy, Debug, PartialEq, Eq)]
pub struct RuntimeSnapshot {
    pub schema_version: u16,
    pub session: [u8; 16],
    pub generation: u64,
    pub event_sequence: u64,
    pub authority: AuthorityState,
}

#[derive(Clone, Copy, Debug, PartialEq, Eq, Structural)]
pub enum Network {
    Mainnet,
    Testnet,
    Regtest,
    Simnet,
}

#[derive(Clone, Copy, Debug, PartialEq, Eq, Structural)]
pub enum WireProfile {
    Disabled,
    DenuoV1,
}

#[derive(Clone, Copy, Debug, PartialEq, Eq, Structural)]
pub enum DnsRelayRequesterPolicy {
    Disabled,
    Auto,
}

#[derive(Clone, Copy, Debug, PartialEq, Eq, Structural)]
pub enum ObliviousDnsPolicy {
    Disabled,
    Preferred,
    Required,
}

/// Which HNSR roles are taken.
#[derive(Clone, Copy, Debug, PartialEq, Eq, Structural)]
pub struct HnsrPolicy {
    pub endpoint: bool,
    pub relay: bool,
}

impl HnsrPolicy {
    pub fn disabled() -> (r: Self)
        ensures
            r == (HnsrPolicy { endpoint: false, relay: false }),
    {
        HnsrPolicy { endpoint: false, relay: false }
    }

    pub fn with_endpoint(self, endpoint: bool) -> (r: Self)
        ensures
            r == (HnsrPolicy { endpoint, ..self }),
    {
        HnsrPolicy { endpoint, relay: self.relay }
    }

    pub fn endpoint_enabled(&self) -> (r: bool)
        ensures
            r == self.endpoint,
    {
        self.endpoint
    }

    pub fn relay_enabled(&self) -> (r: bool)
        ensures
            r == self.relay,
    {
        self.relay
    }
}

/// Which provider roles are taken.
#[derive(Clone, Copy, Debug, PartialEq, Eq, Structural)]
pub struct ProviderPolicy {
    pub dns_relay: bool,
    pub odoh_proxy: bool,
    pub odoh_target: bool,
    pub market_gossip: bool,
}

#[derive(Clone, Copy, Debug, PartialEq, Eq, Structural)]
pub struct PolicyConfig {
    pub dns_relay_requester: DnsRelayRequesterPolicy,
    pub oblivious_dns: ObliviousDnsPolicy,
    pub hnsr: HnsrPolicy,
    pub authenticated_authoritative_doh: bool,
    pub providers: ProviderPolicy,
    pub wire_profile: WireProfile,
    pub allow_legacy_regtest_compatibility: bool,
}

/// A policy and the generation in which it holds.
#[derive(Clone, Copy, Debug, PartialEq, Eq, Structural)]
pub struct PolicySnapshot {
    pub generation: u64,
    pub config: PolicyConfig,
}

#[derive(Clone, Copy, Debug, PartialEq, Eq)]
pub struct ChainAnchor {
    pub height: u32,
    pub tree_root: [u8; 32],
}

/// How DNS data actually travelled.
#[derive(Clone, Copy, Debug, PartialEq, Eq, Structural)]
pub enum ResolutionTransport {
    HandshakeP2pOdoh,
    HandshakeP2pDnsRelay,
    DirectAuthoritativeUdp,
    DirectAuthoritativeTcp,
    AuthenticatedAuthoritativeDoh,
    ValidatingIcannDoh,
    Unavailable,
}

#[derive(Clone, Copy, Debug, PartialEq, Eq, Structural)]
pub enum EvidenceState {
    NotAttempted,
    Verified,
    Failed,
    Unavailable,
    Unsupported,
    Stale,
    Revoked,
}

/// What was verified locally.
#[derive(Clone, Copy, Debug, PartialEq, Eq, Structural)]
pub struct ValidationEvidence {
    pub hns_proof: EvidenceState,
    pub dnssec: EvidenceState,
    pub tlsa: EvidenceState,
    pub dane: EvidenceState,
    pub chain_current: EvidenceState,
    pub origin_sni: EvidenceState,
}

impl ValidationEvidence {
    /// The same state everywhere.
    pub open spec fn all(state: EvidenceState) -> ValidationEvidence {
        ValidationEvidence {
            hns_proof: state,
            dnssec: state,
            tlsa: state,
            dane: state,
            chain_current: state,
            origin_sni: state,
        }
    }

    pub fn uniform(state: EvidenceState) -> (r: Self)
        ensures
            r == ValidationEvidence::all(state),
    {
        ValidationEvidence {
            hns_proof: state,
            dnssec: state,
            tlsa: state,
            dane: state,
            chain_current: state,
            origin_sni: state,
        }
    }

    pub fn not_attempted() -> (r: Self)
        ensures
            r == ValidationEvidence::all(EvidenceState::NotAttempted),
    {
        ValidationEvidence::uniform(EvidenceState::NotAttempted)
    }

    pub fn revoked() -> (r: Self)
        ensures
            r == ValidationEvidence::all(EvidenceState::Revoked),
    {
        ValidationEvidence::uniform(EvidenceState::Revoked)
    }

    /// Whether everything was verified.
    pub fn fully_verified(&self) -> (r: bool)
        ensures
            r == (*self == ValidationEvidence::all(EvidenceState::Verified)),
    {
        self.hns_proof == EvidenceState::Verified && self.dnssec == EvidenceState::Verified
            && self.tlsa == EvidenceState::Verified && self.dane == EvidenceState::Verified
            && self.chain_current == EvidenceState::Verified && self.origin_sni
            == EvidenceState::Verified
    }
}

#[derive(Clone, Copy, Debug, PartialEq, Eq, Structural)]
pub enum Namespace {
    Hns,
    Icann,
}

/// In which roots a name was found.
#[derive(Clone, Copy, Debug, PartialEq, Eq, Structural)]
pub enum OutcomeKind {
    HnsOnly,
    IcannOnly,
    BothConvergent,
    BothDivergent,
    Neither,
}

#[derive(Clone, Copy, Debug, PartialEq, Eq, Structural)]
pub enum RootFailureKind {
    Timeout,
    Transport,
    UnauthenticatedResolver,
    MalformedResponse,
    Unsupported,
    Cancelled,
    Internal,
    StaleEvidence,
    StaleHnsAnchor,
    BogusDnssec,
    IndeterminateDnssec,
}

#[derive(Clone, Copy, Debug, PartialEq, Eq, Structural)]
pub enum SelectionReason {
    SingleRoot,
    ExplicitPin,
    StickyBinding,
    IcannDefault,
}

#[derive(Clone, Copy, Debug, PartialEq, Eq, Structural)]
pub enum IcannDnssecStatus {
    Secure,
    InsecureDelegation,
    Bogus,
    Indeterminate,
}

/// Evidence is complete where all of it is verified, and a policy for relaying is what it is
/// set to.
pub proof fn evidence_is_complete_where_all_is_verified(
    e: &ValidationEvidence,
    complete: bool,
    p: HnsrPolicy,
    endpoint: bool,
    set: HnsrPolicy,
)
    requires
        call_ensures(ValidationEvidence::fully_verified, (e,), complete),
        call_ensures(HnsrPolicy::with_endpoint, (p, endpoint), set),
    ensures
        complete <==> e.hns_proof is Verified && e.dnssec is Verified && e.tlsa is Verified
            && e.dane is Verified && e.chain_current is Verified && e.origin_sni is Verified,
        set.endpoint == endpoint && set.relay == p.relay,
{
}

} // verus!
