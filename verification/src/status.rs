//! The checked status of a browser: transport apart from evidence, and neither
//! names nor secrets.

use crate::policy::{
    AuthorityState, ChainAnchor, EvidenceState, HnsrPolicy, IcannDnssecStatus, Namespace, Network,
    OutcomeKind, PolicySnapshot, ProviderPolicy, ResolutionTransport, RootFailureKind,
    RuntimeSnapshot, SelectionReason, ValidationEvidence, WireProfile, RUNTIME_SCHEMA_VERSION,
};
use crate::text;
use vstd::prelude::*;

verus! {

pub const STATUS_SCHEMA_VERSION: u16 = 2;

/// The most bytes in a reported identity.
pub const MAX_IDENTITY_BYTES: usize = 256;

/// The most unsupported-evidence entries in one status.
pub const MAX_UNSUPPORTED_EVIDENCE: usize = 64;

// ---------------------------------------------------------------------
// Provider roles
// ---------------------------------------------------------------------

/// The state of a provider role.
#[derive(Clone, Copy, Debug, PartialEq, Eq, Structural)]
pub enum ReadinessState {
    /// Policy does not take the role.
    Disabled,
    /// The role cannot accept work yet.
    Starting,
    Ready,
    RateLimited,
    /// A dependency is missing for now.
    Degraded,
    /// A transition took the role away.
    Revoked,
}

impl ReadinessState {
    pub open spec fn code_spec(self) -> u8 {
        match self {
            ReadinessState::Disabled => 0,
            ReadinessState::Starting => 1,
            ReadinessState::Ready => 2,
            ReadinessState::RateLimited => 3,
            ReadinessState::Degraded => 4,
            ReadinessState::Revoked => 5,
        }
    }

    /// The stable number of the state.
    pub fn code(self) -> (r: u8)
        ensures
            r == self.code_spec(),
    {
        match self {
            ReadinessState::Disabled => 0,
            ReadinessState::Starting => 1,
            ReadinessState::Ready => 2,
            ReadinessState::RateLimited => 3,
            ReadinessState::Degraded => 4,
            ReadinessState::Revoked => 5,
        }
    }
}

impl Default for ReadinessState {
    fn default() -> (r: Self)
        ensures
            r == ReadinessState::Disabled,
    {
        ReadinessState::Disabled
    }
}

/// The readiness of every provider role.
#[derive(Clone, Copy, Debug, PartialEq, Eq, Structural)]
pub struct ProviderReadiness {
    pub dns_relay: ReadinessState,
    pub odoh_proxy: ReadinessState,
    pub odoh_target: ReadinessState,
    pub hnsr_endpoint: ReadinessState,
    pub hnsr_relay: ReadinessState,
    pub market_gossip: ReadinessState,
}

impl Default for ProviderReadiness {
    fn default() -> (r: Self)
        ensures
            r == (ProviderReadiness {
                dns_relay: ReadinessState::Disabled,
                odoh_proxy: ReadinessState::Disabled,
                odoh_target: ReadinessState::Disabled,
                hnsr_endpoint: ReadinessState::Disabled,
                hnsr_relay: ReadinessState::Disabled,
                market_gossip: ReadinessState::Disabled,
            }),
    {
        ProviderReadiness {
            dns_relay: ReadinessState::Disabled,
            odoh_proxy: ReadinessState::Disabled,
            odoh_target: ReadinessState::Disabled,
            hnsr_endpoint: ReadinessState::Disabled,
            hnsr_relay: ReadinessState::Disabled,
            market_gossip: ReadinessState::Disabled,
        }
    }
}

pub open spec fn initial(enabled: bool) -> ReadinessState {
    if enabled {
        ReadinessState::Starting
    } else {
        ReadinessState::Disabled
    }
}

fn initial_readiness(enabled: bool) -> (r: ReadinessState)
    ensures
        r == initial(enabled),
{
    if enabled {
        ReadinessState::Starting
    } else {
        ReadinessState::Disabled
    }
}

pub open spec fn initial_readiness_of(policy: PolicySnapshot) -> ProviderReadiness {
    ProviderReadiness {
        dns_relay: initial(policy.config.providers.dns_relay),
        odoh_proxy: initial(policy.config.providers.odoh_proxy),
        odoh_target: initial(policy.config.providers.odoh_target),
        hnsr_endpoint: initial(policy.config.hnsr.endpoint),
        hnsr_relay: initial(policy.config.hnsr.relay),
        market_gossip: initial(policy.config.providers.market_gossip),
    }
}

impl ProviderReadiness {
    /// The readiness with which a policy begins: its roles start, the others are
    /// disabled.
    pub fn from_policy(policy: PolicySnapshot) -> (r: Self)
        ensures
            r == initial_readiness_of(policy),
    {
        let config = policy.config;
        ProviderReadiness {
            dns_relay: initial_readiness(config.providers.dns_relay),
            odoh_proxy: initial_readiness(config.providers.odoh_proxy),
            odoh_target: initial_readiness(config.providers.odoh_target),
            hnsr_endpoint: initial_readiness(config.hnsr.endpoint_enabled()),
            hnsr_relay: initial_readiness(config.hnsr.relay_enabled()),
            market_gossip: initial_readiness(config.providers.market_gossip),
        }
    }
}

/// A role that policy takes is not disabled; one that it does not take is
/// disabled or revoked.
pub open spec fn role_is_consistent(enabled: bool, state: ReadinessState) -> bool {
    if enabled {
        state != ReadinessState::Disabled
    } else {
        state == ReadinessState::Disabled || state == ReadinessState::Revoked
    }
}

pub open spec fn readiness_is_consistent(
    roles: ProviderPolicy,
    hnsr: HnsrPolicy,
    readiness: ProviderReadiness,
) -> bool {
    &&& role_is_consistent(roles.dns_relay, readiness.dns_relay)
    &&& role_is_consistent(roles.odoh_proxy, readiness.odoh_proxy)
    &&& role_is_consistent(roles.odoh_target, readiness.odoh_target)
    &&& role_is_consistent(hnsr.endpoint, readiness.hnsr_endpoint)
    &&& role_is_consistent(hnsr.relay, readiness.hnsr_relay)
    &&& role_is_consistent(roles.market_gossip, readiness.market_gossip)
}

fn consistent_role(enabled: bool, state: ReadinessState) -> (r: bool)
    ensures
        r == role_is_consistent(enabled, state),
{
    match state {
        ReadinessState::Disabled => !enabled,
        ReadinessState::Revoked => true,
        _ => enabled,
    }
}

fn validate_provider_readiness(
    roles: ProviderPolicy,
    hnsr: HnsrPolicy,
    readiness: ProviderReadiness,
) -> (r: Result<(), StatusError>)
    ensures
        r == (if readiness_is_consistent(roles, hnsr, readiness) {
            Ok::<(), StatusError>(())
        } else {
            Err(StatusError::InvalidProviderReadiness)
        }),
{
    if consistent_role(roles.dns_relay, readiness.dns_relay) && consistent_role(
        roles.odoh_proxy,
        readiness.odoh_proxy,
    ) && consistent_role(roles.odoh_target, readiness.odoh_target) && consistent_role(
        hnsr.endpoint_enabled(),
        readiness.hnsr_endpoint,
    ) && consistent_role(hnsr.relay_enabled(), readiness.hnsr_relay) && consistent_role(
        roles.market_gossip,
        readiness.market_gossip,
    ) {
        Ok(())
    } else {
        Err(StatusError::InvalidProviderReadiness)
    }
}

/// The readiness with which a policy begins is consistent with it.
pub proof fn initial_readiness_is_consistent(policy: PolicySnapshot)
    ensures
        readiness_is_consistent(
            policy.config.providers,
            policy.config.hnsr,
            initial_readiness_of(policy),
        ),
{
}

// ---------------------------------------------------------------------
// Rate limits
// ---------------------------------------------------------------------

/// Aggregate rate limits, without names.
#[derive(Clone, Copy, Debug, PartialEq, Eq, Structural)]
pub struct RateLimitState {
    pub in_flight: u32,
    pub max_concurrency: u32,
    pub window_requests: u64,
    pub window_limit: u64,
    pub rejected_total: u64,
    pub limited: bool,
}

impl Default for RateLimitState {
    fn default() -> (r: Self)
        ensures
            r == (RateLimitState {
                in_flight: 0,
                max_concurrency: 0,
                window_requests: 0,
                window_limit: 0,
                rejected_total: 0,
                limited: false,
            }),
    {
        RateLimitState {
            in_flight: 0,
            max_concurrency: 0,
            window_requests: 0,
            window_limit: 0,
            rejected_total: 0,
            limited: false,
        }
    }
}

impl RateLimitState {
    /// No limits at all and nothing counted, or counters within both limits and
    /// limited exactly when one of them is reached.
    pub open spec fn is_consistent(self) -> bool {
        if self.max_concurrency == 0 && self.window_limit == 0 {
            self.in_flight == 0 && self.window_requests == 0 && !self.limited
        } else {
            &&& self.max_concurrency > 0
            &&& self.window_limit > 0
            &&& self.in_flight <= self.max_concurrency
            &&& self.window_requests <= self.window_limit
            &&& self.limited == (self.in_flight == self.max_concurrency || self.window_requests
                == self.window_limit)
        }
    }

    fn validate(self) -> (r: Result<(), StatusError>)
        ensures
            r == (if self.is_consistent() {
                Ok::<(), StatusError>(())
            } else {
                Err(StatusError::InvalidRateLimit)
            }),
    {
        if (self.max_concurrency == 0) != (self.window_limit == 0) {
            return Err(StatusError::InvalidRateLimit);
        }
        if self.max_concurrency == 0 {
            if self.in_flight != 0 || self.window_requests != 0 || self.limited {
                return Err(StatusError::InvalidRateLimit);
            }
            return Ok(());
        }
        if self.in_flight > self.max_concurrency || self.window_requests > self.window_limit {
            return Err(StatusError::InvalidRateLimit);
        }
        let saturated = self.in_flight == self.max_concurrency || self.window_requests
            == self.window_limit;
        if self.limited != saturated {
            return Err(StatusError::InvalidRateLimit);
        }
        Ok(())
    }
}

// ---------------------------------------------------------------------
// Reasons and evidence
// ---------------------------------------------------------------------

/// Why the browser is degraded.
#[derive(Clone, Copy, Debug, PartialEq, Eq, Structural)]
pub enum DegradedReason {
    HeadersStale,
    HeaderSyncUnavailable,
    ProofUnavailable,
    ResolutionTransportUnavailable,
    DnssecFailure,
    TlsaFailure,
    DaneFailure,
    BrowserBridgeUnavailable,
    ProviderUnavailable,
}

impl DegradedReason {
    pub open spec fn code_spec(self) -> u16 {
        match self {
            DegradedReason::HeadersStale => 1,
            DegradedReason::HeaderSyncUnavailable => 2,
            DegradedReason::ProofUnavailable => 3,
            DegradedReason::ResolutionTransportUnavailable => 4,
            DegradedReason::DnssecFailure => 5,
            DegradedReason::TlsaFailure => 6,
            DegradedReason::DaneFailure => 7,
            DegradedReason::BrowserBridgeUnavailable => 8,
            DegradedReason::ProviderUnavailable => 9,
        }
    }

    /// The stable number of the reason.
    pub fn code(self) -> (r: u16)
        ensures
            r == self.code_spec(),
    {
        match self {
            DegradedReason::HeadersStale => 1,
            DegradedReason::HeaderSyncUnavailable => 2,
            DegradedReason::ProofUnavailable => 3,
            DegradedReason::ResolutionTransportUnavailable => 4,
            DegradedReason::DnssecFailure => 5,
            DegradedReason::TlsaFailure => 6,
            DegradedReason::DaneFailure => 7,
            DegradedReason::BrowserBridgeUnavailable => 8,
            DegradedReason::ProviderUnavailable => 9,
        }
    }
}

/// Why authority was revoked.
#[derive(Clone, Copy, Debug, PartialEq, Eq, Structural)]
pub enum RevocationReason {
    PolicyChanged,
    RuntimeChanged,
    NetworkChanged,
    RegistryChanged,
    ProviderDisabled,
    Stopped,
}

impl RevocationReason {
    pub open spec fn code_spec(self) -> u16 {
        match self {
            RevocationReason::PolicyChanged => 1,
            RevocationReason::RuntimeChanged => 2,
            RevocationReason::NetworkChanged => 3,
            RevocationReason::RegistryChanged => 4,
            RevocationReason::ProviderDisabled => 5,
            RevocationReason::Stopped => 6,
        }
    }

    /// The stable number of the reason.
    pub fn code(self) -> (r: u16)
        ensures
            r == self.code_spec(),
    {
        match self {
            RevocationReason::PolicyChanged => 1,
            RevocationReason::RuntimeChanged => 2,
            RevocationReason::NetworkChanged => 3,
            RevocationReason::RegistryChanged => 4,
            RevocationReason::ProviderDisabled => 5,
            RevocationReason::Stopped => 6,
        }
    }
}

/// A kind of evidence that could not be evaluated.
#[derive(Clone, Copy, Debug, PartialEq, Eq, Structural)]
pub enum EvidenceKind {
    HnsProof,
    ChainCurrency,
    Dnssec,
    Tlsa,
    Dane,
    OriginSni,
    TransportProtocol,
}

impl EvidenceKind {
    pub open spec fn code_spec(self) -> u8 {
        match self {
            EvidenceKind::HnsProof => 0,
            EvidenceKind::ChainCurrency => 1,
            EvidenceKind::Dnssec => 2,
            EvidenceKind::Tlsa => 3,
            EvidenceKind::Dane => 4,
            EvidenceKind::OriginSni => 5,
            EvidenceKind::TransportProtocol => 6,
        }
    }

    /// The stable number of the kind.
    pub fn code(self) -> (r: u8)
        ensures
            r == self.code_spec(),
    {
        match self {
            EvidenceKind::HnsProof => 0,
            EvidenceKind::ChainCurrency => 1,
            EvidenceKind::Dnssec => 2,
            EvidenceKind::Tlsa => 3,
            EvidenceKind::Dane => 4,
            EvidenceKind::OriginSni => 5,
            EvidenceKind::TransportProtocol => 6,
        }
    }
}

/// One piece of evidence that could not be evaluated.
#[derive(Clone, Copy, Debug, PartialEq, Eq, Structural)]
pub struct UnsupportedEvidence {
    pub kind: EvidenceKind,
    /// An algorithm, selector, usage, version or local reason.
    pub code: u16,
}

/// What the browser does with an ICANN origin's TLS.
#[derive(Clone, Copy, Debug, PartialEq, Eq, Structural)]
pub enum IcannTlsAction {
    /// Secure TLSA data is there: DANE decides.
    EnforceDane,
    /// Its absence is authenticated: WebPKI decides.
    WebPkiAuthenticatedAbsence,
    /// The delegation is provably insecure: WebPKI decides.
    WebPkiInsecureDelegation,
    FailClosed,
}

impl IcannTlsAction {
    pub open spec fn code_spec(self) -> u8 {
        match self {
            IcannTlsAction::EnforceDane => 1,
            IcannTlsAction::WebPkiAuthenticatedAbsence => 2,
            IcannTlsAction::WebPkiInsecureDelegation => 3,
            IcannTlsAction::FailClosed => 4,
        }
    }

    /// The stable number of the action.
    pub fn code(self) -> (r: u8)
        ensures
            r == self.code_spec(),
    {
        match self {
            IcannTlsAction::EnforceDane => 1,
            IcannTlsAction::WebPkiAuthenticatedAbsence => 2,
            IcannTlsAction::WebPkiInsecureDelegation => 3,
            IcannTlsAction::FailClosed => 4,
        }
    }
}

/// What is wrong with a status.
#[derive(Clone, Copy, Debug, PartialEq, Eq, Structural)]
#[non_exhaustive]
pub enum StatusError {
    InvalidGeneration,
    InvalidIdentity,
    MissingIdentity,
    InvalidTransportContext,
    InvalidProviderReadiness,
    InvalidRateLimit,
    UnsupportedEvidenceLimit,
    MissingChainAnchor,
    VerifiedWithoutTransport,
    MissingProtocolIdentity,
    UnexpectedProtocolIdentity,
    ConflictingFailureReasons,
    MissingFailureReason,
    FailureReasonMismatch,
    InvalidNamespaceContext,
    InvalidDecisionFingerprint,
    InvalidIcannTlsContext,
}

pub open spec fn status_error_text(e: StatusError) -> Seq<char> {
    match e {
        StatusError::InvalidGeneration => "invalid status generation"@,
        StatusError::InvalidIdentity => "invalid transport identity"@,
        StatusError::MissingIdentity => "missing transport identity"@,
        StatusError::InvalidTransportContext => "invalid actual-transport context"@,
        StatusError::InvalidProviderReadiness
            => "provider readiness conflicts with provider roles"@,
        StatusError::InvalidRateLimit => "invalid rate-limit state"@,
        StatusError::UnsupportedEvidenceLimit => "unsupported-evidence detail bound exceeded"@,
        StatusError::MissingChainAnchor => "verified HNS evidence has no chain anchor"@,
        StatusError::VerifiedWithoutTransport => "verified result has no actual transport"@,
        StatusError::MissingProtocolIdentity
            => "experimental P2P transport has no protocol identity"@,
        StatusError::UnexpectedProtocolIdentity
            => "non-P2P transport carries experimental protocol identity"@,
        StatusError::ConflictingFailureReasons => "status is both degraded and revoked"@,
        StatusError::MissingFailureReason => "authority state requires a failure reason"@,
        StatusError::FailureReasonMismatch => "failure reason conflicts with authority state"@,
        StatusError::InvalidNamespaceContext => "invalid name-free namespace decision context"@,
        StatusError::InvalidDecisionFingerprint => "invalid namespace decision fingerprint"@,
        StatusError::InvalidIcannTlsContext
            => "ICANN TLS action conflicts with validation evidence"@,
    }
}

impl StatusError {
    pub fn message(&self) -> (r: &'static str)
        ensures
            r@ == status_error_text(*self),
    {
        match self {
            StatusError::InvalidGeneration => "invalid status generation",
            StatusError::InvalidIdentity => "invalid transport identity",
            StatusError::MissingIdentity => "missing transport identity",
            StatusError::InvalidTransportContext => "invalid actual-transport context",
            StatusError::InvalidProviderReadiness =>
                "provider readiness conflicts with provider roles",
            StatusError::InvalidRateLimit => "invalid rate-limit state",
            StatusError::UnsupportedEvidenceLimit => "unsupported-evidence detail bound exceeded",
            StatusError::MissingChainAnchor => "verified HNS evidence has no chain anchor",
            StatusError::VerifiedWithoutTransport => "verified result has no actual transport",
            StatusError::MissingProtocolIdentity =>
                "experimental P2P transport has no protocol identity",
            StatusError::UnexpectedProtocolIdentity =>
                "non-P2P transport carries experimental protocol identity",
            StatusError::ConflictingFailureReasons => "status is both degraded and revoked",
            StatusError::MissingFailureReason => "authority state requires a failure reason",
            StatusError::FailureReasonMismatch => "failure reason conflicts with authority state",
            StatusError::InvalidNamespaceContext => "invalid name-free namespace decision context",
            StatusError::InvalidDecisionFingerprint => "invalid namespace decision fingerprint",
            StatusError::InvalidIcannTlsContext =>
                "ICANN TLS action conflicts with validation evidence",
        }
    }
}

// ---------------------------------------------------------------------
// Identities
// ---------------------------------------------------------------------

/// Who carried DNS data.
#[derive(Clone, Debug, PartialEq, Eq)]
pub struct TransportIdentities {
    pub peer: Option<String>,
    pub proxy: Option<String>,
    pub target: Option<String>,
    pub direct_relay_fallback: bool,
}

impl Default for TransportIdentities {
    fn default() -> (r: Self)
        ensures
            r.peer is None && r.proxy is None && r.target is None && !r.direct_relay_fallback,
    {
        TransportIdentities { peer: None, proxy: None, target: None, direct_relay_fallback: false }
    }
}

/// An identity is neither empty nor too long.
pub open spec fn is_identity(identity: Option<String>) -> bool {
    identity matches Some(s) ==> 0 < vstd::utf8::encode_utf8(s@).len() <= MAX_IDENTITY_BYTES
}

pub open spec fn identities_error(
    transport: ResolutionTransport,
    i: TransportIdentities,
) -> Option<StatusError> {
    if !is_identity(i.peer) || !is_identity(i.proxy) || !is_identity(i.target) {
        Some(StatusError::InvalidIdentity)
    } else if transport == ResolutionTransport::HandshakeP2pOdoh {
        if i.proxy is None || i.target is None {
            Some(StatusError::MissingIdentity)
        } else if i.proxy->0@ == i.target->0@ || i.peer is Some || i.direct_relay_fallback {
            Some(StatusError::InvalidTransportContext)
        } else {
            None
        }
    } else if transport == ResolutionTransport::HandshakeP2pDnsRelay {
        if i.peer is None || i.proxy is Some || i.target is Some {
            Some(StatusError::InvalidTransportContext)
        } else {
            None
        }
    } else if i.peer is Some || i.proxy is Some || i.target is Some || i.direct_relay_fallback {
        Some(StatusError::InvalidTransportContext)
    } else {
        None
    }
}

fn valid_identity(identity: &Option<String>) -> (r: bool)
    ensures
        r == is_identity(*identity),
{
    match identity {
        None => true,
        Some(s) => {
            let n: usize = s.as_str().as_bytes().len();
            0 < n && n <= MAX_IDENTITY_BYTES
        },
    }
}

fn validate_identities(transport: ResolutionTransport, i: &TransportIdentities) -> (r: Option<
    StatusError,
>)
    ensures
        r == identities_error(transport, *i),
{
    if !valid_identity(&i.peer) || !valid_identity(&i.proxy) || !valid_identity(&i.target) {
        return Some(StatusError::InvalidIdentity);
    }
    match transport {
        ResolutionTransport::HandshakeP2pOdoh => match (&i.proxy, &i.target) {
            (Some(proxy), Some(target)) => {
                if text::same_text(proxy.as_str(), target.as_str()) || i.peer.is_some()
                    || i.direct_relay_fallback {
                    Some(StatusError::InvalidTransportContext)
                } else {
                    None
                }
            },
            _ => Some(StatusError::MissingIdentity),
        },
        ResolutionTransport::HandshakeP2pDnsRelay => if i.peer.is_none() || i.proxy.is_some()
            || i.target.is_some() {
            Some(StatusError::InvalidTransportContext)
        } else {
            None
        },
        _ => if i.peer.is_some() || i.proxy.is_some() || i.target.is_some()
            || i.direct_relay_fallback {
            Some(StatusError::InvalidTransportContext)
        } else {
            None
        },
    }
}

// ---------------------------------------------------------------------
// Failure reasons
// ---------------------------------------------------------------------

/// Which failure reasons an authority state goes with.
pub open spec fn failure_reasons_error(
    authority: AuthorityState,
    degraded: Option<DegradedReason>,
    revoked: Option<RevocationReason>,
) -> Option<StatusError> {
    if degraded is Some && revoked is Some {
        Some(StatusError::ConflictingFailureReasons)
    } else {
        match authority {
            AuthorityState::Degraded => if degraded is None {
                Some(StatusError::MissingFailureReason)
            } else {
                None
            },
            AuthorityState::Revoked => if revoked is None {
                Some(StatusError::MissingFailureReason)
            } else if revoked == Some(RevocationReason::Stopped) {
                Some(StatusError::FailureReasonMismatch)
            } else {
                None
            },
            AuthorityState::Stopped => if revoked is None {
                Some(StatusError::MissingFailureReason)
            } else if revoked != Some(RevocationReason::Stopped) {
                Some(StatusError::FailureReasonMismatch)
            } else {
                None
            },
            _ => if degraded is Some || revoked is Some {
                Some(StatusError::FailureReasonMismatch)
            } else {
                None
            },
        }
    }
}

pub fn validate_failure_reasons(
    authority: AuthorityState,
    degraded: Option<DegradedReason>,
    revoked: Option<RevocationReason>,
) -> (r: Result<(), StatusError>)
    ensures
        match r {
            Ok(()) => failure_reasons_error(authority, degraded, revoked) is None,
            Err(e) => failure_reasons_error(authority, degraded, revoked) == Some(e),
        },
{
    if degraded.is_some() && revoked.is_some() {
        return Err(StatusError::ConflictingFailureReasons);
    }
    match authority {
        AuthorityState::Degraded => {
            if degraded.is_none() {
                return Err(StatusError::MissingFailureReason);
            }
        },
        AuthorityState::Revoked => match revoked {
            None => {
                return Err(StatusError::MissingFailureReason);
            },
            Some(RevocationReason::Stopped) => {
                return Err(StatusError::FailureReasonMismatch);
            },
            Some(_) => {},
        },
        AuthorityState::Stopped => match revoked {
            None => {
                return Err(StatusError::MissingFailureReason);
            },
            Some(RevocationReason::Stopped) => {},
            Some(_) => {
                return Err(StatusError::FailureReasonMismatch);
            },
        },
        _ => {
            if degraded.is_some() || revoked.is_some() {
                return Err(StatusError::FailureReasonMismatch);
            }
        },
    }
    Ok(())
}

/// A status is accepted as failed with a reason of the right kind, and as working
/// without one.
pub proof fn failure_reasons_follow_authority(
    authority: AuthorityState,
    degraded: Option<DegradedReason>,
    revoked: Option<RevocationReason>,
)
    ensures
        failure_reasons_error(authority, degraded, revoked) is None <==> (match authority {
            AuthorityState::Degraded => degraded is Some && revoked is None,
            AuthorityState::Revoked => degraded is None && revoked is Some && revoked->0
                != RevocationReason::Stopped,
            AuthorityState::Stopped => degraded is None && revoked == Some(
                RevocationReason::Stopped,
            ),
            _ => degraded is None && revoked is None,
        }),
{
}

// ---------------------------------------------------------------------
// Namespaces
// ---------------------------------------------------------------------

/// Which root may be selected for an outcome, and why.
pub open spec fn selection_is_valid(
    outcome: Option<OutcomeKind>,
    selected: Option<Namespace>,
    reason: Option<SelectionReason>,
) -> bool {
    match outcome {
        None | Some(OutcomeKind::Neither) => selected is None && reason is None,
        Some(OutcomeKind::HnsOnly) => selected == Some(Namespace::Hns) && reason is Some
            && reason->0 != SelectionReason::IcannDefault,
        Some(OutcomeKind::IcannOnly) => selected == Some(Namespace::Icann) && reason is Some
            && reason->0 != SelectionReason::IcannDefault,
        Some(OutcomeKind::BothConvergent) | Some(OutcomeKind::BothDivergent) => {
            &&& selected is Some
            &&& reason is Some
            &&& reason->0 != SelectionReason::SingleRoot
            &&& reason->0 == SelectionReason::IcannDefault ==> selected->0 == Namespace::Icann
        },
    }
}

pub fn valid_namespace_selection(
    outcome: Option<OutcomeKind>,
    selected: Option<Namespace>,
    reason: Option<SelectionReason>,
) -> (r: bool)
    ensures
        r == selection_is_valid(outcome, selected, reason),
{
    match (outcome, selected, reason) {
        (None, None, None) => true,
        (Some(OutcomeKind::Neither), None, None) => true,
        (Some(OutcomeKind::HnsOnly), Some(Namespace::Hns), Some(reason)) => match reason {
            SelectionReason::IcannDefault => false,
            _ => true,
        },
        (Some(OutcomeKind::IcannOnly), Some(Namespace::Icann), Some(reason)) => match reason {
            SelectionReason::IcannDefault => false,
            _ => true,
        },
        (Some(OutcomeKind::BothConvergent), Some(selected), Some(reason))
        | (Some(OutcomeKind::BothDivergent), Some(selected), Some(reason)) => match reason {
            SelectionReason::SingleRoot => false,
            SelectionReason::IcannDefault => match selected {
                Namespace::Icann => true,
                Namespace::Hns => false,
            },
            _ => true,
        },
        _ => false,
    }
}

pub open spec fn all_zero(bytes: Seq<u8>) -> bool {
    forall|i: int| 0 <= i < bytes.len() ==> #[trigger] bytes[i] == 0
}

fn is_zero(bytes: &[u8; 32]) -> (r: bool)
    ensures
        r == all_zero(bytes@),
{
    let mut i: usize = 0;
    while i < 32
        invariant
            i <= 32,
            forall|j: int| 0 <= j < i ==> #[trigger] bytes@[j] == 0,
        decreases 32 - i,
    {
        if bytes[i] != 0 {
            return false;
        }
        i += 1;
    }
    true
}

/// Outcome, selection, reason, fingerprint and transport fit together.
pub open spec fn decision_error(input: StatusInput) -> Option<StatusError> {
    let selected = input.selected_namespace;
    let reason = input.selection_reason;
    let fingerprint = input.decision_fingerprint;
    if fingerprint is Some && all_zero(fingerprint->0@) {
        Some(StatusError::InvalidDecisionFingerprint)
    } else if input.namespace_outcome is Some && (input.hns_root_failure is Some
        || input.icann_root_failure is Some) {
        Some(StatusError::InvalidNamespaceContext)
    } else if (input.namespace_outcome is Some) != (fingerprint is Some) {
        Some(StatusError::InvalidNamespaceContext)
    } else if input.namespace_outcome == Some(OutcomeKind::Neither) && input.actual_transport
        != ResolutionTransport::Unavailable {
        Some(StatusError::InvalidNamespaceContext)
    } else if !selection_is_valid(input.namespace_outcome, selected, reason) {
        Some(StatusError::InvalidNamespaceContext)
    } else {
        None
    }
}

/// The ICANN resolver is the transport exactly where ICANN was selected or its
/// root failed, and only there is there something to say of ICANN TLS.
pub open spec fn provenance_error(input: StatusInput) -> Option<StatusError> {
    let selected_icann = input.selected_namespace == Some(Namespace::Icann);
    let failed_icann = input.icann_root_failure is Some;
    let failed_hns_only = input.hns_root_failure is Some && !failed_icann;
    let used_icann_doh = input.actual_transport == ResolutionTransport::ValidatingIcannDoh;
    if (selected_icann || failed_icann) && !used_icann_doh {
        Some(StatusError::InvalidIcannTlsContext)
    } else if failed_hns_only && input.actual_transport != ResolutionTransport::Unavailable {
        Some(StatusError::InvalidNamespaceContext)
    } else if used_icann_doh && !selected_icann && !failed_icann {
        Some(StatusError::InvalidIcannTlsContext)
    } else if !selected_icann && !failed_icann && (input.icann_tls_action is Some
        || input.icann_dnssec_status is Some) {
        Some(StatusError::InvalidIcannTlsContext)
    } else if failed_icann && input.icann_tls_action != Some(IcannTlsAction::FailClosed) {
        Some(StatusError::InvalidIcannTlsContext)
    } else {
        None
    }
}

pub open spec fn namespace_error(input: StatusInput) -> Option<StatusError> {
    match decision_error(input) {
        Some(e) => Some(e),
        None => provenance_error(input),
    }
}

fn validate_decision(input: &StatusInput) -> (r: Option<StatusError>)
    ensures
        r == decision_error(*input),
{
    match &input.decision_fingerprint {
        Some(f) => {
            if is_zero(f) {
                return Some(StatusError::InvalidDecisionFingerprint);
            }
        },
        None => {},
    }
    if input.namespace_outcome.is_some() && (input.hns_root_failure.is_some()
        || input.icann_root_failure.is_some()) {
        return Some(StatusError::InvalidNamespaceContext);
    }
    match input.namespace_outcome {
        None => {
            if input.selected_namespace.is_some() || input.selection_reason.is_some()
                || input.decision_fingerprint.is_some() {
                return Some(StatusError::InvalidNamespaceContext);
            }
        },
        Some(OutcomeKind::Neither) => {
            if input.selected_namespace.is_some() || input.selection_reason.is_some()
                || input.decision_fingerprint.is_none() || input.actual_transport
                != ResolutionTransport::Unavailable {
                return Some(StatusError::InvalidNamespaceContext);
            }
        },
        Some(_) => {
            if input.selected_namespace.is_none() || input.selection_reason.is_none()
                || input.decision_fingerprint.is_none() {
                return Some(StatusError::InvalidNamespaceContext);
            }
        },
    }
    if !valid_namespace_selection(
        input.namespace_outcome,
        input.selected_namespace,
        input.selection_reason,
    ) {
        return Some(StatusError::InvalidNamespaceContext);
    }
    None
}

fn selects_icann(selected: Option<Namespace>) -> (r: bool)
    ensures
        r == (selected == Some(Namespace::Icann)),
{
    match selected {
        Some(Namespace::Icann) => true,
        _ => false,
    }
}

fn validate_provenance(input: &StatusInput) -> (r: Option<StatusError>)
    ensures
        r == provenance_error(*input),
{
    let selected_icann = selects_icann(input.selected_namespace);
    let failed_icann = input.icann_root_failure.is_some();
    let failed_hns_only = input.hns_root_failure.is_some() && !failed_icann;
    let used_icann_doh = input.actual_transport == ResolutionTransport::ValidatingIcannDoh;
    if selected_icann && !used_icann_doh {
        return Some(StatusError::InvalidIcannTlsContext);
    }
    if failed_icann && !used_icann_doh {
        return Some(StatusError::InvalidIcannTlsContext);
    }
    if failed_hns_only && input.actual_transport != ResolutionTransport::Unavailable {
        return Some(StatusError::InvalidNamespaceContext);
    }
    if used_icann_doh && !selected_icann && !failed_icann {
        return Some(StatusError::InvalidIcannTlsContext);
    }
    if !selected_icann && !failed_icann && (input.icann_tls_action.is_some()
        || input.icann_dnssec_status.is_some()) {
        return Some(StatusError::InvalidIcannTlsContext);
    }
    let fails_closed = match input.icann_tls_action {
        Some(IcannTlsAction::FailClosed) => true,
        _ => false,
    };
    if failed_icann && !fails_closed {
        return Some(StatusError::InvalidIcannTlsContext);
    }
    None
}

pub fn validate_namespace_context(input: &StatusInput) -> (r: Result<(), StatusError>)
    ensures
        match r {
            Ok(()) => namespace_error(*input) is None,
            Err(e) => namespace_error(*input) == Some(e),
        },
{
    match validate_decision(input) {
        Some(e) => Err(e),
        None => match validate_provenance(input) {
            Some(e) => Err(e),
            None => Ok(()),
        },
    }
}

// ---------------------------------------------------------------------
// ICANN TLS
// ---------------------------------------------------------------------

/// DANE was verified throughout.
pub open spec fn has_dane(e: ValidationEvidence) -> bool {
    e.dnssec == EvidenceState::Verified && e.tlsa == EvidenceState::Verified && e.dane
        == EvidenceState::Verified
}

/// There is verifiably no TLSA data.
pub open spec fn has_no_tlsa(e: ValidationEvidence) -> bool {
    &&& e.dnssec == EvidenceState::Verified
    &&& e.tlsa == EvidenceState::Unavailable
    &&& (e.dane == EvidenceState::NotAttempted || e.dane == EvidenceState::Unavailable)
}

/// The DNSSEC result that a root failure goes with.
pub open spec fn failure_evidence(
    failure: RootFailureKind,
    dnssec_status: Option<IcannDnssecStatus>,
    e: ValidationEvidence,
) -> bool {
    match failure {
        RootFailureKind::BogusDnssec => dnssec_status == Some(IcannDnssecStatus::Bogus) && e.dnssec
            == EvidenceState::Failed,
        RootFailureKind::IndeterminateDnssec => dnssec_status == Some(
            IcannDnssecStatus::Indeterminate,
        ) && (e.dnssec == EvidenceState::NotAttempted || e.dnssec == EvidenceState::Unavailable),
        RootFailureKind::StaleHnsAnchor => false,
        _ => dnssec_status is None && e.dnssec != EvidenceState::Verified,
    }
}

pub open spec fn is_conclusive(dnssec_status: Option<IcannDnssecStatus>) -> bool {
    dnssec_status == Some(IcannDnssecStatus::Secure) || dnssec_status == Some(
        IcannDnssecStatus::InsecureDelegation,
    )
}

/// The action on ICANN TLS is the one that the evidence supports.
pub open spec fn tls_action_is_supported(
    selected_icann: bool,
    root_failure: Option<RootFailureKind>,
    action: Option<IcannTlsAction>,
    dnssec_status: Option<IcannDnssecStatus>,
    e: ValidationEvidence,
) -> bool {
    match action {
        None => if selected_icann {
            &&& e.dnssec == EvidenceState::Verified
            &&& e.tlsa == EvidenceState::NotAttempted
            &&& e.dane == EvidenceState::NotAttempted
            &&& is_conclusive(dnssec_status)
        } else {
            root_failure is None && dnssec_status is None
        },
        Some(IcannTlsAction::EnforceDane) => selected_icann && dnssec_status == Some(
            IcannDnssecStatus::Secure,
        ) && has_dane(e),
        Some(IcannTlsAction::WebPkiAuthenticatedAbsence) => selected_icann && dnssec_status == Some(
            IcannDnssecStatus::Secure,
        ) && has_no_tlsa(e),
        Some(IcannTlsAction::WebPkiInsecureDelegation) => selected_icann && dnssec_status == Some(
            IcannDnssecStatus::InsecureDelegation,
        ) && has_no_tlsa(e),
        Some(IcannTlsAction::FailClosed) => {
            &&& !has_dane(e)
            &&& !has_no_tlsa(e)
            &&& match root_failure {
                Some(failure) => failure_evidence(failure, dnssec_status, e),
                None => selected_icann && is_conclusive(dnssec_status) && e.dnssec
                    == EvidenceState::Verified,
            }
        },
    }
}

fn status_is(status: Option<IcannDnssecStatus>, expected: IcannDnssecStatus) -> (r: bool)
    ensures
        r == (status == Some(expected)),
{
    match status {
        Some(s) => s == expected,
        None => false,
    }
}

fn validate_icann_failure_context(
    failure: RootFailureKind,
    dnssec_status: Option<IcannDnssecStatus>,
    e: ValidationEvidence,
) -> (r: bool)
    ensures
        r == failure_evidence(failure, dnssec_status, e),
{
    match failure {
        RootFailureKind::BogusDnssec => status_is(dnssec_status, IcannDnssecStatus::Bogus)
            && e.dnssec == EvidenceState::Failed,
        RootFailureKind::IndeterminateDnssec => status_is(
            dnssec_status,
            IcannDnssecStatus::Indeterminate,
        ) && (e.dnssec == EvidenceState::NotAttempted || e.dnssec == EvidenceState::Unavailable),
        RootFailureKind::StaleHnsAnchor => false,
        _ => dnssec_status.is_none() && e.dnssec != EvidenceState::Verified,
    }
}

pub fn validate_icann_tls_context(
    selected_icann: bool,
    root_failure: Option<RootFailureKind>,
    action: Option<IcannTlsAction>,
    dnssec_status: Option<IcannDnssecStatus>,
    evidence: ValidationEvidence,
) -> (r: Result<(), StatusError>)
    ensures
        r == (if tls_action_is_supported(
            selected_icann,
            root_failure,
            action,
            dnssec_status,
            evidence,
        ) {
            Ok::<(), StatusError>(())
        } else {
            Err(StatusError::InvalidIcannTlsContext)
        }),
{
    let dane = evidence.dnssec == EvidenceState::Verified && evidence.tlsa
        == EvidenceState::Verified && evidence.dane == EvidenceState::Verified;
    let webpki = evidence.dnssec == EvidenceState::Verified && evidence.tlsa
        == EvidenceState::Unavailable && (evidence.dane == EvidenceState::NotAttempted
        || evidence.dane == EvidenceState::Unavailable);
    let secure = status_is(dnssec_status, IcannDnssecStatus::Secure);
    let insecure = status_is(dnssec_status, IcannDnssecStatus::InsecureDelegation);
    let valid = match action {
        None => if selected_icann {
            evidence.dnssec == EvidenceState::Verified && evidence.tlsa
                == EvidenceState::NotAttempted && evidence.dane == EvidenceState::NotAttempted && (
            secure || insecure)
        } else {
            root_failure.is_none() && dnssec_status.is_none()
        },
        Some(IcannTlsAction::EnforceDane) => selected_icann && secure && dane,
        Some(IcannTlsAction::WebPkiAuthenticatedAbsence) => selected_icann && secure && webpki,
        Some(IcannTlsAction::WebPkiInsecureDelegation) => selected_icann && insecure && webpki,
        Some(IcannTlsAction::FailClosed) => match root_failure {
            Some(failure) => validate_icann_failure_context(failure, dnssec_status, evidence)
                && !dane && !webpki,
            None => selected_icann && (secure || insecure) && evidence.dnssec
                == EvidenceState::Verified && !dane && !webpki,
        },
    };
    if valid {
        Ok(())
    } else {
        Err(StatusError::InvalidIcannTlsContext)
    }
}

// ---------------------------------------------------------------------
// The status
// ---------------------------------------------------------------------

/// What a status is made of.
#[derive(Clone, Debug, PartialEq, Eq)]
pub struct StatusInput {
    pub runtime: RuntimeSnapshot,
    pub network: Network,
    pub policy: PolicySnapshot,
    pub chain_anchor: Option<ChainAnchor>,
    /// The transport that was used, not the authoritative name server.
    pub actual_transport: ResolutionTransport,
    pub identities: TransportIdentities,
    pub registry_profile: WireProfile,
    pub registry_fingerprint: [u8; 32],
    pub protocol_version: u16,
    pub provider_readiness: ProviderReadiness,
    pub rate_limits: RateLimitState,
    pub evidence: ValidationEvidence,
    pub namespace_outcome: Option<OutcomeKind>,
    pub hns_root_failure: Option<RootFailureKind>,
    pub icann_root_failure: Option<RootFailureKind>,
    pub selected_namespace: Option<Namespace>,
    pub selection_reason: Option<SelectionReason>,
    pub decision_fingerprint: Option<[u8; 32]>,
    /// Absent where nothing was decided, or where the origin is cleartext.
    pub icann_tls_action: Option<IcannTlsAction>,
    pub icann_dnssec_status: Option<IcannDnssecStatus>,
    pub degraded_reason: Option<DegradedReason>,
    pub revocation_reason: Option<RevocationReason>,
    pub unsupported_evidence: Vec<UnsupportedEvidence>,
}

pub open spec fn is_experimental(transport: ResolutionTransport) -> bool {
    transport == ResolutionTransport::HandshakeP2pOdoh || transport
        == ResolutionTransport::HandshakeP2pDnsRelay
}

fn is_experimental_p2p(transport: ResolutionTransport) -> (r: bool)
    ensures
        r == is_experimental(transport),
{
    match transport {
        ResolutionTransport::HandshakeP2pOdoh | ResolutionTransport::HandshakeP2pDnsRelay => true,
        _ => false,
    }
}

/// What is wrong with the status besides its namespaces and failures.
pub open spec fn basic_error(input: StatusInput) -> Option<StatusError> {
    let unidentified = all_zero(input.registry_fingerprint@);
    if input.runtime.schema_version != RUNTIME_SCHEMA_VERSION || input.runtime.generation == 0
        || input.policy.generation == 0 {
        Some(StatusError::InvalidGeneration)
    } else if identities_error(input.actual_transport, input.identities) is Some {
        identities_error(input.actual_transport, input.identities)
    } else if !readiness_is_consistent(
        input.policy.config.providers,
        input.policy.config.hnsr,
        input.provider_readiness,
    ) {
        Some(StatusError::InvalidProviderReadiness)
    } else if !input.rate_limits.is_consistent() {
        Some(StatusError::InvalidRateLimit)
    } else if input.unsupported_evidence@.len() > MAX_UNSUPPORTED_EVIDENCE {
        Some(StatusError::UnsupportedEvidenceLimit)
    } else if input.evidence.hns_proof == EvidenceState::Verified && input.chain_anchor is None {
        Some(StatusError::MissingChainAnchor)
    } else if input.evidence == ValidationEvidence::all(EvidenceState::Verified)
        && input.actual_transport == ResolutionTransport::Unavailable {
        Some(StatusError::VerifiedWithoutTransport)
    } else if is_experimental(input.actual_transport) && (unidentified || input.protocol_version
        == 0) {
        Some(StatusError::MissingProtocolIdentity)
    } else if !is_experimental(input.actual_transport) && !(unidentified && input.protocol_version
        == 0) {
        Some(StatusError::UnexpectedProtocolIdentity)
    } else {
        None
    }
}

/// What is wrong with a status; the first of its faults.
pub open spec fn status_error(input: StatusInput) -> Option<StatusError> {
    if basic_error(input) is Some {
        basic_error(input)
    } else if failure_reasons_error(
        input.runtime.authority,
        input.degraded_reason,
        input.revocation_reason,
    ) is Some {
        failure_reasons_error(
            input.runtime.authority,
            input.degraded_reason,
            input.revocation_reason,
        )
    } else if namespace_error(input) is Some {
        namespace_error(input)
    } else if !tls_action_is_supported(
        input.selected_namespace == Some(Namespace::Icann),
        input.icann_root_failure,
        input.icann_tls_action,
        input.icann_dnssec_status,
        input.evidence,
    ) {
        Some(StatusError::InvalidIcannTlsContext)
    } else {
        None
    }
}

fn validate_basics(input: &StatusInput) -> (r: Option<StatusError>)
    ensures
        r == basic_error(*input),
{
    if input.runtime.schema_version != RUNTIME_SCHEMA_VERSION || input.runtime.generation == 0
        || input.policy.generation == 0 {
        return Some(StatusError::InvalidGeneration);
    }
    match validate_identities(input.actual_transport, &input.identities) {
        Some(e) => {
            return Some(e);
        },
        None => {},
    }
    match validate_provider_readiness(
        input.policy.config.providers,
        input.policy.config.hnsr,
        input.provider_readiness,
    ) {
        Err(e) => {
            return Some(e);
        },
        Ok(()) => {},
    }
    match input.rate_limits.validate() {
        Err(e) => {
            return Some(e);
        },
        Ok(()) => {},
    }
    if input.unsupported_evidence.len() > MAX_UNSUPPORTED_EVIDENCE {
        return Some(StatusError::UnsupportedEvidenceLimit);
    }
    if input.evidence.hns_proof == EvidenceState::Verified && input.chain_anchor.is_none() {
        return Some(StatusError::MissingChainAnchor);
    }
    if input.evidence.fully_verified() && input.actual_transport
        == ResolutionTransport::Unavailable {
        return Some(StatusError::VerifiedWithoutTransport);
    }
    let unidentified = is_zero(&input.registry_fingerprint);
    if is_experimental_p2p(input.actual_transport) {
        if unidentified || input.protocol_version == 0 {
            return Some(StatusError::MissingProtocolIdentity);
        }
    } else if !unidentified || input.protocol_version != 0 {
        return Some(StatusError::UnexpectedProtocolIdentity);
    }
    None
}

/// A checked status.
#[derive(Debug, PartialEq, Eq)]
pub struct BrowserStatus {
    input: StatusInput,
}

impl View for BrowserStatus {
    type V = StatusInput;

    closed spec fn view(&self) -> StatusInput {
        self.input
    }
}

impl BrowserStatus {
    #[verifier::type_invariant]
    spec fn checked(self) -> bool {
        status_error(self.input) is None
    }

    /// Checks everything that a status claims.
    pub fn new(input: StatusInput) -> (r: Result<Self, StatusError>)
        ensures
            match r {
                Ok(s) => status_error(input) is None && s@ == input,
                Err(e) => status_error(input) == Some(e),
            },
    {
        match validate_basics(&input) {
            Some(e) => {
                return Err(e);
            },
            None => {},
        }
        match validate_failure_reasons(
            input.runtime.authority,
            input.degraded_reason,
            input.revocation_reason,
        ) {
            Err(e) => {
                return Err(e);
            },
            Ok(()) => {},
        }
        match validate_namespace_context(&input) {
            Err(e) => {
                return Err(e);
            },
            Ok(()) => {},
        }
        match validate_icann_tls_context(
            selects_icann(input.selected_namespace),
            input.icann_root_failure,
            input.icann_tls_action,
            input.icann_dnssec_status,
            input.evidence,
        ) {
            Err(e) => {
                return Err(e);
            },
            Ok(()) => {},
        }
        Ok(BrowserStatus { input })
    }

    /// The schema that a status follows. One that exists was checked.
    pub fn schema_version(&self) -> (r: u16)
        ensures
            r == STATUS_SCHEMA_VERSION,
            status_error(self@) is None,
    {
        proof {
            use_type_invariant(self);
        }
        STATUS_SCHEMA_VERSION
    }

    pub fn runtime_session(&self) -> (r: [u8; 16])
        ensures
            r == self@.runtime.session,
    {
        self.input.runtime.session
    }

    pub fn runtime_generation(&self) -> (r: u64)
        ensures
            r == self@.runtime.generation,
    {
        self.input.runtime.generation
    }

    pub fn policy_generation(&self) -> (r: u64)
        ensures
            r == self@.policy.generation,
    {
        self.input.policy.generation
    }

    pub fn event_sequence(&self) -> (r: u64)
        ensures
            r == self@.runtime.event_sequence,
    {
        self.input.runtime.event_sequence
    }

    pub fn runtime_snapshot(&self) -> (r: RuntimeSnapshot)
        ensures
            r == self@.runtime,
    {
        self.input.runtime
    }

    pub fn authority_state(&self) -> (r: AuthorityState)
        ensures
            r == self@.runtime.authority,
    {
        self.input.runtime.authority
    }

    pub fn network(&self) -> (r: Network)
        ensures
            r == self@.network,
    {
        self.input.network
    }

    pub fn chain_anchor(&self) -> (r: Option<ChainAnchor>)
        ensures
            r == self@.chain_anchor,
    {
        self.input.chain_anchor
    }

    pub fn transport_policy(&self) -> (r: PolicySnapshot)
        ensures
            r == self@.policy,
    {
        self.input.policy
    }

    pub fn actual_transport(&self) -> (r: ResolutionTransport)
        ensures
            r == self@.actual_transport,
    {
        self.input.actual_transport
    }

    pub fn identities(&self) -> (r: &TransportIdentities)
        ensures
            *r == self@.identities,
    {
        &self.input.identities
    }

    pub fn registry_profile(&self) -> (r: WireProfile)
        ensures
            r == self@.registry_profile,
    {
        self.input.registry_profile
    }

    pub fn registry_fingerprint(&self) -> (r: [u8; 32])
        ensures
            r == self@.registry_fingerprint,
    {
        self.input.registry_fingerprint
    }

    pub fn protocol_version(&self) -> (r: u16)
        ensures
            r == self@.protocol_version,
    {
        self.input.protocol_version
    }

    pub fn hnsr_mode(&self) -> (r: HnsrPolicy)
        ensures
            r == self@.policy.config.hnsr,
    {
        self.input.policy.config.hnsr
    }

    pub fn provider_roles(&self) -> (r: ProviderPolicy)
        ensures
            r == self@.policy.config.providers,
    {
        self.input.policy.config.providers
    }

    pub fn provider_readiness(&self) -> (r: ProviderReadiness)
        ensures
            r == self@.provider_readiness,
    {
        self.input.provider_readiness
    }

    pub fn rate_limits(&self) -> (r: RateLimitState)
        ensures
            r == self@.rate_limits,
    {
        self.input.rate_limits
    }

    pub fn evidence(&self) -> (r: ValidationEvidence)
        ensures
            r == self@.evidence,
    {
        self.input.evidence
    }

    pub fn namespace_outcome(&self) -> (r: Option<OutcomeKind>)
        ensures
            r == self@.namespace_outcome,
    {
        self.input.namespace_outcome
    }

    pub fn hns_root_failure(&self) -> (r: Option<RootFailureKind>)
        ensures
            r == self@.hns_root_failure,
    {
        self.input.hns_root_failure
    }

    pub fn icann_root_failure(&self) -> (r: Option<RootFailureKind>)
        ensures
            r == self@.icann_root_failure,
    {
        self.input.icann_root_failure
    }

    pub fn selected_namespace(&self) -> (r: Option<Namespace>)
        ensures
            r == self@.selected_namespace,
    {
        self.input.selected_namespace
    }

    pub fn selection_reason(&self) -> (r: Option<SelectionReason>)
        ensures
            r == self@.selection_reason,
    {
        self.input.selection_reason
    }

    pub fn decision_fingerprint(&self) -> (r: Option<[u8; 32]>)
        ensures
            r == self@.decision_fingerprint,
    {
        self.input.decision_fingerprint
    }

    pub fn icann_tls_action(&self) -> (r: Option<IcannTlsAction>)
        ensures
            r == self@.icann_tls_action,
    {
        self.input.icann_tls_action
    }

    pub fn icann_dnssec_status(&self) -> (r: Option<IcannDnssecStatus>)
        ensures
            r == self@.icann_dnssec_status,
    {
        self.input.icann_dnssec_status
    }

    pub fn degraded_reason(&self) -> (r: Option<DegradedReason>)
        ensures
            r == self@.degraded_reason,
    {
        self.input.degraded_reason
    }

    pub fn revocation_reason(&self) -> (r: Option<RevocationReason>)
        ensures
            r == self@.revocation_reason,
    {
        self.input.revocation_reason
    }

    pub fn unsupported_evidence(&self) -> (r: &[UnsupportedEvidence])
        ensures
            r@ == self@.unsupported_evidence@,
    {
        self.input.unsupported_evidence.as_slice()
    }
}

/// What every checked status says of transport, evidence and ICANN TLS together.
pub proof fn checked_statuses_are_consistent(input: StatusInput)
    requires
        status_error(input) is None,
    ensures
        // The registry identifies experimental transports, and only those.
        is_experimental(input.actual_transport) <==> !all_zero(input.registry_fingerprint@),
        is_experimental(input.actual_transport) <==> input.protocol_version != 0,
        // Full verification has a transport and an anchor.
        input.evidence == ValidationEvidence::all(EvidenceState::Verified)
            ==> input.actual_transport != ResolutionTransport::Unavailable
            && input.chain_anchor is Some,
        // The ICANN resolver is used exactly for ICANN names and failures.
        (input.actual_transport == ResolutionTransport::ValidatingIcannDoh) <==> (
        input.selected_namespace == Some(Namespace::Icann) || input.icann_root_failure is Some),
        // WebPKI never stands in for failed or present TLSA data.
        input.icann_tls_action == Some(IcannTlsAction::WebPkiAuthenticatedAbsence)
            || input.icann_tls_action == Some(IcannTlsAction::WebPkiInsecureDelegation)
            ==> has_no_tlsa(input.evidence),
        input.icann_tls_action == Some(IcannTlsAction::EnforceDane) ==> has_dane(input.evidence),
        // A failed ICANN root fails closed.
        input.icann_root_failure is Some ==> input.icann_tls_action == Some(
            IcannTlsAction::FailClosed,
        ) && input.namespace_outcome is None,
        // Degraded and revoked exclude each other.
        !(input.degraded_reason is Some && input.revocation_reason is Some),
{
}

/// A role that policy does not take is never reported as working.
pub proof fn disabled_roles_do_not_work(input: StatusInput)
    requires
        status_error(input) is None,
    ensures
        !input.policy.config.providers.dns_relay ==> input.provider_readiness.dns_relay
            == ReadinessState::Disabled || input.provider_readiness.dns_relay
            == ReadinessState::Revoked,
        !input.policy.config.providers.odoh_proxy ==> input.provider_readiness.odoh_proxy
            == ReadinessState::Disabled || input.provider_readiness.odoh_proxy
            == ReadinessState::Revoked,
        !input.policy.config.providers.odoh_target ==> input.provider_readiness.odoh_target
            == ReadinessState::Disabled || input.provider_readiness.odoh_target
            == ReadinessState::Revoked,
        !input.policy.config.providers.market_gossip ==> input.provider_readiness.market_gossip
            == ReadinessState::Disabled || input.provider_readiness.market_gossip
            == ReadinessState::Revoked,
        !input.policy.config.hnsr.endpoint ==> input.provider_readiness.hnsr_endpoint
            == ReadinessState::Disabled || input.provider_readiness.hnsr_endpoint
            == ReadinessState::Revoked,
        !input.policy.config.hnsr.relay ==> input.provider_readiness.hnsr_relay
            == ReadinessState::Disabled || input.provider_readiness.hnsr_relay
            == ReadinessState::Revoked,
{
}

/// Which identities go with which transport. Each that is given has 1 to 256 bytes. A lookup
/// over oblivious DNS has a proxy and a target, two different ones, neither a peer nor a
/// fallback to the direct relay; one over the relay has a peer, and neither proxy nor
/// target; any other has none of them, and no fallback.
pub proof fn identities_follow_the_transport(transport: ResolutionTransport, i: TransportIdentities)
    ensures
        identities_error(transport, i) is None <==> {
            &&& i.peer is Some ==> 1 <= vstd::utf8::encode_utf8(i.peer->0@).len() <= 256
            &&& i.proxy is Some ==> 1 <= vstd::utf8::encode_utf8(i.proxy->0@).len() <= 256
            &&& i.target is Some ==> 1 <= vstd::utf8::encode_utf8(i.target->0@).len() <= 256
            &&& match transport {
                ResolutionTransport::HandshakeP2pOdoh => {
                    &&& i.proxy is Some && i.target is Some && i.proxy->0@ != i.target->0@
                    &&& i.peer is None && !i.direct_relay_fallback
                },
                ResolutionTransport::HandshakeP2pDnsRelay => {
                    &&& i.peer is Some && i.proxy is None && i.target is None
                },
                _ => {
                    &&& i.peer is None && i.proxy is None && i.target is None
                    &&& !i.direct_relay_fallback
                },
            }
        },
        transport is HandshakeP2pOdoh && (i.proxy is None || i.target is None) ==> identities_error(
            transport,
            i,
        ) == Some(StatusError::InvalidIdentity) || identities_error(transport, i) == Some(
            StatusError::MissingIdentity,
        ),
{
}

/// What a status without further context must have: a runtime of the first schema, and
/// generations; the identities of its transport; a readiness of each role that agrees with
/// the policy; limits that agree with what is counted; at most 64 details; an anchor for a
/// verified name; a transport for full evidence; and a registry exactly where the
/// transport is experimental.
pub proof fn statuses_have_their_basics(input: StatusInput)
    ensures
        basic_error(input) is None <==> {
            let unnamed = forall|k: int|
                0 <= k < input.registry_fingerprint@.len() ==> #[trigger] input.registry_fingerprint@[k]
                    == 0;
            let experimental = input.actual_transport is HandshakeP2pOdoh
                || input.actual_transport is HandshakeP2pDnsRelay;
            let e = input.evidence;
            let p = input.policy.config.providers;
            let h = input.policy.config.hnsr;
            let r = input.provider_readiness;
            let limits = input.rate_limits;
            &&& input.runtime.schema_version == 1
            &&& input.runtime.generation != 0 && input.policy.generation != 0
            &&& identities_error(input.actual_transport, input.identities) is None
            &&& p.dns_relay == (r.dns_relay !is Disabled && r.dns_relay !is Revoked) || (
            r.dns_relay is Revoked)
            &&& p.odoh_proxy == (r.odoh_proxy !is Disabled && r.odoh_proxy !is Revoked) || (
            r.odoh_proxy is Revoked)
            &&& p.odoh_target == (r.odoh_target !is Disabled && r.odoh_target !is Revoked) || (
            r.odoh_target is Revoked)
            &&& h.endpoint == (r.hnsr_endpoint !is Disabled && r.hnsr_endpoint !is Revoked) || (
            r.hnsr_endpoint is Revoked)
            &&& h.relay == (r.hnsr_relay !is Disabled && r.hnsr_relay !is Revoked) || (
            r.hnsr_relay is Revoked)
            &&& p.market_gossip == (r.market_gossip !is Disabled && r.market_gossip !is Revoked) || (
            r.market_gossip is Revoked)
            &&& (limits.max_concurrency == 0) == (limits.window_limit == 0)
            &&& limits.in_flight <= limits.max_concurrency
            &&& limits.window_requests <= limits.window_limit
            &&& limits.limited == (limits.max_concurrency > 0 && (limits.in_flight
                == limits.max_concurrency || limits.window_requests == limits.window_limit))
            &&& input.unsupported_evidence@.len() <= 64
            &&& e.hns_proof is Verified ==> input.chain_anchor is Some
            &&& e.hns_proof is Verified && e.dnssec is Verified && e.tlsa is Verified
                && e.dane is Verified && e.chain_current is Verified && e.origin_sni is Verified
                ==> input.actual_transport !is Unavailable
            &&& experimental ==> !unnamed && input.protocol_version != 0
            &&& !experimental ==> unnamed && input.protocol_version == 0
        },
{
    let e = input.evidence;
    assert(all_zero(input.registry_fingerprint@) == forall|k: int|
        0 <= k < input.registry_fingerprint@.len() ==> #[trigger] input.registry_fingerprint@[k]
            == 0);
    if e.hns_proof is Verified && e.dnssec is Verified && e.tlsa is Verified && e.dane is Verified
        && e.chain_current is Verified && e.origin_sni is Verified {
        assert(e == ValidationEvidence::all(EvidenceState::Verified));
    }
}

/// A role that policy takes starts up, and any other is disabled: each by its own word.
pub proof fn roles_start_as_policy_says(policy: PolicySnapshot)
    ensures
        ({
            let r = initial_readiness_of(policy);
            let p = policy.config.providers;
            let h = policy.config.hnsr;
            &&& if p.dns_relay { r.dns_relay is Starting } else { r.dns_relay is Disabled }
            &&& if p.odoh_proxy { r.odoh_proxy is Starting } else { r.odoh_proxy is Disabled }
            &&& if p.odoh_target { r.odoh_target is Starting } else { r.odoh_target is Disabled }
            &&& if h.endpoint { r.hnsr_endpoint is Starting } else { r.hnsr_endpoint is Disabled }
            &&& if h.relay { r.hnsr_relay is Starting } else { r.hnsr_relay is Disabled }
            &&& if p.market_gossip {
                r.market_gossip is Starting
            } else {
                r.market_gossip is Disabled
            }
        }),
{
}

/// A namespace is selected exactly where the name was found: the one root that has it, or
/// one of both, where ICANN is the default and anything else a pin or a binding.
pub proof fn selections_follow_the_outcome(
    outcome: Option<OutcomeKind>,
    selected: Option<Namespace>,
    reason: Option<SelectionReason>,
)
    ensures
        selection_is_valid(outcome, selected, reason) ==> (selected is Some <==> reason is Some),
        selection_is_valid(outcome, selected, reason) ==> (selected is Some <==> outcome is Some
            && outcome->0 !is Neither),
        outcome is Some && outcome->0 is HnsOnly ==> (selection_is_valid(outcome, selected, reason)
            <==> selected == Some(Namespace::Hns) && (reason == Some(SelectionReason::SingleRoot)
            || reason == Some(SelectionReason::ExplicitPin) || reason == Some(
            SelectionReason::StickyBinding,
        ))),
        outcome is Some && outcome->0 is IcannOnly ==> (selection_is_valid(
            outcome,
            selected,
            reason,
        ) <==> selected == Some(Namespace::Icann) && (reason == Some(SelectionReason::SingleRoot)
            || reason == Some(SelectionReason::ExplicitPin) || reason == Some(
            SelectionReason::StickyBinding,
        ))),
        outcome is Some && (outcome->0 is BothConvergent || outcome->0 is BothDivergent) ==> (
        selection_is_valid(outcome, selected, reason) <==> (selected is Some && (reason == Some(
            SelectionReason::ExplicitPin,
        ) || reason == Some(SelectionReason::StickyBinding))) || (selected == Some(Namespace::Icann)
            && reason == Some(SelectionReason::IcannDefault))),
        outcome is None || outcome->0 is Neither ==> (selection_is_valid(outcome, selected, reason)
            <==> selected is None && reason is None),
{
}

/// The context of a namespace decision holds together exactly where an outcome has a
/// fingerprint that is not zero, and no failed root; where a name in neither root has no
/// transport; where the selection follows the outcome; where the ICANN resolver was used
/// for ICANN names and failures and for nothing else; where only those have ICANN
/// evidence; where a failed ICANN root fails closed; and where a failed HNS root alone has
/// no transport.
pub proof fn namespace_contexts_hold_together(input: StatusInput)
    ensures
        namespace_error(input) is None <==> {
            let icann = input.selected_namespace == Some(Namespace::Icann)
                || input.icann_root_failure is Some;
            let outcome = input.namespace_outcome;
            &&& input.decision_fingerprint is Some ==> exists|k: int|
                0 <= k < input.decision_fingerprint->0@.len()
                    && #[trigger] input.decision_fingerprint->0@[k] != 0
            &&& outcome is Some <==> input.decision_fingerprint is Some
            &&& outcome is Some ==> input.hns_root_failure is None && input.icann_root_failure is None
            &&& outcome == Some(OutcomeKind::Neither) ==> input.actual_transport is Unavailable
            &&& selection_is_valid(outcome, input.selected_namespace, input.selection_reason)
            &&& icann <==> input.actual_transport is ValidatingIcannDoh
            &&& input.icann_tls_action is Some || input.icann_dnssec_status is Some ==> icann
            &&& input.icann_root_failure is Some ==> input.icann_tls_action == Some(
                IcannTlsAction::FailClosed,
            )
            &&& input.hns_root_failure is Some && input.icann_root_failure is None
                ==> input.actual_transport is Unavailable
        },
        namespace_error(input) matches Some(e) ==> e is InvalidDecisionFingerprint
            || e is InvalidNamespaceContext || e is InvalidIcannTlsContext,
        input.decision_fingerprint is Some && all_zero(input.decision_fingerprint->0@)
            ==> namespace_error(input) == Some(StatusError::InvalidDecisionFingerprint),
{
    if input.decision_fingerprint is Some {
        let f = input.decision_fingerprint->0@;
        assert(!all_zero(f) <==> exists|k: int| 0 <= k < f.len() && #[trigger] f[k] != 0);
    }
}

/// How an ICANN origin may be trusted, by what was found. DANE decides exactly where its
/// data are secure and matched; WebPKI exactly where their absence is authenticated or the
/// delegation provably insecure; nothing is decided for an origin in cleartext, or where
/// the name is no ICANN name; and in all other cases trust fails closed, with the evidence
/// of the failure.
pub proof fn trust_follows_the_evidence(
    selected_icann: bool,
    root_failure: Option<RootFailureKind>,
    dnssec_status: Option<IcannDnssecStatus>,
    e: ValidationEvidence,
)
    ensures
        tls_action_is_supported(
            selected_icann,
            root_failure,
            Some(IcannTlsAction::EnforceDane),
            dnssec_status,
            e,
        ) <==> selected_icann && dnssec_status == Some(IcannDnssecStatus::Secure)
            && e.dnssec is Verified && e.tlsa is Verified && e.dane is Verified,
        tls_action_is_supported(
            selected_icann,
            root_failure,
            Some(IcannTlsAction::WebPkiAuthenticatedAbsence),
            dnssec_status,
            e,
        ) <==> selected_icann && dnssec_status == Some(IcannDnssecStatus::Secure)
            && e.dnssec is Verified && e.tlsa is Unavailable && (e.dane is NotAttempted
            || e.dane is Unavailable),
        tls_action_is_supported(
            selected_icann,
            root_failure,
            Some(IcannTlsAction::WebPkiInsecureDelegation),
            dnssec_status,
            e,
        ) <==> selected_icann && dnssec_status == Some(IcannDnssecStatus::InsecureDelegation)
            && e.dnssec is Verified && e.tlsa is Unavailable && (e.dane is NotAttempted
            || e.dane is Unavailable),
        tls_action_is_supported(selected_icann, root_failure, None, dnssec_status, e) <==> if
            selected_icann {
            &&& dnssec_status == Some(IcannDnssecStatus::Secure) || dnssec_status == Some(
                IcannDnssecStatus::InsecureDelegation,
            )
            &&& e.dnssec is Verified && e.tlsa is NotAttempted && e.dane is NotAttempted
        } else {
            root_failure is None && dnssec_status is None
        },
        tls_action_is_supported(
            selected_icann,
            root_failure,
            Some(IcannTlsAction::FailClosed),
            dnssec_status,
            e,
        ) <==> {
            &&& !(e.dnssec is Verified && e.tlsa is Verified && e.dane is Verified)
            &&& !(e.dnssec is Verified && e.tlsa is Unavailable && (e.dane is NotAttempted
                || e.dane is Unavailable))
            &&& match root_failure {
                None => selected_icann && e.dnssec is Verified && (dnssec_status == Some(
                    IcannDnssecStatus::Secure,
                ) || dnssec_status == Some(IcannDnssecStatus::InsecureDelegation)),
                Some(RootFailureKind::StaleHnsAnchor) => false,
                Some(RootFailureKind::BogusDnssec) => e.dnssec is Failed && dnssec_status == Some(
                    IcannDnssecStatus::Bogus,
                ),
                Some(RootFailureKind::IndeterminateDnssec) => (e.dnssec is NotAttempted
                    || e.dnssec is Unavailable) && dnssec_status == Some(
                    IcannDnssecStatus::Indeterminate,
                ),
                Some(_) => e.dnssec !is Verified && dnssec_status is None,
            }
        },
{
}

/// A status is taken exactly where its basics, its failure reasons, its namespace context
/// and its trust hold; otherwise the first of them that does not names the error.
pub proof fn statuses_are_taken_exactly(input: StatusInput)
    ensures
        ({
            let reasons = failure_reasons_error(
                input.runtime.authority,
                input.degraded_reason,
                input.revocation_reason,
            );
            let trusted = tls_action_is_supported(
                input.selected_namespace == Some(Namespace::Icann),
                input.icann_root_failure,
                input.icann_tls_action,
                input.icann_dnssec_status,
                input.evidence,
            );
            &&& status_error(input) is None <==> basic_error(input) is None && reasons is None
                && namespace_error(input) is None && trusted
            &&& basic_error(input) is Some ==> status_error(input) == basic_error(input)
            &&& basic_error(input) is None && reasons is Some ==> status_error(input) == reasons
            &&& basic_error(input) is None && reasons is None && namespace_error(input) is Some
                ==> status_error(input) == namespace_error(input)
            &&& basic_error(input) is None && reasons is None && namespace_error(input) is None
                && !trusted ==> status_error(input) == Some(StatusError::InvalidIcannTlsContext)
        }),
{
}

/// The numbers by which states, reasons, kinds and actions are reported.
pub proof fn reports_are_numbered()
    ensures
        ReadinessState::Disabled.code_spec() == 0,
        ReadinessState::Starting.code_spec() == 1,
        ReadinessState::Ready.code_spec() == 2,
        ReadinessState::RateLimited.code_spec() == 3,
        ReadinessState::Degraded.code_spec() == 4,
        ReadinessState::Revoked.code_spec() == 5,
        DegradedReason::HeadersStale.code_spec() == 1,
        DegradedReason::HeaderSyncUnavailable.code_spec() == 2,
        DegradedReason::ProofUnavailable.code_spec() == 3,
        DegradedReason::ResolutionTransportUnavailable.code_spec() == 4,
        DegradedReason::DnssecFailure.code_spec() == 5,
        DegradedReason::TlsaFailure.code_spec() == 6,
        DegradedReason::DaneFailure.code_spec() == 7,
        DegradedReason::BrowserBridgeUnavailable.code_spec() == 8,
        DegradedReason::ProviderUnavailable.code_spec() == 9,
        RevocationReason::PolicyChanged.code_spec() == 1,
        RevocationReason::RuntimeChanged.code_spec() == 2,
        RevocationReason::NetworkChanged.code_spec() == 3,
        RevocationReason::RegistryChanged.code_spec() == 4,
        RevocationReason::ProviderDisabled.code_spec() == 5,
        RevocationReason::Stopped.code_spec() == 6,
        EvidenceKind::HnsProof.code_spec() == 0,
        EvidenceKind::ChainCurrency.code_spec() == 1,
        EvidenceKind::Dnssec.code_spec() == 2,
        EvidenceKind::Tlsa.code_spec() == 3,
        EvidenceKind::Dane.code_spec() == 4,
        EvidenceKind::OriginSni.code_spec() == 5,
        EvidenceKind::TransportProtocol.code_spec() == 6,
        IcannTlsAction::EnforceDane.code_spec() == 1,
        IcannTlsAction::WebPkiAuthenticatedAbsence.code_spec() == 2,
        IcannTlsAction::WebPkiInsecureDelegation.code_spec() == 3,
        IcannTlsAction::FailClosed.code_spec() == 4,
{
}

/// A status is made exactly where nothing is wrong with what it is made of, and holds it.
pub proof fn statuses_are_made(input: StatusInput, r: Result<BrowserStatus, StatusError>)
    requires
        call_ensures(BrowserStatus::new, (input,), r),
    ensures
        r is Ok <==> status_error(input) is None,
        r is Ok ==> r->Ok_0@ == input,
        r is Err ==> Some(r->Err_0) == status_error(input),
{
}

/// Each fault is told in its own words.
pub proof fn faults_of_statuses_have_their_words(e: StatusError)
    ensures
        status_error_text(e) == (match e {
            StatusError::InvalidGeneration => "invalid status generation"@,
            StatusError::InvalidIdentity => "invalid transport identity"@,
            StatusError::MissingIdentity => "missing transport identity"@,
            StatusError::InvalidTransportContext => "invalid actual-transport context"@,
            StatusError::InvalidProviderReadiness
                => "provider readiness conflicts with provider roles"@,
            StatusError::InvalidRateLimit => "invalid rate-limit state"@,
            StatusError::UnsupportedEvidenceLimit => "unsupported-evidence detail bound exceeded"@,
            StatusError::MissingChainAnchor => "verified HNS evidence has no chain anchor"@,
            StatusError::VerifiedWithoutTransport => "verified result has no actual transport"@,
            StatusError::MissingProtocolIdentity
                => "experimental P2P transport has no protocol identity"@,
            StatusError::UnexpectedProtocolIdentity
                => "non-P2P transport carries experimental protocol identity"@,
            StatusError::ConflictingFailureReasons => "status is both degraded and revoked"@,
            StatusError::MissingFailureReason => "authority state requires a failure reason"@,
            StatusError::FailureReasonMismatch => "failure reason conflicts with authority state"@,
            StatusError::InvalidNamespaceContext => "invalid name-free namespace decision context"@,
            StatusError::InvalidDecisionFingerprint => "invalid namespace decision fingerprint"@,
            StatusError::InvalidIcannTlsContext
                => "ICANN TLS action conflicts with validation evidence"@,
        }),
{
}

} // verus!
