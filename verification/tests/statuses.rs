use hns_browser::policy::{
    AuthorityState, ChainAnchor, DnsRelayRequesterPolicy, EvidenceState, HnsrPolicy,
    IcannDnssecStatus, Namespace, Network, ObliviousDnsPolicy, OutcomeKind, PolicyConfig,
    PolicySnapshot, ProviderPolicy, ResolutionTransport, RootFailureKind, RuntimeSnapshot,
    SelectionReason, ValidationEvidence, WireProfile, RUNTIME_SCHEMA_VERSION,
};
use hns_browser::status::{
    valid_namespace_selection, validate_failure_reasons, BrowserStatus, DegradedReason,
    EvidenceKind, IcannTlsAction, ProviderReadiness, RateLimitState, ReadinessState,
    RevocationReason, StatusError, StatusInput, TransportIdentities, UnsupportedEvidence,
};

fn policy() -> PolicySnapshot {
    PolicySnapshot {
        generation: 7,
        config: PolicyConfig {
            dns_relay_requester: DnsRelayRequesterPolicy::Auto,
            oblivious_dns: ObliviousDnsPolicy::Preferred,
            hnsr: HnsrPolicy::disabled().with_endpoint(true),
            authenticated_authoritative_doh: true,
            providers: ProviderPolicy {
                dns_relay: true,
                odoh_proxy: false,
                odoh_target: false,
                market_gossip: false,
            },
            wire_profile: WireProfile::DenuoV1,
            allow_legacy_regtest_compatibility: false,
        },
    }
}

fn runtime(session_byte: u8, authority: AuthorityState) -> RuntimeSnapshot {
    RuntimeSnapshot {
        schema_version: RUNTIME_SCHEMA_VERSION,
        session: [session_byte; 16],
        generation: 3,
        event_sequence: 9,
        authority,
    }
}

fn active_runtime(session_byte: u8, _dane_applies: bool) -> RuntimeSnapshot {
    runtime(session_byte, AuthorityState::Active)
}

fn input() -> StatusInput {
    let policy = policy();
    let mut provider_readiness = ProviderReadiness::from_policy(policy);
    provider_readiness.dns_relay = ReadinessState::Ready;
    StatusInput {
        runtime: active_runtime(7, true),
        network: Network::Mainnet,
        policy,
        chain_anchor: Some(ChainAnchor {
            height: 123,
            tree_root: [4; 32],
        }),
        actual_transport: ResolutionTransport::HandshakeP2pDnsRelay,
        identities: TransportIdentities {
            peer: Some("peer-a".to_owned()),
            ..TransportIdentities::default()
        },
        registry_profile: WireProfile::DenuoV1,
        registry_fingerprint: [8; 32],
        protocol_version: 1,
        provider_readiness,
        rate_limits: RateLimitState {
            in_flight: 2,
            max_concurrency: 8,
            window_requests: 5,
            window_limit: 10,
            rejected_total: 1,
            limited: false,
        },
        evidence: ValidationEvidence {
            hns_proof: EvidenceState::Verified,
            dnssec: EvidenceState::Verified,
            tlsa: EvidenceState::Verified,
            dane: EvidenceState::Verified,
            chain_current: EvidenceState::Verified,
            origin_sni: EvidenceState::Verified,
        },
        namespace_outcome: None,
        hns_root_failure: None,
        icann_root_failure: None,
        selected_namespace: None,
        selection_reason: None,
        decision_fingerprint: None,
        icann_tls_action: None,
        icann_dnssec_status: None,
        degraded_reason: None,
        revocation_reason: None,
        unsupported_evidence: Vec::new(),
    }
}

#[test]
fn exposes_every_required_status_dimension() {
    let status = BrowserStatus::new(input()).unwrap();
    assert_eq!(status.schema_version(), 2);
    assert_eq!(status.authority_state(), AuthorityState::Active);
    assert_eq!(status.policy_generation(), 7);
    assert_eq!(
        status.actual_transport(),
        ResolutionTransport::HandshakeP2pDnsRelay
    );
    assert_eq!(status.identities().peer.as_deref(), Some("peer-a"));
    assert_eq!(
        status.hnsr_mode(),
        HnsrPolicy::disabled().with_endpoint(true)
    );
    assert!(status.provider_roles().dns_relay);
    assert_eq!(status.provider_readiness().dns_relay, ReadinessState::Ready);
    assert!(status.evidence().fully_verified());
}

#[test]
fn runtime_tuple_is_bound_as_one_snapshot() {
    let input = input();
    let expected = input.runtime;
    let status = BrowserStatus::new(input).unwrap();
    assert_eq!(status.runtime_snapshot(), expected);
    assert_eq!(status.runtime_session(), expected.session);
    assert_eq!(status.runtime_generation(), expected.generation);
    assert_eq!(status.event_sequence(), expected.event_sequence);
    assert_eq!(status.authority_state(), expected.authority);
}

#[test]
fn p2p_transport_identity_and_protocol_context_fail_closed() {
    let mut status = input();
    status.actual_transport = ResolutionTransport::HandshakeP2pOdoh;
    assert_eq!(BrowserStatus::new(status.clone()).err(), Some(StatusError::MissingIdentity));
    status.identities = TransportIdentities {
        proxy: Some("same".to_owned()),
        target: Some("same".to_owned()),
        ..TransportIdentities::default()
    };
    assert_eq!(BrowserStatus::new(status).err(), Some(StatusError::InvalidTransportContext));

    let mut status = input();
    status.registry_fingerprint = [0; 32];
    assert_eq!(BrowserStatus::new(status).err(), Some(StatusError::MissingProtocolIdentity));
}

#[test]
fn registry_identity_is_present_exactly_for_p2p_transport() {
    let mut status = input();
    status.actual_transport = ResolutionTransport::DirectAuthoritativeTcp;
    status.identities = TransportIdentities::default();
    assert_eq!(BrowserStatus::new(status.clone()).err(), Some(StatusError::UnexpectedProtocolIdentity));
    status.registry_fingerprint = [0; 32];
    status.protocol_version = 0;
    let status = BrowserStatus::new(status).unwrap();
    assert_eq!(
        status.actual_transport(),
        ResolutionTransport::DirectAuthoritativeTcp
    );
    assert_eq!(status.registry_fingerprint(), [0; 32]);
    assert_eq!(status.protocol_version(), 0);
}

#[test]
fn explicit_unattempted_stale_unsupported_and_revoked_states_survive() {
    let mut status = input();
    status.runtime = runtime(12, AuthorityState::Degraded);
    status.actual_transport = ResolutionTransport::Unavailable;
    status.identities = TransportIdentities::default();
    status.registry_fingerprint = [0; 32];
    status.protocol_version = 0;
    status.chain_anchor = None;
    status.evidence = ValidationEvidence::not_attempted();
    status.evidence.hns_proof = EvidenceState::Stale;
    status.evidence.dnssec = EvidenceState::Unsupported;
    status.evidence.tlsa = EvidenceState::Unavailable;
    status.evidence.dane = EvidenceState::Revoked;
    status.evidence.origin_sni = EvidenceState::Failed;
    status.unsupported_evidence.push(UnsupportedEvidence {
        kind: EvidenceKind::Dnssec,
        code: 253,
    });
    status.degraded_reason = Some(DegradedReason::HeadersStale);
    let status = BrowserStatus::new(status).unwrap();
    assert_eq!(status.evidence().hns_proof, EvidenceState::Stale);
    assert_eq!(status.evidence().dnssec, EvidenceState::Unsupported);
    assert_eq!(status.evidence().dane, EvidenceState::Revoked);
    assert_eq!(status.unsupported_evidence().len(), 1);
}

#[test]
fn provider_readiness_is_policy_derived_and_disabled_roles_stay_disabled() {
    let mut config = policy().config;
    config.providers = ProviderPolicy {
        dns_relay: false,
        odoh_proxy: false,
        odoh_target: false,
        market_gossip: false,
    };
    config.hnsr = HnsrPolicy::disabled();
    let disabled_policy = PolicySnapshot { generation: 8, config };
    let readiness = ProviderReadiness::from_policy(disabled_policy);
    assert_eq!(readiness, ProviderReadiness::default());

    let mut status = input();
    status.policy = disabled_policy;
    status.provider_readiness = readiness;
    status.actual_transport = ResolutionTransport::Unavailable;
    status.identities = TransportIdentities::default();
    status.registry_fingerprint = [0; 32];
    status.protocol_version = 0;
    status.chain_anchor = None;
    status.evidence = ValidationEvidence::not_attempted();
    BrowserStatus::new(status.clone()).unwrap();

    status.provider_readiness.odoh_proxy = ReadinessState::Ready;
    assert_eq!(BrowserStatus::new(status).err(), Some(StatusError::InvalidProviderReadiness));
}

#[test]
fn provider_and_rate_limit_invariants_reject_misreporting() {
    let mut status = input();
    status.provider_readiness.odoh_proxy = ReadinessState::Ready;
    assert_eq!(BrowserStatus::new(status).err(), Some(StatusError::InvalidProviderReadiness));

    let mut status = input();
    status.rate_limits.in_flight = status.rate_limits.max_concurrency;
    assert_eq!(BrowserStatus::new(status).err(), Some(StatusError::InvalidRateLimit));
}

#[test]
fn authority_state_enforces_failure_reason_consistency() {
    let mut status = input();
    status.runtime = runtime(9, AuthorityState::Degraded);
    status.chain_anchor = None;
    status.actual_transport = ResolutionTransport::Unavailable;
    status.identities = TransportIdentities::default();
    status.registry_fingerprint = [0; 32];
    status.protocol_version = 0;
    status.evidence = ValidationEvidence::not_attempted();
    assert_eq!(BrowserStatus::new(status.clone()).err(), Some(StatusError::MissingFailureReason));
    status.degraded_reason = Some(DegradedReason::HeaderSyncUnavailable);
    BrowserStatus::new(status.clone()).unwrap();

    status.revocation_reason = Some(RevocationReason::RuntimeChanged);
    assert_eq!(BrowserStatus::new(status).err(), Some(StatusError::ConflictingFailureReasons));

    let mut status = input();
    status.runtime = runtime(10, AuthorityState::Stopped);
    status.chain_anchor = None;
    status.actual_transport = ResolutionTransport::Unavailable;
    status.identities = TransportIdentities::default();
    status.registry_fingerprint = [0; 32];
    status.protocol_version = 0;
    status.evidence = ValidationEvidence::revoked();
    status.revocation_reason = Some(RevocationReason::PolicyChanged);
    assert_eq!(BrowserStatus::new(status.clone()).err(), Some(StatusError::FailureReasonMismatch));
    status.revocation_reason = Some(RevocationReason::Stopped);
    BrowserStatus::new(status).unwrap();
}

#[test]
fn failure_reason_matrix_is_exhaustive_for_every_authority_state() {
    let states = [
        AuthorityState::Uninitialized,
        AuthorityState::LocalStateOpened,
        AuthorityState::HeaderSyncing,
        AuthorityState::HeaderCurrent,
        AuthorityState::ProofReady,
        AuthorityState::ResolutionTransportReady,
        AuthorityState::DnssecVerified,
        AuthorityState::DaneOriginVerified,
        AuthorityState::BrowserBridgeReady,
        AuthorityState::Active,
        AuthorityState::Degraded,
        AuthorityState::Revoked,
        AuthorityState::Stopped,
    ];
    let degraded_options = [None, Some(DegradedReason::ResolutionTransportUnavailable)];
    let revocation_options = [
        None,
        Some(RevocationReason::PolicyChanged),
        Some(RevocationReason::Stopped),
    ];

    for authority in states {
        for degraded in degraded_options {
            for revoked in revocation_options {
                let expected = match authority {
                    AuthorityState::Degraded => degraded.is_some() && revoked.is_none(),
                    AuthorityState::Revoked => {
                        degraded.is_none()
                            && revoked.is_some()
                            && revoked != Some(RevocationReason::Stopped)
                    }
                    AuthorityState::Stopped => {
                        degraded.is_none() && revoked == Some(RevocationReason::Stopped)
                    }
                    _ => degraded.is_none() && revoked.is_none(),
                };
                assert_eq!(
                    validate_failure_reasons(authority, degraded, revoked).is_ok(),
                    expected,
                    "unexpected reason result for {authority:?}, {degraded:?}, {revoked:?}"
                );
            }
        }
    }
}

fn icann_input(action: IcannTlsAction) -> StatusInput {
    let mut status = input();
    status.runtime = active_runtime(11, action == IcannTlsAction::EnforceDane);
    status.actual_transport = ResolutionTransport::ValidatingIcannDoh;
    status.identities = TransportIdentities::default();
    status.registry_fingerprint = [0; 32];
    status.protocol_version = 0;
    status.chain_anchor = None;
    status.namespace_outcome = Some(OutcomeKind::IcannOnly);
    status.selected_namespace = Some(Namespace::Icann);
    status.selection_reason = Some(SelectionReason::SingleRoot);
    status.decision_fingerprint = Some([11; 32]);
    status.icann_tls_action = Some(action);
    status.icann_dnssec_status = Some(if action == IcannTlsAction::WebPkiInsecureDelegation {
        IcannDnssecStatus::InsecureDelegation
    } else {
        IcannDnssecStatus::Secure
    });
    status.evidence = ValidationEvidence::not_attempted();
    status
}

fn failed_icann_input(
    failure: RootFailureKind,
    dnssec_status: Option<IcannDnssecStatus>,
    evidence: ValidationEvidence,
) -> StatusInput {
    let mut status = input();
    status.runtime = active_runtime(11, false);
    status.actual_transport = ResolutionTransport::ValidatingIcannDoh;
    status.identities = TransportIdentities::default();
    status.registry_fingerprint = [0; 32];
    status.protocol_version = 0;
    status.chain_anchor = None;
    status.namespace_outcome = None;
    status.hns_root_failure = None;
    status.icann_root_failure = Some(failure);
    status.selected_namespace = None;
    status.selection_reason = None;
    status.decision_fingerprint = None;
    status.icann_tls_action = Some(IcannTlsAction::FailClosed);
    status.icann_dnssec_status = dnssec_status;
    status.evidence = evidence;
    status
}

#[test]
fn reports_icann_dane_without_names_or_registry_metadata() {
    let mut status = icann_input(IcannTlsAction::EnforceDane);
    status.evidence.dnssec = EvidenceState::Verified;
    status.evidence.tlsa = EvidenceState::Verified;
    status.evidence.dane = EvidenceState::Verified;
    let status = BrowserStatus::new(status).unwrap();
    assert_eq!(
        status.actual_transport(),
        ResolutionTransport::ValidatingIcannDoh
    );
    assert_eq!(status.icann_tls_action(), Some(IcannTlsAction::EnforceDane));
    assert_eq!(status.selected_namespace(), Some(Namespace::Icann));
    assert_eq!(status.decision_fingerprint(), Some([11; 32]));
}

#[test]
fn webpki_authenticated_absence_becomes_active_without_claiming_dane() {
    let mut status = icann_input(IcannTlsAction::WebPkiAuthenticatedAbsence);
    status.evidence.dnssec = EvidenceState::Verified;
    status.evidence.tlsa = EvidenceState::Unavailable;
    status.evidence.dane = EvidenceState::NotAttempted;
    let status = BrowserStatus::new(status).unwrap();
    assert_eq!(status.authority_state(), AuthorityState::Active);
    assert_eq!(status.evidence().dane, EvidenceState::NotAttempted);
    assert_eq!(
        status.icann_tls_action(),
        Some(IcannTlsAction::WebPkiAuthenticatedAbsence)
    );
}

#[test]
fn bogus_icann_evidence_is_explicitly_fail_closed() {
    let mut evidence = ValidationEvidence::not_attempted();
    evidence.dnssec = EvidenceState::Failed;
    let mut status = failed_icann_input(
        RootFailureKind::BogusDnssec,
        Some(IcannDnssecStatus::Bogus),
        evidence,
    );
    status.icann_tls_action = None;
    assert_eq!(BrowserStatus::new(status.clone()).err(), Some(StatusError::InvalidIcannTlsContext));
    status.icann_tls_action = Some(IcannTlsAction::FailClosed);
    status.actual_transport = ResolutionTransport::Unavailable;
    assert_eq!(BrowserStatus::new(status.clone()).err(), Some(StatusError::InvalidIcannTlsContext));
    status.actual_transport = ResolutionTransport::ValidatingIcannDoh;
    let status = BrowserStatus::new(status).unwrap();
    assert_eq!(status.namespace_outcome(), None);
    assert_eq!(status.selected_namespace(), None);
    assert_eq!(
        status.icann_root_failure(),
        Some(RootFailureKind::BogusDnssec)
    );
    assert_eq!(status.icann_tls_action(), Some(IcannTlsAction::FailClosed));
    assert_ne!(status.evidence().dnssec, EvidenceState::Unavailable);
}

#[test]
fn indeterminate_icann_dnssec_remains_explicitly_fail_closed() {
    let mut evidence = ValidationEvidence::not_attempted();
    evidence.dnssec = EvidenceState::Unavailable;
    evidence.tlsa = EvidenceState::Unavailable;
    evidence.dane = EvidenceState::Unavailable;
    let status = failed_icann_input(
        RootFailureKind::IndeterminateDnssec,
        Some(IcannDnssecStatus::Indeterminate),
        evidence,
    );
    let status = BrowserStatus::new(status).unwrap();
    assert_eq!(status.evidence().dnssec, EvidenceState::Unavailable);
    assert_eq!(status.icann_tls_action(), Some(IcannTlsAction::FailClosed));
}

#[test]
fn hns_only_root_failure_clears_transport_provenance() {
    let mut status = input();
    status.chain_anchor = None;
    status.identities = TransportIdentities::default();
    status.registry_fingerprint = [0; 32];
    status.protocol_version = 0;
    status.evidence = ValidationEvidence::not_attempted();
    status.hns_root_failure = Some(RootFailureKind::StaleHnsAnchor);
    status.actual_transport = ResolutionTransport::DirectAuthoritativeTcp;
    assert_eq!(BrowserStatus::new(status.clone()).err(), Some(StatusError::InvalidNamespaceContext));
    status.actual_transport = ResolutionTransport::Unavailable;
    let status = BrowserStatus::new(status).unwrap();
    assert_eq!(status.actual_transport(), ResolutionTransport::Unavailable);
}

#[test]
fn post_selection_dane_failure_retains_the_namespace_outcome() {
    let mut status = icann_input(IcannTlsAction::FailClosed);
    status.evidence.dnssec = EvidenceState::Verified;
    status.evidence.tlsa = EvidenceState::Verified;
    status.evidence.dane = EvidenceState::Failed;
    let status = BrowserStatus::new(status).unwrap();
    assert_eq!(status.namespace_outcome(), Some(OutcomeKind::IcannOnly));
    assert_eq!(status.selected_namespace(), Some(Namespace::Icann));
    assert_eq!(status.icann_root_failure(), None);
    assert_eq!(
        status.icann_dnssec_status(),
        Some(IcannDnssecStatus::Secure)
    );
}

#[test]
fn stale_revoked_and_not_attempted_icann_evidence_can_fail_closed() {
    for (failure, evidence) in [
        (
            RootFailureKind::StaleEvidence,
            ValidationEvidence {
                dnssec: EvidenceState::Stale,
                tlsa: EvidenceState::Unavailable,
                dane: EvidenceState::Unavailable,
                ..ValidationEvidence::not_attempted()
            },
        ),
        (
            RootFailureKind::Cancelled,
            ValidationEvidence {
                dnssec: EvidenceState::Unavailable,
                tlsa: EvidenceState::Revoked,
                dane: EvidenceState::Unavailable,
                ..ValidationEvidence::not_attempted()
            },
        ),
        (
            RootFailureKind::Cancelled,
            ValidationEvidence::not_attempted(),
        ),
    ] {
        let status = failed_icann_input(failure, None, evidence);
        let status = BrowserStatus::new(status).unwrap();
        assert_eq!(status.icann_tls_action(), Some(IcannTlsAction::FailClosed));
    }
}

#[test]
fn icann_tls_actions_cannot_reinterpret_failure_or_fallback_evidence() {
    let mut authenticated_absence = icann_input(IcannTlsAction::WebPkiAuthenticatedAbsence);
    authenticated_absence.evidence.dnssec = EvidenceState::Verified;
    authenticated_absence.evidence.tlsa = EvidenceState::Unavailable;
    authenticated_absence.evidence.dane = EvidenceState::NotAttempted;
    BrowserStatus::new(authenticated_absence.clone()).unwrap();

    let mut indeterminate = authenticated_absence.clone();
    indeterminate.evidence.dnssec = EvidenceState::Unavailable;
    indeterminate.evidence.dane = EvidenceState::Unavailable;
    assert_eq!(BrowserStatus::new(indeterminate.clone()).err(), Some(StatusError::InvalidIcannTlsContext));
    indeterminate.icann_tls_action = Some(IcannTlsAction::FailClosed);
    assert_eq!(BrowserStatus::new(indeterminate).err(), Some(StatusError::InvalidIcannTlsContext));

    let mut failure_as_fallback = authenticated_absence.clone();
    failure_as_fallback.evidence.dnssec = EvidenceState::Failed;
    assert_eq!(BrowserStatus::new(failure_as_fallback).err(), Some(StatusError::InvalidIcannTlsContext));

    let mut fallback_as_failure = authenticated_absence.clone();
    fallback_as_failure.icann_tls_action = Some(IcannTlsAction::FailClosed);
    assert_eq!(BrowserStatus::new(fallback_as_failure).err(), Some(StatusError::InvalidIcannTlsContext));

    let mut absence_as_insecure = authenticated_absence;
    absence_as_insecure.icann_tls_action = Some(IcannTlsAction::WebPkiInsecureDelegation);
    assert_eq!(BrowserStatus::new(absence_as_insecure).err(), Some(StatusError::InvalidIcannTlsContext));

    let mut dane = icann_input(IcannTlsAction::EnforceDane);
    dane.evidence.dnssec = EvidenceState::Verified;
    dane.evidence.tlsa = EvidenceState::Verified;
    dane.evidence.dane = EvidenceState::Verified;
    BrowserStatus::new(dane.clone()).unwrap();
    let mut dane_as_failure = dane.clone();
    dane_as_failure.icann_tls_action = Some(IcannTlsAction::FailClosed);
    assert_eq!(BrowserStatus::new(dane_as_failure).err(), Some(StatusError::InvalidIcannTlsContext));
    dane.evidence.dane = EvidenceState::Unavailable;
    assert_eq!(BrowserStatus::new(dane).err(), Some(StatusError::InvalidIcannTlsContext));

    let mut insecure = icann_input(IcannTlsAction::WebPkiInsecureDelegation);
    insecure.evidence.dnssec = EvidenceState::Verified;
    insecure.evidence.tlsa = EvidenceState::Unavailable;
    insecure.evidence.dane = EvidenceState::Unavailable;
    BrowserStatus::new(insecure.clone()).unwrap();
    insecure.icann_tls_action = Some(IcannTlsAction::WebPkiAuthenticatedAbsence);
    assert_eq!(BrowserStatus::new(insecure).err(), Some(StatusError::InvalidIcannTlsContext));
}

#[test]
fn reports_divergent_root_selection_without_hostname_data() {
    let mut status = input();
    status.namespace_outcome = Some(OutcomeKind::BothDivergent);
    status.selected_namespace = Some(Namespace::Hns);
    status.selection_reason = Some(SelectionReason::ExplicitPin);
    status.decision_fingerprint = Some([12; 32]);
    status.icann_tls_action = None;
    let status = BrowserStatus::new(status).unwrap();
    assert_eq!(status.namespace_outcome(), Some(OutcomeKind::BothDivergent));
    assert_eq!(status.selected_namespace(), Some(Namespace::Hns));
    assert_eq!(
        status.selection_reason(),
        Some(SelectionReason::ExplicitPin)
    );
}

#[test]
fn selected_icann_cleartext_may_omit_tls_action() {
    let mut status = icann_input(IcannTlsAction::FailClosed);
    status.icann_tls_action = None;
    status.evidence = ValidationEvidence::not_attempted();
    status.evidence.dnssec = EvidenceState::Verified;
    BrowserStatus::new(status).unwrap();
}

#[test]
fn selected_icann_cleartext_still_requires_validated_dnssec() {
    for dnssec in [
        EvidenceState::Failed,
        EvidenceState::Unavailable,
        EvidenceState::Unsupported,
        EvidenceState::NotAttempted,
        EvidenceState::Stale,
        EvidenceState::Revoked,
    ] {
        let mut status = icann_input(IcannTlsAction::FailClosed);
        status.icann_tls_action = None;
        status.evidence = ValidationEvidence::not_attempted();
        status.evidence.dnssec = dnssec;
        assert_eq!(BrowserStatus::new(status).err(), Some(StatusError::InvalidIcannTlsContext));
    }
}

#[test]
fn namespace_selection_reason_matrix_matches_the_classifier() {
    let outcomes = [
        OutcomeKind::HnsOnly,
        OutcomeKind::IcannOnly,
        OutcomeKind::BothConvergent,
        OutcomeKind::BothDivergent,
        OutcomeKind::Neither,
    ];
    let selections = [None, Some(Namespace::Hns), Some(Namespace::Icann)];
    let reasons = [
        None,
        Some(SelectionReason::SingleRoot),
        Some(SelectionReason::ExplicitPin),
        Some(SelectionReason::StickyBinding),
        Some(SelectionReason::IcannDefault),
    ];

    for outcome in outcomes {
        for selected in selections {
            for reason in reasons {
                let expected = matches!(
                    (outcome, selected, reason),
                    (OutcomeKind::Neither, None, None)
                        | (
                            OutcomeKind::HnsOnly,
                            Some(Namespace::Hns),
                            Some(
                                SelectionReason::SingleRoot
                                    | SelectionReason::ExplicitPin
                                    | SelectionReason::StickyBinding,
                            ),
                        )
                        | (
                            OutcomeKind::IcannOnly,
                            Some(Namespace::Icann),
                            Some(
                                SelectionReason::SingleRoot
                                    | SelectionReason::ExplicitPin
                                    | SelectionReason::StickyBinding,
                            ),
                        )
                        | (
                            OutcomeKind::BothConvergent | OutcomeKind::BothDivergent,
                            Some(Namespace::Hns),
                            Some(SelectionReason::ExplicitPin | SelectionReason::StickyBinding),
                        )
                        | (
                            OutcomeKind::BothConvergent | OutcomeKind::BothDivergent,
                            Some(Namespace::Icann),
                            Some(
                                SelectionReason::ExplicitPin
                                    | SelectionReason::StickyBinding
                                    | SelectionReason::IcannDefault,
                            ),
                        )
                );
                assert_eq!(
                    valid_namespace_selection(Some(outcome), selected, reason),
                    expected,
                    "unexpected selection matrix result for {outcome:?}, {selected:?}, {reason:?}"
                );
            }
        }
    }
}

#[test]
fn namespace_decision_fields_are_structurally_bound() {
    let mut status = input();
    status.namespace_outcome = Some(OutcomeKind::IcannOnly);
    status.selected_namespace = Some(Namespace::Hns);
    status.selection_reason = Some(SelectionReason::SingleRoot);
    status.decision_fingerprint = Some([13; 32]);
    assert_eq!(BrowserStatus::new(status).err(), Some(StatusError::InvalidNamespaceContext));

    let mut status = input();
    status.namespace_outcome = Some(OutcomeKind::Neither);
    status.decision_fingerprint = Some([0; 32]);
    assert_eq!(BrowserStatus::new(status).err(), Some(StatusError::InvalidDecisionFingerprint));

    let mut status = input();
    status.namespace_outcome = Some(OutcomeKind::Neither);
    status.selected_namespace = None;
    status.selection_reason = None;
    status.decision_fingerprint = Some([15; 32]);
    assert_eq!(BrowserStatus::new(status).err(), Some(StatusError::InvalidNamespaceContext));

    let mut status = input();
    status.namespace_outcome = Some(OutcomeKind::BothDivergent);
    status.selected_namespace = Some(Namespace::Hns);
    status.selection_reason = Some(SelectionReason::ExplicitPin);
    status.decision_fingerprint = Some([14; 32]);
    status.icann_tls_action = Some(IcannTlsAction::FailClosed);
    assert_eq!(BrowserStatus::new(status).err(), Some(StatusError::InvalidIcannTlsContext));
}

#[test]
fn statuses_need_a_generation() {
    let status = BrowserStatus::new(input()).unwrap();
    assert_eq!(status.schema_version(), 2);
    let mut zero = input();
    zero.runtime.generation = 0;
    assert_eq!(
        BrowserStatus::new(zero).err(),
        Some(StatusError::InvalidGeneration)
    );
}

#[test]
fn stable_codes_do_not_change() {
    assert_eq!(ReadinessState::Revoked.code(), 5);
    assert_eq!(DegradedReason::ProviderUnavailable.code(), 9);
    assert_eq!(RevocationReason::Stopped.code(), 6);
    assert_eq!(IcannTlsAction::FailClosed.code(), 4);
    assert_eq!(EvidenceKind::HnsProof.code(), 0);
    assert_eq!(
        StatusError::InvalidRateLimit.message(),
        "invalid rate-limit state"
    );
}
