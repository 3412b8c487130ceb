use hns_browser::certificate::{
    allows_sni, CertificateError, LocalCertificateAuthority, LocalCertificateAuthorityError,
    LocalCertificatePin, LocalTlsIdentityStore, PrepareStep, MAX_CACHED_IDENTITIES,
    MAX_PRESENTED_CERTIFICATE_DER_BYTES,
};
use hns_browser::host::NormalizedHost;
use hns_browser::instance::{ProxyInstanceId, ProxySessionId};
use hns_browser::issuing::{
    accept_identity, authority_at, generate_identity, leaf_at, signed_material, IssuedIdentity,
};
use rcgen::PublicKeyData;
use rustls::client::danger::{HandshakeSignatureValid, ServerCertVerified, ServerCertVerifier};
use rustls::pki_types::{
    CertificateDer, PrivateKeyDer, PrivatePkcs8KeyDer, ServerName, UnixTime,
};
use rustls::server::{ClientHello, ResolvesServerCert};
use rustls::sign::CertifiedKey;
use rustls::{
    ClientConfig, ClientConnection, DigitallySignedStruct, Error as RustlsError, ServerConfig,
    ServerConnection, SignatureScheme, SupportedProtocolVersion,
};
use std::sync::atomic::{AtomicBool, Ordering};
use std::sync::Arc;

type Store = LocalTlsIdentityStore<IssuedIdentity>;

fn instance(generation: u64) -> ProxyInstanceId {
    ProxyInstanceId::new(ProxySessionId::generate().unwrap(), generation)
}

fn host(name: &str) -> NormalizedHost {
    NormalizedHost::parse(name).unwrap()
}

fn prepare_with(
    store: &mut Store,
    host: &NormalizedHost,
    authority: Option<&LocalCertificateAuthority>,
) -> Result<usize, CertificateError> {
    match store.prepare(host)? {
        PrepareStep::Cached { index } => Ok(index),
        PrepareStep::Generate => {
            let identity = generate_identity(store.instance().copy(), host.clone(), authority)?;
            let pin = identity.pin.copy();
            store.commit(host.clone(), pin, identity)
        }
    }
}

fn prepare(store: &mut Store, host: &NormalizedHost) -> Result<usize, CertificateError> {
    prepare_with(store, host, None)
}

fn prepare_and_release(store: &mut Store, host: &NormalizedHost) {
    prepare(store, host).unwrap();
    store.release(host);
}

fn pin_at(store: &Store, index: usize) -> LocalCertificatePin {
    store.identity(index).pin.copy()
}

#[test]
fn identities_are_fresh_across_stores_and_reused_within_one_store() {
    let shared_instance = instance(7);
    let mut first: Store = LocalTlsIdentityStore::new(shared_instance.copy());
    let mut second: Store = LocalTlsIdentityStore::new(shared_instance);
    let canonical = host("WELCOME.");
    let equivalent = host("welcome");

    let first_lease = prepare(&mut first, &canonical).unwrap();
    let reused_lease = prepare(&mut first, &equivalent).unwrap();
    let second_lease = prepare(&mut second, &equivalent).unwrap();

    assert_eq!(first_lease, reused_lease);
    assert!(pin_at(&first, first_lease).same(&pin_at(&first, reused_lease)));
    assert!(!pin_at(&first, first_lease)
        .certificate_sha256()
        .same(pin_at(&second, second_lease).certificate_sha256()));
    assert!(pin_at(&first, first_lease).host().same(&equivalent));
    assert_eq!(first.entry_count(), 1);
}

#[test]
fn pins_match_only_the_exact_host_certificate_and_active_generation() {
    let mut store: Store = LocalTlsIdentityStore::new(instance(11));
    let welcome = host("welcome");
    let subdomain = host("www.welcome");
    let lease = prepare(&mut store, &welcome).unwrap();
    let certificate_der = store.identity(lease).certificate_der.clone();

    assert!(pin_at(&store, lease).matches_der(&certificate_der));
    assert!(store.matches_der(&welcome, &certificate_der));
    assert!(!store.matches_der(&subdomain, &certificate_der));
    assert!(!store.matches_der(&welcome, b"not the certificate"));
    assert!(!store.matches_der(
        &welcome,
        &vec![0_u8; MAX_PRESENTED_CERTIFICATE_DER_BYTES + 1]
    ));

    store.deactivate();
    assert_eq!(store.entry_count(), 0);
    assert!(store.pin(&welcome).is_none());
    assert!(!store.matches_der(&welcome, &certificate_der));
    assert!(matches!(
        store.prepare(&welcome),
        Err(CertificateError::Inactive)
    ));
}

fn public_key_information(private_key_der: &[u8]) -> Vec<u8> {
    let key = PrivatePkcs8KeyDer::from(private_key_der.to_vec());
    rcgen::KeyPair::from_pkcs8_der_and_sign_algo(&key, &rcgen::PKCS_ECDSA_P256_SHA256)
        .unwrap()
        .subject_public_key_info()
}

#[test]
fn local_ca_material_round_trips_and_rejects_a_mismatched_key() {
    let generated = LocalCertificateAuthority::generate().unwrap();
    let authority = generated.authority();
    let certificate_spki = public_key_information(generated.private_key_der());
    let reloaded = LocalCertificateAuthority::from_der(
        authority.certificate_der().to_vec(),
        generated.private_key_der(),
        Some(certificate_spki.clone()),
    )
    .unwrap();
    assert!(authority.same(&reloaded));
    assert_eq!(
        authority.certificate_sha256_hex(),
        reloaded.certificate_sha256_hex()
    );
    assert!(authority
        .certificate_pem()
        .starts_with("-----BEGIN CERTIFICATE-----\n"));
    assert!(authority
        .certificate_pem()
        .ends_with("-----END CERTIFICATE-----\n"));

    let other = LocalCertificateAuthority::generate().unwrap();
    assert_eq!(
        LocalCertificateAuthority::from_der(
            authority.certificate_der().to_vec(),
            other.private_key_der(),
            Some(certificate_spki),
        )
        .err(),
        Some(LocalCertificateAuthorityError::KeyMismatch)
    );
}

#[test]
fn authority_digests_are_those_of_the_certificate() {
    let generated = LocalCertificateAuthority::generate().unwrap();
    let authority = generated.authority();
    let sha256 = ring::digest::digest(&ring::digest::SHA256, authority.certificate_der());
    let sha1 = ring::digest::digest(
        &ring::digest::SHA1_FOR_LEGACY_USE_ONLY,
        authority.certificate_der(),
    );
    let hex = |bytes: &[u8]| {
        let mut out = String::new();
        for byte in bytes {
            out.push_str(&format!("{byte:02x}"));
        }
        out
    };
    assert_eq!(authority.certificate_sha256_hex(), hex(sha256.as_ref()));
    assert_eq!(authority.certificate_sha1_hex(), hex(sha1.as_ref()));
}

#[test]
fn authority_material_is_checked_for_its_size() {
    assert_eq!(
        LocalCertificateAuthority::from_der(Vec::new(), b"key", None).err(),
        Some(LocalCertificateAuthorityError::InvalidCertificateSize)
    );
    assert_eq!(
        LocalCertificateAuthority::from_der(b"certificate".to_vec(), b"", None).err(),
        Some(LocalCertificateAuthorityError::InvalidPrivateKeySize)
    );
    assert_eq!(
        LocalCertificateAuthority::from_der(b"certificate".to_vec(), b"not a key", None).err(),
        Some(LocalCertificateAuthorityError::InvalidPrivateKey)
    );
    let long = vec![0; MAX_PRESENTED_CERTIFICATE_DER_BYTES + 1];
    assert_eq!(
        LocalCertificateAuthority::from_der(long.clone(), b"key", None).err(),
        Some(LocalCertificateAuthorityError::InvalidCertificateSize)
    );
    assert_eq!(
        LocalCertificateAuthority::from_der(b"certificate".to_vec(), &long, None).err(),
        Some(LocalCertificateAuthorityError::InvalidPrivateKeySize)
    );
}

#[test]
fn authority_material_needs_an_issuer_certificate() {
    let generated = LocalCertificateAuthority::generate().unwrap();
    let key = generated.private_key_der();
    let information = public_key_information(key);
    assert_eq!(
        LocalCertificateAuthority::from_der(
            generated.authority().certificate_der().to_vec(),
            key,
            None
        )
        .err(),
        Some(LocalCertificateAuthorityError::InvalidCertificate)
    );
    assert_eq!(
        LocalCertificateAuthority::from_der(b"certificate".to_vec(), key, Some(information)).err(),
        Some(LocalCertificateAuthorityError::InvalidCertificate)
    );
}

#[test]
fn ca_signed_leaf_validates_for_only_its_exact_host() {
    let generated = LocalCertificateAuthority::generate().unwrap();
    let authority = generated.authority();
    let mut store: Store = LocalTlsIdentityStore::new(instance(19));
    let welcome = host("welcome");
    let lease = prepare_with(&mut store, &welcome, Some(authority)).unwrap();
    let config = server_config(
        store.identity(lease),
        &Arc::new(AtomicBool::new(true)),
        &welcome,
    );

    assert_eq!(
        trusted_handshake(
            Arc::clone(&config),
            "welcome",
            &rustls::version::TLS13,
            authority,
        )
        .unwrap(),
        Some(b"http/1.1".to_vec())
    );
    assert!(trusted_handshake(
        config,
        "other.welcome",
        &rustls::version::TLS13,
        authority,
    )
    .is_err());
}

#[test]
fn diagnostics_redact_hosts_generation_tokens_and_fingerprints() {
    let mut store: Store = LocalTlsIdentityStore::new(instance(23));
    let private_host = host("private-history.welcome");
    let lease = prepare(&mut store, &private_host).unwrap();
    let pin = pin_at(&store, lease);
    let pin_debug = pin.describe().to_owned();
    let digest_debug = pin.certificate_sha256().describe().to_owned();
    let store_debug = store.describe(false);

    for diagnostic in [pin_debug, digest_debug, store_debug] {
        assert!(!diagnostic.contains(private_host.as_str()));
        assert!(!diagnostic.contains(store.instance().session().as_str()));
        assert!(diagnostic.contains("REDACTED") || diagnostic.contains("entry_count"));
    }
}

#[test]
fn cache_evicts_the_least_recent_idle_identity_only() {
    let mut store: Store = LocalTlsIdentityStore::new(instance(31));
    let hosts: Vec<_> = (0..MAX_CACHED_IDENTITIES)
        .map(|index| host(&format!("host-{index}.welcome")))
        .collect();
    for candidate in &hosts {
        prepare_and_release(&mut store, candidate);
    }
    assert_eq!(store.entry_count(), MAX_CACHED_IDENTITIES);

    // Refresh the oldest entry so the second-created entry becomes LRU.
    prepare_and_release(&mut store, &hosts[0]);
    let replacement = host("replacement.welcome");
    prepare_and_release(&mut store, &replacement);

    assert_eq!(store.entry_count(), MAX_CACHED_IDENTITIES);
    assert!(store.pin(&hosts[0]).is_some());
    assert!(store.pin(&hosts[1]).is_none());
    assert!(store.pin(&replacement).is_some());
}

#[test]
fn cache_fails_closed_when_every_identity_is_leased() {
    let mut store: Store = LocalTlsIdentityStore::new(instance(37));
    let hosts: Vec<_> = (0..MAX_CACHED_IDENTITIES)
        .map(|index| host(&format!("leased-{index}.welcome")))
        .collect();
    for candidate in &hosts {
        prepare(&mut store, candidate).unwrap();
    }
    let extra = host("extra.welcome");

    assert!(matches!(
        store.prepare(&extra),
        Err(CertificateError::CapacityExhausted)
    ));
    assert_eq!(store.entry_count(), MAX_CACHED_IDENTITIES);

    store.release(&hosts[0]);
    assert!(prepare(&mut store, &extra).is_ok());
    assert_eq!(store.entry_count(), MAX_CACHED_IDENTITIES);
}

#[test]
fn eviction_skips_a_retained_lru_lease_then_deactivation_revokes_it() {
    let mut store: Store = LocalTlsIdentityStore::new(instance(39));
    let hosts: Vec<_> = (0..MAX_CACHED_IDENTITIES)
        .map(|index| host(&format!("lease-aware-{index}.welcome")))
        .collect();
    let retained_lru = prepare(&mut store, &hosts[0]).unwrap();
    let retained_certificate_der = store.identity(retained_lru).certificate_der.clone();
    let retained_pin = pin_at(&store, retained_lru);
    for candidate in &hosts[1..] {
        prepare_and_release(&mut store, candidate);
    }

    let replacement = host("lease-aware-replacement.welcome");
    prepare_and_release(&mut store, &replacement);

    assert_eq!(store.entry_count(), MAX_CACHED_IDENTITIES);
    assert!(store.pin(&hosts[0]).unwrap().same(&retained_pin));
    assert!(store.pin(&hosts[1]).is_none());
    assert!(store.pin(&replacement).is_some());
    assert!(store.matches_der(&hosts[0], &retained_certificate_der));

    store.deactivate();

    assert_eq!(store.entry_count(), 0);
    assert!(retained_pin.matches_der(&retained_certificate_der));
    assert!(!store.matches_der(&hosts[0], &retained_certificate_der));
    assert!(!allows_sni(
        store.is_active(),
        Some(hosts[0].as_str()),
        &hosts[0]
    ));
}

#[test]
fn resolver_requires_exact_canonical_sni_and_supports_tls12_tls13_http11() {
    let mut store: Store = LocalTlsIdentityStore::new(instance(41));
    let welcome = host("welcome");
    let lease = prepare(&mut store, &welcome).unwrap();
    let active = Arc::new(AtomicBool::new(store.is_active()));
    let config = server_config(store.identity(lease), &active, &welcome);
    assert!(!config.session_storage.can_cache());
    assert_eq!(config.send_tls13_tickets, 0);

    for version in [&rustls::version::TLS12, &rustls::version::TLS13] {
        assert_eq!(
            handshake(Arc::clone(&config), "welcome", version, true).unwrap(),
            Some(b"http/1.1".to_vec())
        );
    }
    assert_eq!(
        handshake(
            Arc::clone(&config),
            "WELCOME.",
            &rustls::version::TLS13,
            true,
        )
        .unwrap(),
        Some(b"http/1.1".to_vec())
    );
    assert!(handshake(
        Arc::clone(&config),
        "other.welcome",
        &rustls::version::TLS13,
        true
    )
    .is_err());
    assert!(handshake(
        Arc::clone(&config),
        "welcome",
        &rustls::version::TLS13,
        false
    )
    .is_err());

    store.deactivate();
    active.store(store.is_active(), Ordering::Release);
    assert!(handshake(config, "welcome", &rustls::version::TLS13, true).is_err());
}

#[derive(Debug)]
struct ExactSni {
    active: Arc<AtomicBool>,
    expected: String,
    key: Arc<CertifiedKey>,
}

impl ResolvesServerCert for ExactSni {
    fn resolve(&self, hello: ClientHello<'_>) -> Option<Arc<CertifiedKey>> {
        let expected = NormalizedHost::parse(&self.expected).ok()?;
        if allows_sni(self.active.load(Ordering::Acquire), hello.server_name(), &expected) {
            Some(Arc::clone(&self.key))
        } else {
            None
        }
    }
}

fn server_config(
    identity: &IssuedIdentity,
    active: &Arc<AtomicBool>,
    expected: &NormalizedHost,
) -> Arc<ServerConfig> {
    let key = PrivateKeyDer::from(PrivatePkcs8KeyDer::from(identity.private_key_der.clone()));
    let signing = rustls::crypto::ring::sign::any_ecdsa_type(&key).unwrap();
    let certified = CertifiedKey::new(
        vec![CertificateDer::from(identity.certificate_der.clone())],
        signing,
    );
    let mut config =
        ServerConfig::builder_with_provider(Arc::new(rustls::crypto::ring::default_provider()))
            .with_protocol_versions(&[&rustls::version::TLS13, &rustls::version::TLS12])
            .unwrap()
            .with_no_client_auth()
            .with_cert_resolver(Arc::new(ExactSni {
                active: Arc::clone(active),
                expected: expected.as_str().to_owned(),
                key: Arc::new(certified),
            }));
    config.alpn_protocols = vec![b"http/1.1".to_vec()];
    config.session_storage = Arc::new(rustls::server::NoServerSessionStorage {});
    config.send_tls13_tickets = 0;
    Arc::new(config)
}

#[derive(Debug)]
struct AcceptCertificate;

impl ServerCertVerifier for AcceptCertificate {
    fn verify_server_cert(
        &self,
        _end_entity: &CertificateDer<'_>,
        _intermediates: &[CertificateDer<'_>],
        _server_name: &ServerName<'_>,
        _ocsp_response: &[u8],
        _now: UnixTime,
    ) -> Result<ServerCertVerified, RustlsError> {
        Ok(ServerCertVerified::assertion())
    }

    fn verify_tls12_signature(
        &self,
        message: &[u8],
        cert: &CertificateDer<'_>,
        signature: &DigitallySignedStruct,
    ) -> Result<HandshakeSignatureValid, RustlsError> {
        rustls::crypto::verify_tls12_signature(
            message,
            cert,
            signature,
            &rustls::crypto::ring::default_provider().signature_verification_algorithms,
        )
    }

    fn verify_tls13_signature(
        &self,
        message: &[u8],
        cert: &CertificateDer<'_>,
        signature: &DigitallySignedStruct,
    ) -> Result<HandshakeSignatureValid, RustlsError> {
        rustls::crypto::verify_tls13_signature(
            message,
            cert,
            signature,
            &rustls::crypto::ring::default_provider().signature_verification_algorithms,
        )
    }

    fn supported_verify_schemes(&self) -> Vec<SignatureScheme> {
        rustls::crypto::ring::default_provider()
            .signature_verification_algorithms
            .supported_schemes()
    }
}

fn handshake(
    server_config: Arc<ServerConfig>,
    sni: &str,
    version: &'static SupportedProtocolVersion,
    send_sni: bool,
) -> Result<Option<Vec<u8>>, RustlsError> {
    let mut client_config =
        ClientConfig::builder_with_provider(Arc::new(rustls::crypto::ring::default_provider()))
            .with_protocol_versions(&[version])
            .unwrap()
            .dangerous()
            .with_custom_certificate_verifier(Arc::new(AcceptCertificate))
            .with_no_client_auth();
    client_config.enable_sni = send_sni;
    client_config.alpn_protocols = vec![b"http/1.1".to_vec()];
    handshake_with_client_config(server_config, sni, Arc::new(client_config))
}

fn trusted_handshake(
    server_config: Arc<ServerConfig>,
    sni: &str,
    version: &'static SupportedProtocolVersion,
    authority: &LocalCertificateAuthority,
) -> Result<Option<Vec<u8>>, RustlsError> {
    let mut roots = rustls::RootCertStore::empty();
    roots
        .add(CertificateDer::from(authority.certificate_der().to_vec()))
        .map_err(|error| RustlsError::General(error.to_string()))?;
    let mut client_config =
        ClientConfig::builder_with_provider(Arc::new(rustls::crypto::ring::default_provider()))
            .with_protocol_versions(&[version])
            .map_err(|error| RustlsError::General(error.to_string()))?
            .with_root_certificates(roots)
            .with_no_client_auth();
    client_config.alpn_protocols = vec![b"http/1.1".to_vec()];
    handshake_with_client_config(server_config, sni, Arc::new(client_config))
}

fn handshake_with_client_config(
    server_config: Arc<ServerConfig>,
    sni: &str,
    client_config: Arc<ClientConfig>,
) -> Result<Option<Vec<u8>>, RustlsError> {
    let server_name = ServerName::try_from(sni.to_owned()).unwrap();
    let mut client = ClientConnection::new(client_config, server_name)?;
    let mut server = ServerConnection::new(server_config)?;

    for _ in 0..32 {
        let mut client_wire = Vec::new();
        while client.wants_write() {
            client
                .write_tls(&mut client_wire)
                .map_err(|_| in_memory_io_error())?;
        }
        if !client_wire.is_empty() {
            server
                .read_tls(&mut client_wire.as_slice())
                .map_err(|_| in_memory_io_error())?;
            server.process_new_packets()?;
        }

        let mut server_wire = Vec::new();
        while server.wants_write() {
            server
                .write_tls(&mut server_wire)
                .map_err(|_| in_memory_io_error())?;
        }
        if !server_wire.is_empty() {
            client
                .read_tls(&mut server_wire.as_slice())
                .map_err(|_| in_memory_io_error())?;
            client.process_new_packets()?;
        }

        if !client.is_handshaking() && !server.is_handshaking() {
            return Ok(client.alpn_protocol().map(<[u8]>::to_vec));
        }
    }
    Err(RustlsError::General(
        "in-memory TLS handshake did not finish".to_owned(),
    ))
}

fn in_memory_io_error() -> RustlsError {
    RustlsError::General("in-memory TLS handshake I/O failed".to_owned())
}

#[test]
fn material_needs_a_key_and_its_certificate() {
    let key = || Some(b"key".to_vec());
    let certificate = || Some(b"certificate".to_vec());
    assert_eq!(
        signed_material(key(), certificate()),
        Some((b"certificate".to_vec(), b"key".to_vec()))
    );
    assert_eq!(signed_material(None, certificate()), None);
    assert_eq!(signed_material(key(), None), None);
    assert_eq!(signed_material(None, None), None);
}

#[test]
fn issued_leaves_carry_their_usages() {
    // id-ce-keyUsage with digitalSignature, and id-kp-serverAuth.
    let key_usage = [0x06, 0x03, 0x55, 0x1d, 0x0f];
    let server_auth = [0x06, 0x08, 0x2b, 0x06, 0x01, 0x05, 0x05, 0x07, 0x03, 0x01];
    let authority = LocalCertificateAuthority::generate().ok().unwrap();
    for authority in [None, Some(authority.authority())] {
        let leaf = generate_identity(instance(43), host("welcome"), authority)
            .ok()
            .unwrap()
            .certificate_der;
        assert!(leaf.windows(5).any(|part| part == key_usage));
        assert!(leaf.windows(10).any(|part| part == server_auth));
    }
}

/// The UTCTime of a moment as a certificate holds it.
fn utc_time(text: &str) -> Vec<u8> {
    let mut bytes = vec![0x17, 13];
    bytes.extend_from_slice(text.as_bytes());
    bytes
}

fn holds(certificate: &[u8], part: &[u8]) -> bool {
    certificate.windows(part.len()).any(|window| window == part)
}

// 2001-09-09 01:46:40 in universal time.
const MOMENT: i64 = 1_000_000_000;

#[test]
fn certificates_are_valid_around_their_moment() {
    let fresh = || {
        let identity = generate_identity(instance(44), host("welcome"), None);
        identity.ok().unwrap().private_key_der
    };
    let (authority, kept) = authority_at(Some(fresh()), MOMENT).unwrap();
    assert!(holds(&authority, &utc_time("010908014640Z")));
    let key = fresh();
    let (leaf, leaf_key) = leaf_at(&host("welcome"), None, Some(key.clone()), MOMENT).unwrap();
    assert_eq!(leaf_key, key);
    assert!(holds(&leaf, &utc_time("010909014140Z")));

    let information = public_key_information(&kept);
    let authority = LocalCertificateAuthority::from_der(authority, &kept, Some(information))
        .ok()
        .unwrap();
    let later = MOMENT + 3_600;
    let (leaf, _) = leaf_at(&host("welcome"), Some(&authority), Some(key), later).unwrap();
    assert!(holds(&leaf, &utc_time("010909024140Z")));
}

#[test]
fn no_certificate_is_made_without_a_key_or_a_moment() {
    let key = || {
        let identity = generate_identity(instance(45), host("welcome"), None);
        Some(identity.ok().unwrap().private_key_der)
    };
    assert_eq!(authority_at(None, MOMENT), None);
    assert_eq!(leaf_at(&host("welcome"), None, None, MOMENT), None);
    for moment in [i64::MIN, i64::MAX] {
        assert_eq!(authority_at(key(), moment), None);
        assert_eq!(leaf_at(&host("welcome"), None, key(), moment), None);
    }
    assert_eq!(authority_at(Some(b"key".to_vec()), MOMENT), None);
}

#[test]
fn identities_need_a_key_that_signs_for_them() {
    let accept = |material: Option<(Vec<u8>, Vec<u8>)>, signs: Option<bool>| {
        accept_identity(instance(46), host("welcome"), material, signs)
    };
    let material = || Some((b"certificate".to_vec(), b"key".to_vec()));
    let issued = accept(material(), Some(true)).ok().unwrap();
    assert_eq!(issued.certificate_der, b"certificate");
    assert_eq!(issued.private_key_der, b"key");
    for signs in [None, Some(false)] {
        assert_eq!(
            accept(material(), signs).err(),
            Some(CertificateError::SigningKey)
        );
    }
    let long = vec![0; MAX_PRESENTED_CERTIFICATE_DER_BYTES + 1];
    for material in [None, Some((long, b"key".to_vec()))] {
        assert_eq!(
            accept(material, Some(true)).err(),
            Some(CertificateError::CertificateGeneration)
        );
    }
}

#[test]
fn certificate_errors_have_stable_messages() {
    for (error, text) in [
        (
            CertificateError::Inactive,
            "the local TLS identity store is inactive",
        ),
        (
            CertificateError::CapacityExhausted,
            "the local TLS identity cache is full of active leases",
        ),
        (
            CertificateError::StoreUnavailable,
            "the local TLS identity store is unavailable",
        ),
        (
            CertificateError::CertificateGeneration,
            "unable to generate a local TLS certificate",
        ),
        (
            CertificateError::SigningKey,
            "unable to load the generated local TLS signing key",
        ),
        (
            CertificateError::ServerConfiguration,
            "unable to configure the local TLS server",
        ),
    ] {
        assert_eq!(error.message(), text);
    }
}
