use hns_browser::host::NormalizedHost;
use hns_browser::tls::{
    HandshakeIo, HandshakeStage, HandshakeStart, LocalHandshake, TlsTerminationError,
    HTTP_1_1_ALPN,
};
use rustls::pki_types::{CertificateDer, PrivateKeyDer, PrivatePkcs8KeyDer, ServerName};
use rustls::{ClientConfig, ClientConnection, RootCertStore, ServerConfig, ServerConnection};
use std::sync::Arc;

const EXPECTED_HOST: &str = "tls.welcome";
const OTHER_HOST: &str = "other.welcome";

struct TestConfigs {
    server: Arc<ServerConfig>,
    certificate: CertificateDer<'static>,
}

type HandshakeResult = (
    Result<Option<Vec<u8>>, TlsTerminationError>,
    Result<Option<Vec<u8>>, ()>,
);

fn test_configs() -> TestConfigs {
    let rcgen::CertifiedKey { cert, signing_key } = rcgen::generate_simple_self_signed(vec![
        EXPECTED_HOST.to_owned(),
        OTHER_HOST.to_owned(),
    ])
    .unwrap();
    let certificate = CertificateDer::from(cert.der().to_vec());
    let private_key = PrivateKeyDer::from(PrivatePkcs8KeyDer::from(signing_key.serialize_der()));
    let mut server =
        ServerConfig::builder_with_provider(Arc::new(rustls::crypto::ring::default_provider()))
            .with_safe_default_protocol_versions()
            .unwrap()
            .with_no_client_auth()
            .with_single_cert(vec![certificate.clone()], private_key)
            .unwrap();
    server.alpn_protocols = vec![HTTP_1_1_ALPN.as_bytes().to_vec()];
    TestConfigs {
        server: Arc::new(server),
        certificate,
    }
}

fn client_config(
    certificate: CertificateDer<'static>,
    alpn_protocols: &[&[u8]],
    enable_sni: bool,
) -> Arc<ClientConfig> {
    let mut roots = RootCertStore::empty();
    roots.add(certificate).unwrap();
    let mut config =
        ClientConfig::builder_with_provider(Arc::new(rustls::crypto::ring::default_provider()))
            .with_safe_default_protocol_versions()
            .unwrap()
            .with_root_certificates(roots)
            .with_no_client_auth();
    config.alpn_protocols = alpn_protocols.iter().map(|value| value.to_vec()).collect();
    config.enable_sni = enable_sni;
    Arc::new(config)
}

/// The server side of a handshake whose flights are exchanged in memory.
fn accept(
    server: &mut ServerConnection,
    client: &mut ClientConnection,
    refused: &mut bool,
) -> Result<Option<Vec<u8>>, TlsTerminationError> {
    let mut handshake = LocalHandshake::new(NormalizedHost::parse(EXPECTED_HOST).ok().unwrap());
    handshake.start(HandshakeStart {
        cancelled: false,
        deadline: true,
        timeouts: true,
        connection: true,
        handshaking: server.is_handshaking(),
    })?;
    while server.is_handshaking() {
        let mut flight = Vec::new();
        client.write_tls(&mut flight).unwrap();
        let sent = flight.len();
        if sent > 0 {
            server.read_tls(&mut flight.as_slice()).unwrap();
        }
        let failed = server.process_new_packets().is_err();
        let mut answer = Vec::new();
        while server.wants_write() {
            server.write_tls(&mut answer).unwrap();
        }
        let mut rest = answer.as_slice();
        while !rest.is_empty() {
            client.read_tls(&mut rest).unwrap();
        }
        *refused |= client.process_new_packets().is_err();
        handshake.exchange(if failed {
            HandshakeIo::Failed {
                cancelled: false,
                late: false,
            }
        } else {
            HandshakeIo::Moved {
                any: sent + answer.len() > 0,
                handshaking: server.is_handshaking(),
            }
        })?;
    }
    let alpn = server.alpn_protocol().map(<[u8]>::to_vec);
    handshake.finish(false, false, server.server_name(), alpn.as_deref())?;
    handshake.restored(true)?;
    Ok(alpn)
}

fn run_handshake(
    configs: &TestConfigs,
    client: Arc<ClientConfig>,
    client_name: &str,
) -> HandshakeResult {
    let name = ServerName::try_from(client_name.to_owned()).unwrap();
    let mut client = ClientConnection::new(client, name).unwrap();
    let mut server = ServerConnection::new(Arc::clone(&configs.server)).unwrap();
    let mut refused = false;
    let accepted = accept(&mut server, &mut client, &mut refused);
    let completed = if refused || client.is_handshaking() {
        Err(())
    } else {
        Ok(client.alpn_protocol().map(<[u8]>::to_vec))
    };
    (accepted, completed)
}

#[test]
fn accepts_exact_normalized_sni_without_alpn() {
    let configs = test_configs();
    let client = client_config(configs.certificate.clone(), &[], true);

    let (server, client) = run_handshake(&configs, client, EXPECTED_HOST);

    assert_eq!(server, Ok(None));
    assert_eq!(client, Ok(None));
}

#[test]
fn rejects_wrong_and_missing_sni_after_the_tls_handshake() {
    let configs = test_configs();
    let wrong_client = client_config(configs.certificate.clone(), &[], true);
    let (wrong_server, wrong_client) = run_handshake(&configs, wrong_client, OTHER_HOST);
    assert_eq!(wrong_client, Ok(None));
    assert_eq!(wrong_server, Err(TlsTerminationError::ServerNameRejected));

    let missing_client = client_config(configs.certificate.clone(), &[], false);
    let (missing_server, missing_client) = run_handshake(&configs, missing_client, EXPECTED_HOST);
    assert_eq!(missing_client, Ok(None));
    assert_eq!(missing_server, Err(TlsTerminationError::ServerNameRejected));
}

#[test]
fn prefers_http1_when_the_client_also_offers_h2() {
    let configs = test_configs();
    let alpn = HTTP_1_1_ALPN.as_bytes();
    let client = client_config(configs.certificate.clone(), &[b"h2", alpn], true);

    let (server, client) = run_handshake(&configs, client, EXPECTED_HOST);

    assert_eq!(server, Ok(Some(alpn.to_vec())));
    assert_eq!(client, Ok(Some(alpn.to_vec())));
}

#[test]
fn rejects_h2_only_during_tls_negotiation() {
    let configs = test_configs();
    let client = client_config(configs.certificate.clone(), &[b"h2"], true);

    let (server, client) = run_handshake(&configs, client, EXPECTED_HOST);

    assert_eq!(server, Err(TlsTerminationError::HandshakeFailed));
    assert!(client.is_err());
}

#[test]
fn failures_are_told_apart() {
    let start = HandshakeStart {
        cancelled: false,
        deadline: true,
        timeouts: true,
        connection: true,
        handshaking: true,
    };
    let fresh = || LocalHandshake::new(NormalizedHost::parse(EXPECTED_HOST).ok().unwrap());
    for (case, error) in [
        (
            HandshakeStart {
                deadline: false,
                ..start
            },
            TlsTerminationError::TimedOut,
        ),
        (
            HandshakeStart {
                timeouts: false,
                ..start
            },
            TlsTerminationError::Socket,
        ),
        (
            HandshakeStart {
                connection: false,
                ..start
            },
            TlsTerminationError::HandshakeFailed,
        ),
    ] {
        assert_eq!(fresh().start(case), Err(error));
    }
    for (cancelled, late, error) in [
        (true, true, TlsTerminationError::Cancelled),
        (false, true, TlsTerminationError::TimedOut),
        (false, false, TlsTerminationError::HandshakeFailed),
    ] {
        let mut handshake = fresh();
        handshake.start(start).unwrap();
        assert_eq!(
            handshake.exchange(HandshakeIo::Failed { cancelled, late }),
            Err(error)
        );
    }
    let mut handshake = fresh();
    handshake
        .start(HandshakeStart {
            handshaking: false,
            ..start
        })
        .unwrap();
    assert_eq!(
        handshake.finish(false, true, Some(EXPECTED_HOST), None),
        Err(TlsTerminationError::TimedOut)
    );
}

#[test]
fn a_session_that_still_shakes_hands_is_not_used() {
    let start = HandshakeStart {
        cancelled: false,
        deadline: true,
        timeouts: true,
        connection: true,
        handshaking: true,
    };
    for handshaking in [true, false] {
        let mut handshake =
            LocalHandshake::new(NormalizedHost::parse(EXPECTED_HOST).ok().unwrap());
        handshake.start(start).unwrap();
        handshake
            .exchange(HandshakeIo::Moved {
                any: true,
                handshaking,
            })
            .unwrap();
        let finished = handshake.finish(false, false, Some(EXPECTED_HOST), None);
        if handshaking {
            assert_eq!(finished, Err(TlsTerminationError::HandshakeFailed));
            assert_eq!(handshake.stage(), HandshakeStage::Failed);
        } else {
            assert_eq!(finished, Ok(()));
            assert_eq!(handshake.restored(true), Ok(()));
            assert_eq!(handshake.stage(), HandshakeStage::Established);
        }
    }
}
