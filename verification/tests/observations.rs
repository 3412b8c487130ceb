use hns_browser::addr::{parse_ip, IpAddr, Ipv4Addr, SocketAddr};
use hns_browser::auth::ProxyAuthorization;
use hns_browser::endpoint::ProxyEndpoint;
use hns_browser::event::{
    ObservedHost, ObservedHostError, ObservedMethod, ProxyEvent, ProxyObserver, RequestPhase,
    RequestRejectionReason,
};
use hns_browser::instance::{ProxyInstanceId, ProxySessionId};
use hns_browser::metadata::ProxyResponseMetadataObservation;
use hns_browser::response::{
    encode_response_head, encode_upgrade_response_head, sanitize_response_headers, ResponseError,
    MAX_RESPONSE_HEAD_BYTES,
};
use std::cell::RefCell;

#[test]
fn endpoint_exposes_capability_only_through_explicit_accessors() {
    let authorization = ProxyAuthorization::generate().unwrap();
    let realm = authorization.realm().to_owned();
    let password = authorization.password().to_owned();
    let endpoint = ProxyEndpoint::new(
        ProxyInstanceId::new(ProxySessionId::generate().unwrap(), 4),
        SocketAddr::new(IpAddr::V4(Ipv4Addr::new(127, 0, 0, 1)), 43123),
        authorization,
    );
    let debug = endpoint.describe();

    assert!(!debug.contains(endpoint.realm()));
    assert!(!debug.contains(endpoint.username()));
    assert!(!debug.contains(endpoint.password()));
    assert_eq!(endpoint.realm(), realm);
    assert_eq!(endpoint.password(), password);
    assert!(endpoint
        .authorization()
        .verify_header_value(&endpoint.authorization_header_value()));
    assert!(endpoint.matches_challenge("127.0.0.1", 43123, endpoint.realm()));
    assert!(!endpoint.matches_challenge("127.0.0.1", 43124, endpoint.realm()));
}

#[test]
fn observed_host_accepts_only_dns_host_syntax() {
    assert_eq!(
        ObservedHost::new("MiXeD.Example")
            .expect("valid host")
            .as_str(),
        "mixed.example"
    );
    for unsafe_host in [
        "user:pass@example",
        "example/path",
        "example?query",
        "example#fragment",
        "example:443",
        "example header",
        "example%2fpath",
    ] {
        assert!(ObservedHost::new(unsafe_host).is_err(), "{unsafe_host}");
    }
}

#[test]
fn unknown_method_does_not_retain_input() {
    assert_eq!(
        ObservedMethod::from_token("SECRET /path?query"),
        ObservedMethod::Other
    );
    assert_eq!(format!("{:?}", ObservedMethod::Other), "Other");
}

struct Recorder {
    events: RefCell<Vec<ProxyEvent>>,
}

impl ProxyObserver for Recorder {
    fn observe(&self, event: &ProxyEvent) {
        self.events.borrow_mut().push(event.clone());
    }
}

#[test]
fn observer_receives_typed_sanitized_event() {
    let observer = Recorder {
        events: RefCell::new(Vec::new()),
    };
    let event = ProxyEvent::Request {
        generation: 9,
        host: ObservedHost::new("example").expect("valid host"),
        method: ObservedMethod::Get,
        phase: RequestPhase::Rejected {
            reason: RequestRejectionReason::AuthenticationRequired,
        },
    };
    observer.observe(&event);
    assert_eq!(observer.events.borrow().as_slice(), &[event]);
}

#[test]
fn observation_debug_redacts_sensitive_metadata_values() {
    let headers = sanitize_response_headers(&[
        (
            "X-HNS-Resolution-Trace".to_owned(),
            "private?token=secret".to_owned(),
        ),
        ("X-HNS-Security-Path".to_owned(), "dane".to_owned()),
    ])
    .unwrap();
    let observation = ProxyResponseMetadataObservation::new(
        7,
        ObservedHost::new("welcome").unwrap(),
        ObservedMethod::Get,
        200,
        true,
        Some(9),
        headers.metadata().clone(),
    );

    assert_eq!(observation.generation(), 7);
    assert_eq!(observation.host().as_str(), "welcome");
    assert_eq!(observation.method(), ObservedMethod::Get);
    assert_eq!(observation.status_code(), 200);
    assert!(observation.is_likely_main_frame());
    assert_eq!(observation.observation_id(), Some(9));
    assert_eq!(
        observation.metadata().get("X-HNS-Security-Path"),
        Some("dane")
    );
    let diagnostic = observation.describe();
    assert!(!diagnostic.contains("private"));
    assert!(!diagnostic.contains("token"));
    assert!(!diagnostic.contains("secret"));
    assert!(!diagnostic.contains("path"));
    assert!(!diagnostic.contains("query"));
    assert!(!diagnostic.contains("body"));
}

#[test]
fn strips_every_internal_and_hop_by_hop_response_header() {
    let headers = vec![
        ("Content-Type".to_owned(), "text/plain".to_owned()),
        ("X-HNS-Security-Path".to_owned(), "dane".to_owned()),
        ("x-hns-future-metadata".to_owned(), "secret".to_owned()),
        (
            "Connection".to_owned(),
            "Keep-Alive, X-Origin-Hop".to_owned(),
        ),
        ("X-Origin-Hop".to_owned(), "remove".to_owned()),
        ("Transfer-Encoding".to_owned(), "chunked".to_owned()),
        ("Content-Length".to_owned(), "999".to_owned()),
        ("Proxy-Future".to_owned(), "secret".to_owned()),
    ];

    let sanitized = sanitize_response_headers(&headers).unwrap();

    assert_eq!(
        sanitized.forwarded(),
        &[("Content-Type".to_owned(), "text/plain".to_owned())]
    );
    assert_eq!(
        sanitized.metadata().get("X-HNS-Security-Path"),
        Some("dane")
    );
    assert_eq!(sanitized.metadata().get("X-HNS-Future-Metadata"), None);
}

#[test]
fn rejects_header_injection_even_for_internal_metadata() {
    let error = sanitize_response_headers(&[(
        "X-HNS-Trace".to_owned(),
        "safe\r\nSet-Cookie: injected=1".to_owned(),
    )])
    .err();

    assert_eq!(error, Some(ResponseError::InvalidHeader));
}

#[test]
fn response_head_owns_framing_and_connection_lifecycle() {
    let headers = sanitize_response_headers(&[(
        "Content-Type".to_owned(),
        "application/octet-stream".to_owned(),
    )])
    .unwrap();

    let encoded = encode_response_head("GET", 206, "Partial Content", &headers, 42).unwrap();
    assert!(encoded.body_allowed());
    let text = String::from_utf8(encoded.into_bytes()).unwrap();

    assert!(text.starts_with("HTTP/1.1 206 Partial Content\r\n"));
    assert!(text.contains("Content-Type: application/octet-stream\r\n"));
    assert!(text.contains("Connection: close\r\nContent-Length: 42\r\n\r\n"));
}

#[test]
fn rejects_informational_finals_and_nonempty_bodyless_statuses() {
    let headers = sanitize_response_headers(&[]).unwrap();

    assert_eq!(
        encode_response_head("GET", 101, "Switching Protocols", &headers, 0),
        Err(ResponseError::InvalidStatus)
    );
    assert_eq!(
        encode_response_head("GET", 204, "No Content", &headers, 1),
        Err(ResponseError::BodyNotAllowed)
    );
    let head = encode_response_head("HEAD", 200, "OK", &headers, 12).unwrap();
    assert!(!head.body_allowed());
    assert!(String::from_utf8(head.into_bytes())
        .unwrap()
        .contains("Content-Length: 12\r\n"));
    assert_eq!(
        encode_response_head(
            "GET",
            200,
            &"x".repeat(MAX_RESPONSE_HEAD_BYTES + 1),
            &headers,
            0,
        ),
        Err(ResponseError::HeadersTooLarge)
    );
}

#[test]
fn rejects_duplicate_trusted_metadata_and_discards_connection_nominated_metadata() {
    let duplicate = vec![
        ("X-HNS-TLS-Policy".to_owned(), "dane".to_owned()),
        ("x-hns-tls-policy".to_owned(), "webpki".to_owned()),
    ];
    assert_eq!(
        sanitize_response_headers(&duplicate).err(),
        Some(ResponseError::InvalidHeader)
    );

    let nominated = vec![
        ("Connection".to_owned(), "X-HNS-Security-Path".to_owned()),
        ("X-HNS-Security-Path".to_owned(), "spoofed".to_owned()),
    ];
    let sanitized = sanitize_response_headers(&nominated).unwrap();
    assert!(sanitized.metadata().is_empty());
}

#[test]
fn upgrade_head_is_canonical_and_strips_internal_and_nominated_fields() {
    let headers = vec![
        (
            "Connection".to_owned(),
            "keep-alive, Upgrade, X-Hop".to_owned(),
        ),
        ("Upgrade".to_owned(), "websocket".to_owned()),
        ("Sec-WebSocket-Accept".to_owned(), "accepted".to_owned()),
        ("X-Hop".to_owned(), "secret".to_owned()),
        ("X-HNS-Security-Path".to_owned(), "dane".to_owned()),
        ("Alt-Svc".to_owned(), "h3=\":443\"".to_owned()),
        ("Content-Length".to_owned(), "999".to_owned()),
    ];

    let encoded = encode_upgrade_response_head(101, "Switching Protocols", &headers).unwrap();
    let text = String::from_utf8(encoded.into_bytes()).unwrap();

    assert!(text.starts_with("HTTP/1.1 101 Switching Protocols\r\n"));
    assert!(text.contains("Sec-WebSocket-Accept: accepted\r\n"));
    assert!(text.ends_with("Connection: Upgrade\r\nUpgrade: websocket\r\n\r\n"));
    assert!(!text.contains("keep-alive"));
    assert!(!text.contains("X-Hop"));
    assert!(!text.contains("X-HNS-"));
    assert!(!text.contains("Alt-Svc"));
    assert!(!text.contains("Content-Length"));
}

#[test]
fn upgrade_head_requires_exact_websocket_switching_protocols() {
    let valid = vec![
        ("Connection".to_owned(), "Upgrade".to_owned()),
        ("Upgrade".to_owned(), "websocket".to_owned()),
    ];
    assert_eq!(
        encode_upgrade_response_head(200, "OK", &valid),
        Err(ResponseError::InvalidStatus)
    );
    assert_eq!(
        encode_upgrade_response_head(
            101,
            "Switching Protocols",
            &[("Upgrade".to_owned(), "websocket".to_owned())],
        ),
        Err(ResponseError::InvalidHeader)
    );
    assert_eq!(
        encode_upgrade_response_head(
            101,
            "Switching Protocols",
            &[
                ("Connection".to_owned(), "Upgrade".to_owned()),
                ("Upgrade".to_owned(), "h2c".to_owned()),
            ],
        ),
        Err(ResponseError::InvalidHeader)
    );
}

#[test]
fn only_public_addresses_are_observed() {
    for address in ["127.0.0.1", "10.0.0.1", "192.168.0.1", "::1", "fe80::1", "::ffff:8.8.8.8"] {
        assert_eq!(
            ObservedHost::new(address),
            Err(ObservedHostError::InvalidDnsName),
            "{address}"
        );
    }
    for address in ["1.1.1.1", "8.8.8.8", "2606:4700:4700::1111"] {
        assert_eq!(ObservedHost::new(address).unwrap().as_str(), address);
    }
    assert_eq!(
        ObservedHost::new("2606:4700:4700::ABCD").unwrap().as_str(),
        "2606:4700:4700::abcd"
    );
    assert_eq!(
        ObservedHost::new("2606:4700:4700:0::1"),
        Err(ObservedHostError::InvalidDnsName)
    );
}

#[test]
fn observed_hosts_are_observed_unchanged() {
    for host in ["MiXeD.Example", "8.8.8.8", "2606:4700:4700::ABCD", "A-1.b", "0x7F.1"] {
        let observed = ObservedHost::new(host).unwrap();
        assert_eq!(observed.as_str(), host.to_ascii_lowercase());
        assert_eq!(ObservedHost::new(observed.as_str()).unwrap(), observed);
    }
}

#[test]
fn public_address_policy_rejects_local_private_and_reserved_ranges() {
    let parse = |text: &str| parse_ip(&text.chars().collect::<Vec<char>>()).unwrap();
    for address in [
        "0.0.0.0",
        "10.0.0.1",
        "127.0.0.1",
        "169.254.169.254",
        "172.16.0.1",
        "192.168.0.1",
        "198.51.100.1",
        "::",
        "::1",
        "fc00::1",
        "fe80::1",
        "2001:db8::1",
    ] {
        assert!(!parse(address).is_public(), "{address}");
    }
    for address in ["1.1.1.1", "8.8.8.8", "2606:4700:4700::1111"] {
        assert!(parse(address).is_public(), "{address}");
    }
}

#[test]
fn encoded_heads_hold_one_empty_line() {
    let headers = sanitize_response_headers(&[
        ("X-Name".to_owned(), "gr\u{fc}n \u{1f91d} \u{d0a}".to_owned()),
        ("X-Tab".to_owned(), "a\tb".to_owned()),
    ])
    .unwrap();
    let upgrade = [
        ("Connection".to_owned(), "Upgrade".to_owned()),
        ("Upgrade".to_owned(), "websocket".to_owned()),
        ("X-Name".to_owned(), "\u{20d}\u{a0a}".to_owned()),
    ];
    for encoded in [
        encode_response_head("GET", 200, "OK", &headers.clone(), 3).unwrap(),
        encode_response_head("GET", 204, "No Content", &headers, 0).unwrap(),
        encode_upgrade_response_head(101, "Switching Protocols", &upgrade).unwrap(),
    ] {
        let bytes = encoded.clone().into_bytes();
        assert_eq!(bytes, encoded.as_bytes());
        assert!(bytes.len() <= MAX_RESPONSE_HEAD_BYTES);
        assert!(bytes.starts_with(b"HTTP/1.1 "));
        let ends: Vec<usize> = (0..bytes.len() - 3)
            .filter(|start| &bytes[*start..*start + 4] == b"\r\n\r\n")
            .collect();
        assert_eq!(ends, vec![bytes.len() - 4]);
    }
}

#[test]
fn observed_host_errors_have_stable_messages() {
    assert_eq!(ObservedHostError::Empty.message(), "observed host is empty");
    assert_eq!(
        ObservedHostError::InvalidDnsName.message(),
        "observed host is not a canonical ASCII DNS name"
    );
}
