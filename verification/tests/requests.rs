use hns_browser::body::{
    determine_body_framing, read_chunked_body, read_request_body, BodyFraming,
};
use hns_browser::forward::{sanitize_forward_headers, sanitize_upgrade_forward_headers};
use hns_browser::http1::{
    parse_request_head, read_request_head, Http1Error, Input, RequestHead,
    DEFAULT_MAX_REQUEST_HEAD_BYTES, MAX_REQUEST_HEADERS,
};
use hns_browser::target::{Authority, RequestTarget, Scheme};

fn parse(text: &str) -> RequestHead {
    match parse_request_head(text.as_bytes()) {
        Ok(head) => head,
        Err(error) => panic!("{error:?}"),
    }
}

fn input(bytes: &[u8]) -> Input {
    Input::new(bytes.to_vec())
}

#[test]
fn parses_absolute_target_and_preserves_only_routed_path_and_query() {
    let head = parse(
        "GET https://Welcome:8443/private?q=secret HTTP/1.1\r\nHost: welcome:8443\r\n\r\n",
    );
    let RequestTarget::Absolute(target) = head.validated_target(None).unwrap() else {
        panic!("expected absolute target");
    };
    assert_eq!(target.scheme(), Scheme::Https);
    assert_eq!(target.authority().host(), "welcome");
    assert_eq!(target.authority().port(), 8443);
    assert_eq!(target.path_and_query(), "/private?q=secret");
    assert!(!head.describe().contains("secret"));
    assert!(!target.describe().contains("private"));
}

#[test]
fn descriptions_of_targets_withhold_hosts_and_paths() {
    let head = parse("GET https://welcome:8443/private HTTP/1.1\r\nHost: welcome:8443\r\n\r\n");
    let target = head.validated_target(None).unwrap();
    assert_eq!(
        target.describe(),
        "Absolute(AbsoluteTarget { scheme: Https, authority: Authority { host: \"<redacted>\", \
         port: 8443 }, path_and_query: \"<redacted>\" })"
    );
    let connect = parse("CONNECT welcome:443 HTTP/1.1\r\nHost: welcome:443\r\n\r\n");
    assert_eq!(
        connect.validated_target(None).unwrap().describe(),
        "Connect(Authority { host: \"<redacted>\", port: 443 })"
    );
}

#[test]
fn parses_connect_and_post_connect_origin_form() {
    let connect = parse("CONNECT welcome:443 HTTP/1.1\r\nHost: welcome:443\r\n\r\n");
    let RequestTarget::Connect(authority) = connect.validated_target(None).unwrap() else {
        panic!("expected CONNECT target");
    };
    let tunneled =
        parse("POST /submit?q=1 HTTP/1.1\r\nHost: welcome\r\nContent-Length: 2\r\n\r\n");
    let RequestTarget::Origin(target) = tunneled.validated_target(Some(&authority)).unwrap()
    else {
        panic!("expected origin target");
    };
    assert_eq!(target.path_and_query(), "/submit?q=1");
}

#[test]
fn rejects_direct_origin_form_and_mismatched_connected_absolute_form() {
    let origin = parse("GET / HTTP/1.1\r\nHost: welcome\r\n\r\n");
    assert!(matches!(
        origin.request_target(None),
        Err(Http1Error::InvalidTarget)
    ));
    let authority = Authority::parse("welcome", 443).unwrap();
    let other = parse("GET https://other/ HTTP/1.1\r\nHost: other\r\n\r\n");
    assert!(matches!(
        other.request_target(Some(&authority)),
        Err(Http1Error::TargetMismatch)
    ));
}

#[test]
fn rejects_host_mismatch_duplicates_and_missing_http11_host() {
    let mismatch = parse("GET http://welcome/ HTTP/1.1\r\nHost: other\r\n\r\n");
    assert!(matches!(
        mismatch.validated_target(None),
        Err(Http1Error::HostMismatch)
    ));
    let duplicate =
        parse("GET http://welcome/ HTTP/1.1\r\nHost: welcome\r\nHost: welcome\r\n\r\n");
    assert!(matches!(
        duplicate.validated_target(None),
        Err(Http1Error::HostMismatch)
    ));
    let missing = parse("GET http://welcome/ HTTP/1.1\r\nUser-Agent: test\r\n\r\n");
    assert!(matches!(
        missing.validated_target(None),
        Err(Http1Error::MissingHost)
    ));
}

#[test]
fn rejects_request_line_header_and_version_smuggling() {
    for request in [
        "GET  http://welcome/ HTTP/1.1\r\nHost: welcome\r\n\r\n",
        "GET http://welcome/ HTTP/2.0\r\nHost: welcome\r\n\r\n",
        "GET http://welcome/ HTTP/1.1\nHost: welcome\n\n",
        "GET http://welcome/ HTTP/1.1\r\nBad Name: value\r\n\r\n",
        "GET http://welcome/ HTTP/1.1\r\n Folded: value\r\n\r\n",
        "GET http://welcome/ HTTP/1.1\r\nX-Test: bad\u{7f}\r\n\r\n",
    ] {
        assert!(
            parse_request_head(request.as_bytes()).is_err(),
            "accepted {request:?}"
        );
    }
}

#[test]
fn bounded_reader_does_not_consume_a_coalesced_body() {
    let mut input = input(
        b"POST http://welcome/upload HTTP/1.1\r\nHost: welcome\r\nContent-Length: 4\r\n\r\ndataafter",
    );
    let head = read_request_head(&mut input, DEFAULT_MAX_REQUEST_HEAD_BYTES).unwrap();
    let framing = determine_body_framing(head.headers()).unwrap();
    assert_eq!(
        read_request_body(&mut input, framing, 1024).unwrap(),
        b"data"
    );
    assert_eq!(String::from_utf8(input.rest()).unwrap(), "after");
}

#[test]
fn fixed_body_reader_enforces_cap_and_exact_length() {
    assert!(matches!(
        read_request_body(&mut input(b"data"), BodyFraming::ContentLength(4), 3),
        Err(Http1Error::BodyTooLarge)
    ));
    assert!(matches!(
        read_request_body(&mut input(b"abc"), BodyFraming::ContentLength(4), 4),
        Err(Http1Error::UnexpectedBodyEof)
    ));
}

#[test]
fn enforces_head_and_header_count_limits() {
    let request = "GET http://welcome/ HTTP/1.1\r\nHost: welcome\r\n\r\n";
    let mut input = input(request.as_bytes());
    assert!(matches!(
        read_request_head(&mut input, 8),
        Err(Http1Error::HeadTooLarge)
    ));

    let mut many = String::from("GET http://welcome/ HTTP/1.1\r\nHost: welcome\r\n");
    for index in 0..MAX_REQUEST_HEADERS {
        many.push_str(&format!("X-{index}: x\r\n"));
    }
    many.push_str("\r\n");
    assert!(matches!(
        parse_request_head(many.as_bytes()),
        Err(Http1Error::TooManyHeaders)
    ));
}

#[test]
fn rejects_duplicate_conflicting_and_ambiguous_lengths() {
    for request in [
        "POST http://welcome/ HTTP/1.1\r\nHost: welcome\r\nContent-Length: 2\r\nContent-Length: 2\r\n\r\n",
        "POST http://welcome/ HTTP/1.1\r\nHost: welcome\r\nContent-Length: 2\r\nContent-Length: 3\r\n\r\n",
        "POST http://welcome/ HTTP/1.1\r\nHost: welcome\r\nContent-Length: +2\r\n\r\n",
    ] {
        let head = parse(request);
        assert!(matches!(
            determine_body_framing(head.headers()),
            Err(Http1Error::InvalidContentLength)
        ));
    }
    let ambiguous = parse(
        "POST http://welcome/ HTTP/1.1\r\nHost: welcome\r\nContent-Length: 0\r\nTransfer-Encoding: chunked\r\n\r\n",
    );
    assert!(matches!(
        determine_body_framing(ambiguous.headers()),
        Err(Http1Error::AmbiguousFraming)
    ));
}

#[test]
fn only_a_single_chunked_transfer_coding_is_supported() {
    let chunked = parse(
        "POST http://welcome/ HTTP/1.1\r\nHost: welcome\r\nTransfer-Encoding: ChUnKeD\r\n\r\n",
    );
    assert_eq!(
        determine_body_framing(chunked.headers()).unwrap(),
        BodyFraming::Chunked
    );
    for value in [
        "gzip",
        "gzip, chunked",
        "chunked, chunked",
        "chunked;foo=bar",
        "",
    ] {
        let request = format!(
            "POST http://welcome/ HTTP/1.1\r\nHost: welcome\r\nTransfer-Encoding: {value}\r\n\r\n"
        );
        let head = parse(&request);
        assert!(matches!(
            determine_body_framing(head.headers()),
            Err(Http1Error::UnsupportedTransferEncoding)
        ));
    }
}

#[test]
fn decodes_chunked_body_and_consumes_bounded_valid_trailers() {
    let mut input =
        input(b"4;kind=test\r\nWiki\r\n5\r\npedia\r\n0\r\nDigest: value\r\n\r\nafter");
    assert_eq!(read_chunked_body(&mut input, 1024).unwrap(), b"Wikipedia");
    assert_eq!(String::from_utf8(input.rest()).unwrap(), "after");
}

#[test]
fn rejects_bad_chunk_syntax_forbidden_trailers_and_body_overflow() {
    for body in [
        "x\r\n",
        "1\r\naX\r\n0\r\n\r\n",
        "1\na\r\n0\r\n\r\n",
        "0\r\nContent-Length: 1\r\n\r\n",
        "0\r\nX-HNS-Secret: value\r\n\r\n",
    ] {
        assert!(read_chunked_body(&mut input(body.as_bytes()), 1024).is_err());
    }
    assert!(matches!(
        read_chunked_body(&mut input(b"5\r\nhello\r\n0\r\n\r\n"), 4),
        Err(Http1Error::BodyTooLarge)
    ));
}

#[test]
fn retains_duplicate_proxy_credentials_for_uniform_authentication_rejection() {
    let request = b"GET http://welcome/ HTTP/1.1\r\nHost: welcome\r\nProxy-Authorization: first\r\nProxy-Authorization: second\r\n\r\n";
    let head = parse_request_head(request).unwrap();

    assert!(matches!(
        head.proxy_authorization(),
        Err(Http1Error::DuplicateProxyAuthorization)
    ));
    assert_eq!(head.header_values("proxy-authorization").len(), 2);
}

#[test]
fn sanitizer_removes_hop_proxy_internal_and_connection_nominated_fields() {
    let head = parse(
        "GET http://welcome/ HTTP/1.1\r\nHost: welcome\r\nProxy-Authorization: secret\r\nProxy-Future: secret\r\nX-HNS-Security-Path: forged\r\nX-HNS-Future: secret\r\nConnection: keep-alive, X-Remove\r\nX-Remove: secret\r\nKeep-Alive: timeout=5\r\nTransfer-Encoding: chunked\r\nX-Keep: yes\r\n\r\n",
    );
    assert_eq!(head.proxy_authorization().unwrap(), Some("secret"));
    let sanitized = sanitize_forward_headers(head.headers()).unwrap();
    assert_eq!(sanitized.len(), 2);
    assert_eq!(sanitized[0].name(), "Host");
    assert_eq!(sanitized[1].name(), "X-Keep");
    assert!(!head.describe().contains("secret"));
    for header in head.headers() {
        assert!(!header.describe().contains("secret"));
    }
}

#[test]
fn upgrade_sanitizer_reconstructs_websocket_hop_fields() {
    let head = parse(
        "GET ws://welcome/socket HTTP/1.1\r\nHost: welcome\r\nConnection: keep-alive, Upgrade, X-Hop\r\nUpgrade: websocket\r\nX-Hop: secret\r\nSec-WebSocket-Key: key\r\nProxy-Authorization: secret\r\nX-HNS-Trace: secret\r\n\r\n",
    );

    let sanitized = sanitize_upgrade_forward_headers(head.headers()).unwrap();
    let pairs: Vec<_> = sanitized
        .iter()
        .map(|header| (header.name(), header.value()))
        .collect();

    assert!(pairs.contains(&("Host", "welcome")));
    assert!(pairs.contains(&("Sec-WebSocket-Key", "key")));
    assert!(pairs.contains(&("Connection", "Upgrade")));
    assert!(pairs.contains(&("Upgrade", "websocket")));
    assert!(!pairs
        .iter()
        .any(|(name, _)| name.eq_ignore_ascii_case("X-Hop")));
    assert!(!pairs
        .iter()
        .any(|(name, _)| name.eq_ignore_ascii_case("Proxy-Authorization")));
    assert!(!pairs
        .iter()
        .any(|(name, _)| name.eq_ignore_ascii_case("X-HNS-Trace")));
}

#[test]
fn upgrade_sanitizer_requires_a_complete_websocket_signal() {
    for request in [
        "GET / HTTP/1.1\r\nHost: welcome\r\nUpgrade: websocket\r\n\r\n",
        "GET / HTTP/1.1\r\nHost: welcome\r\nConnection: Upgrade\r\n\r\n",
        "GET / HTTP/1.1\r\nHost: welcome\r\nConnection: Upgrade\r\nUpgrade: h2c\r\n\r\n",
    ] {
        assert!(matches!(
            sanitize_upgrade_forward_headers(parse(request).headers()),
            Err(Http1Error::InvalidHeader)
        ));
    }
}

#[test]
fn normalizes_idna_trailing_dot_and_ipv6_authorities() {
    let unicode = Authority::parse("B\u{00fc}cher.Example.", 443).unwrap();
    assert_eq!(unicode.host(), "xn--bcher-kva.example");
    assert!(Authority::parse("welcome..", 443).is_err());
    let ipv6 = Authority::parse("[2001:0db8::1]:8443", 443).unwrap();
    assert_eq!(ipv6.host(), "2001:db8::1");
    assert_eq!(ipv6.host_header(443), "[2001:db8::1]:8443");
}

#[test]
fn maps_framing_errors_to_stable_http_responses() {
    assert_eq!(Http1Error::BodyTooLarge.status_code(), 413);
    assert_eq!(Http1Error::UnsupportedTransferEncoding.status_code(), 501);
    assert_eq!(Http1Error::AmbiguousFraming.status_code(), 400);
    assert_eq!(
        Http1Error::InvalidContentLength.reason_phrase(),
        "Bad Content-Length"
    );
}

#[test]
fn upgrade_sanitizer_removes_framing_fields() {
    let head = parse(
        "GET ws://welcome/ HTTP/1.1\r\nHost: welcome\r\nConnection: Upgrade\r\nUpgrade: websocket\r\nContent-Length: 0\r\n\r\n",
    );
    let sanitized = sanitize_upgrade_forward_headers(head.headers()).unwrap();
    let pairs: Vec<_> = sanitized
        .iter()
        .map(|header| (header.name(), header.value()))
        .collect();
    assert_eq!(
        pairs,
        vec![
            ("Host", "welcome"),
            ("Connection", "Upgrade"),
            ("Upgrade", "websocket"),
        ]
    );
}

#[test]
fn chunked_bodies_do_not_depend_on_cuts_or_case() {
    let body = "0123456789abcdefghijklmnopqr";
    let whole = format!("1C\r\n{body}\r\n0\r\n\r\n");
    let lower = format!("1c\r\n{body}\r\n0\r\n\r\n");
    let cut = format!("A\r\n{}\r\n12\r\n{}\r\n0\r\n\r\n", &body[..10], &body[10..]);
    for encoded in [whole, lower, cut] {
        let mut stream = input(encoded.as_bytes());
        assert_eq!(read_chunked_body(&mut stream, 28).unwrap(), body.as_bytes());
        assert!(read_chunked_body(&mut stream, 28).is_err());
        assert!(matches!(
            read_chunked_body(&mut input(encoded.as_bytes()), 27),
            Err(Http1Error::BodyTooLarge)
        ));
    }
}

#[test]
fn host_headers_denote_their_authority() {
    for text in [
        "Welcome.:8443",
        "welcome",
        "[2001:0DB8::1]:443",
        "[::ffff:1.2.3.4]",
        "192.0.2.1:80",
        "XN--BCHER-kva.Example",
    ] {
        let authority = Authority::parse(text, 8080).unwrap();
        for default_port in [0, 80, 443, 8080, 8443] {
            let written = authority.host_header(default_port);
            let parsed = Authority::parse(&written, default_port).unwrap();
            assert_eq!(parsed.host(), authority.host(), "{written}");
            assert_eq!(parsed.port(), authority.port(), "{written}");
        }
    }
}
