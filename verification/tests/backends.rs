use hns_browser::backend::{
    BackendError, CancellationState, ProxyHeader, ProxyRequest, ProxyRequestBody,
    ProxyResponseBody,
};
use std::sync::{Arc, Mutex};

#[test]
fn diagnostics_redact_request_secrets_and_payloads() {
    let request = ProxyRequest {
        method: "GET".to_owned(),
        scheme: "https".to_owned(),
        host: "user:secret@example".to_owned(),
        port: 443,
        path_and_query: "/private?token=secret".to_owned(),
        headers: vec![ProxyHeader::new("Authorization", "secret")],
        body: ProxyRequestBody::Bytes(b"secret body".to_vec()),
    };
    let diagnostic = request.describe();
    for secret in [
        "user",
        "secret",
        "example",
        "private",
        "token",
        "Authorization",
    ] {
        assert!(!diagnostic.contains(secret));
    }
    assert!(diagnostic.contains("header_count"));
    assert!(diagnostic.contains("len"));
}

#[test]
fn response_stream_declares_length_without_debugging_contents() {
    let body = ProxyResponseBody::Stream {
        expected_len: 12,
        reader: b"secret bytes".to_vec(),
    };
    assert_eq!(body.expected_len(), 12);
    assert_eq!(
        body.describe(),
        "ProxyResponseBody { expected_len: 12 }"
    );
}

#[test]
fn cancellation_is_reported_once() {
    let mut state = CancellationState::new();
    assert!(!state.is_cancelled());
    assert!(state.cancel());
    assert!(!state.cancel());
    assert!(state.is_cancelled());
}

#[test]
fn all_holders_see_a_cancellation() {
    let shared = Arc::new(Mutex::new(CancellationState::new()));
    let clone = Arc::clone(&shared);
    let nested = Arc::clone(&clone);
    for holder in [&shared, &clone, &nested] {
        assert!(!holder.lock().unwrap().is_cancelled());
    }
    assert!(clone.lock().unwrap().cancel());
    for holder in [&shared, &clone, &nested] {
        assert!(holder.lock().unwrap().is_cancelled());
        assert!(!holder.lock().unwrap().cancel());
        assert!(holder.lock().unwrap().is_cancelled());
    }
}

#[test]
fn backend_errors_have_stable_messages() {
    assert_eq!(BackendError::Cancelled.message(), "backend operation was cancelled");
}
