use base64::engine::general_purpose::STANDARD;
use base64::Engine;
use hns_browser::auth::{url_token, AuthorizationGenerationError, ProxyAuthorization};
use hns_browser::instance::{ProxySessionId, SessionIdGenerationError};

const USERNAME: &str = "hns-browser";

fn authorization() -> ProxyAuthorization {
    ProxyAuthorization::from_generated_parts(
        "hns-loopback-test-realm".to_owned(),
        "test-password-capability".to_owned(),
    )
}

#[test]
fn generated_authorizations_are_fresh_capabilities() {
    let first = ProxyAuthorization::generate().unwrap();
    let second = ProxyAuthorization::generate().unwrap();

    assert_eq!(first.username(), USERNAME);
    assert!(first.realm().starts_with("hns-loopback-"));
    assert_ne!(first.realm(), second.realm());
    assert_ne!(first.password(), second.password());
    assert!(first.verify_header_value(&first.authorization_header_value()));
}

#[test]
fn verifies_basic_credentials_and_rejects_substitutions() {
    let authorization = authorization();
    let valid = authorization.authorization_header_value();
    let encoded_wrong = STANDARD.encode("hns-browser:wrong-password");

    assert!(authorization.verify_header_value(&valid));
    assert!(authorization.verify_header_value(&valid.replacen("Basic", "bAsIc", 1)));
    assert!(!authorization.verify_header_value(&format!("Basic {encoded_wrong}")));
    assert!(!authorization.verify_header_value("Bearer abc"));
    assert!(!authorization.verify_header_value("Basic !!!"));
    assert!(!authorization.verify_header_value("Basic"));
    assert!(!authorization.verify_header_value("Basic Zm9v YmFy"));
    assert!(!authorization.verify_header_value(&format!("{valid}\r\n")));
}

#[test]
fn requires_exactly_one_authorization_header() {
    let authorization = authorization();
    let valid = authorization.authorization_header_value();

    assert!(!authorization.verify_header_values(&[]));
    assert!(authorization.verify_header_values(&[valid.as_str()]));
    assert!(!authorization.verify_header_values(&[valid.as_str(), valid.as_str()]));
}

#[test]
fn debug_output_redacts_every_capability_component() {
    let authorization = authorization();
    let debug = authorization.describe();

    assert!(!debug.contains(authorization.realm()));
    assert!(!debug.contains(authorization.username()));
    assert!(!debug.contains(authorization.password()));
    assert!(debug.contains("[REDACTED]"));
}

#[test]
fn challenge_matching_is_restricted_to_ipv4_loopback_and_exact_realm() {
    let authorization = authorization();

    assert!(authorization.matches_challenge("127.0.0.1", authorization.realm()));
    assert!(authorization.matches_challenge("[127.0.0.1]", authorization.realm()));
    assert!(!authorization.matches_challenge("localhost", authorization.realm()));
    assert!(!authorization.matches_challenge("::1", authorization.realm()));
    assert!(!authorization.matches_challenge("[[127.0.0.1]]", authorization.realm()));
    assert!(!authorization.matches_challenge("127.0.0.1", "another-realm"));
}

#[test]
fn header_values_hold_the_encoded_credentials() {
    let authorization = authorization();
    assert_eq!(
        authorization.authorization_header_value(),
        format!("Basic {}", STANDARD.encode("hns-browser:test-password-capability"))
    );
    assert_eq!(
        authorization.challenge_header_value(),
        "Basic realm=\"hns-loopback-test-realm\""
    );
}

#[test]
fn random_bytes_become_url_safe_tokens() {
    assert_eq!(url_token(Some(vec![0xfb, 0xff, 0xfe, 0x01])).unwrap(), "-__-AQ");
    assert_eq!(url_token(None).err(), Some(AuthorizationGenerationError));
    let session = ProxySessionId::from_random(Some(vec![0xff; 16])).ok().unwrap();
    assert_eq!(session.as_str(), "_____________________w");
    assert_eq!(
        ProxySessionId::from_random(None).err(),
        Some(SessionIdGenerationError)
    );
}

#[test]
fn credentials_need_both_generated_tokens() {
    let token = |text: &str| Ok(text.to_owned());
    let failed = || Err(AuthorizationGenerationError);
    let made = ProxyAuthorization::from_tokens(token("AAAAAAAAAAAAAAAA"), token("secret"))
        .ok()
        .unwrap();
    assert_eq!(made.realm(), "hns-loopback-AAAAAAAAAAAAAAAA");
    assert_eq!(made.username(), "hns-browser");
    assert_eq!(made.password(), "secret");
    assert!(made.verify_header_value(&format!("Basic {}", STANDARD.encode("hns-browser:secret"))));
    for (realm, password) in [
        (failed(), token("secret")),
        (token("realm"), failed()),
        (failed(), failed()),
    ] {
        assert_eq!(
            ProxyAuthorization::from_tokens(realm, password).err(),
            Some(AuthorizationGenerationError)
        );
    }
}

#[test]
fn generation_errors_have_stable_messages() {
    assert_eq!(
        AuthorizationGenerationError.message(),
        "the operating-system random number generator failed"
    );
}
