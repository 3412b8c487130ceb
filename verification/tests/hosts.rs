use hns_browser::host::{
    HostNormalizationError, HostScope, HostScopeError, NameClass, NormalizedHost,
};

#[test]
fn canonicalizes_case_trailing_dot_and_unicode_with_strict_idna() {
    assert_eq!(
        NormalizedHost::parse("WELCOME.").unwrap().as_str(),
        "welcome"
    );
    assert_eq!(
        NormalizedHost::parse("BÜCHER").unwrap().as_str(),
        "xn--bcher-kva"
    );
    assert_eq!(
        NormalizedHost::parse("café.WELCOME").unwrap().as_str(),
        "xn--caf-dma.welcome"
    );
    assert_eq!(NormalizedHost::parse("🤝").unwrap().as_str(), "xn--5p9h");
    assert_eq!(
        NormalizedHost::parse("welcome。").unwrap().as_str(),
        "welcome"
    );
}

#[test]
fn rejects_authorities_search_input_ip_literals_and_invalid_dns_names() {
    for invalid in [
        "",
        " welcome",
        "welcome ",
        "two words",
        "https://welcome",
        "welcome:443",
        "user@welcome",
        "welcome/path",
        "welcome..",
        ".welcome",
        "-welcome",
        "welcome-",
    ] {
        assert!(NormalizedHost::parse(invalid).is_err(), "{invalid}");
    }
    assert_eq!(
        NormalizedHost::parse("127.0.0.1").err(),
        Some(HostNormalizationError::IpLiteral)
    );
    for legacy_ip in ["2130706433", "0x7f000001", "127.1", "0177.0.0.1"] {
        assert_eq!(
            NormalizedHost::parse(legacy_ip).err(),
            Some(HostNormalizationError::IpLiteral),
            "{legacy_ip}"
        );
    }
    assert!(NormalizedHost::parse("[::1]").is_err());
}

#[test]
fn debug_output_does_not_retain_the_browsing_scope() {
    let host = NormalizedHost::parse("private-history-name").unwrap();
    let scope = HostScope::new(host.as_str(), NameClass::Hns).unwrap();

    assert!(!host.describe().contains(host.as_str()));
    assert!(!scope.describe().contains(host.as_str()));
}

#[test]
fn scope_accepts_only_the_exact_root_and_label_boundary_subdomains() {
    let scope = HostScope::new("Welcome.", NameClass::Hns).unwrap();

    assert!(scope.allows("welcome", NameClass::Hns));
    assert!(scope.allows("www.welcome", NameClass::Hns));
    assert!(scope.allows("deep.www.welcome.", NameClass::Hns));
    assert!(!scope.allows("evilwelcome", NameClass::Hns));
    assert!(!scope.allows("welcome.evil", NameClass::Hns));
    assert!(!scope.allows("example.com", NameClass::Icann));
}

#[test]
fn scope_compares_idna_canonical_forms() {
    let scope = HostScope::new("Bücher", NameClass::Hns).unwrap();

    assert!(scope.allows("xn--bcher-kva", NameClass::Hns));
    assert!(scope.allows("shop.BÜCHER.", NameClass::Hns));
}

#[test]
fn scope_construction_fails_closed_for_non_hns_names() {
    assert_eq!(
        HostScope::new("example.com", NameClass::Icann).err(),
        Some(HostScopeError::NotHns)
    );
    assert_eq!(
        HostScope::new("localhost", NameClass::Icann).err(),
        Some(HostScopeError::NotHns)
    );
    assert_eq!(
        HostScope::new("127.0.0.1", NameClass::Icann).err(),
        Some(HostScopeError::InvalidHost(
            HostNormalizationError::IpLiteral
        ))
    );
}

#[test]
fn authorize_preserves_invalid_out_of_namespace_and_out_of_scope_failures() {
    let scope = HostScope::new("welcome", NameClass::Hns).unwrap();

    assert_eq!(
        scope.authorize(" welcome", NameClass::Hns).err(),
        Some(HostScopeError::InvalidHost(
            HostNormalizationError::SurroundingWhitespace
        ))
    );
    assert_eq!(
        scope.authorize("example.com", NameClass::Icann).err(),
        Some(HostScopeError::NotHns)
    );
    assert_eq!(
        scope.authorize("other", NameClass::Hns).err(),
        Some(HostScopeError::OutOfScope)
    );
}

#[test]
fn authorized_hosts_are_canonical() {
    let scope = HostScope::new("welcome", NameClass::Hns).unwrap();
    let host = scope.authorize("WWW.Welcome.", NameClass::Hns).unwrap();
    assert_eq!(host.as_str(), "www.welcome");
    assert_eq!(scope.root().as_str(), "welcome");
}

#[test]
fn canonical_hosts_denote_themselves() {
    for (input, canonical) in [
        ("WELCOME.", "welcome"),
        ("XN--BCHER-kva.example", "xn--bcher-kva.example"),
        ("a-b.C9", "a-b.c9"),
        ("B\u{fc}cher.example", "xn--bcher-kva.example"),
        ("stra\u{df}e\u{3002}welcome\u{ff0e}", "xn--strae-oqa.welcome"),
    ] {
        let host = NormalizedHost::parse(input).unwrap();
        assert_eq!(host.as_str(), canonical);
        assert_eq!(
            NormalizedHost::parse(host.as_str()).unwrap().as_str(),
            host.as_str()
        );
    }
}

#[test]
fn canonical_hosts_are_lower_case_names() {
    let label = "A".repeat(63);
    let longest = format!("{label}.{label}.{label}.{}", "b".repeat(61));
    for input in [label.as_str(), longest.as_str(), "X-1.Y2."] {
        let host = NormalizedHost::parse(input).unwrap();
        let name = host.as_str();
        assert!((1..=253).contains(&name.len()));
        for label in name.split('.') {
            assert!((1..=63).contains(&label.len()));
            assert!(label
                .chars()
                .all(|c| c.is_ascii_lowercase() || c.is_ascii_digit() || c == '-'));
            assert!(!label.starts_with('-') && !label.ends_with('-'));
        }
    }
    for input in [format!("{label}a"), format!("{longest}b")] {
        assert!(NormalizedHost::parse(&input).is_err());
    }
}
