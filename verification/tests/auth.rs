use annex::auth::{
    generate_token, host_allowed, host_name, is_localhost_name, origin_allowed, token_from_bytes,
    token_matches, upgrade_answer, ALPHABET, TOKEN_BYTES,
};

/// The host names below that are literal IP addresses, as the host's
/// `IpAddr` parse (made outside the library) reports them.
fn is_ip_literal(name: &str) -> bool {
    matches!(name, "192.168.1.75" | "127.0.0.1" | "::1")
}

/// The full `Host` check: the library's decision, given whether the host
/// name it extracts is a literal IP address.
fn host_ok(host: Option<&str>) -> bool {
    let is_ip = host.map(|h| is_ip_literal(&host_name(h))).unwrap_or(false);
    host_allowed(host, is_ip)
}

#[test]
fn tokens_are_unique_and_unambiguous() {
    let a = generate_token().expect("OS CSPRNG unavailable");
    let b = generate_token().expect("OS CSPRNG unavailable");
    assert_ne!(a, b, "two launches must not share a token");
    assert_eq!(a.len(), TOKEN_BYTES);
    for c in a.chars() {
        assert!(
            !"0O1lI".contains(c),
            "ambiguous character {c} would be mistyped"
        );
    }
}

#[test]
fn token_compare_rejects_wrong_and_missing() {
    assert!(token_matches("abcdef", Some("abcdef")));
    assert!(!token_matches("abcdef", Some("abcdeg")));
    assert!(!token_matches("abcdef", Some("abcde")));
    assert!(!token_matches("abcdef", None));
    assert!(!token_matches("abcdef", Some("")));
}

#[test]
fn origin_allows_our_own_page_and_non_browsers() {
    assert!(origin_allowed(
        Some("http://192.168.1.75:8787"),
        "192.168.1.75:8787"
    ));
    // Native clients send no Origin.
    assert!(origin_allowed(None, "192.168.1.75:8787"));
}

#[test]
fn origin_rejects_drive_by_websites() {
    // The whole point: a page you visit must not be able to open a session.
    assert!(!origin_allowed(
        Some("https://evil.example"),
        "192.168.1.75:8787"
    ));
    assert!(!origin_allowed(
        Some("http://192.168.1.75:9999"),
        "192.168.1.75:8787"
    ));
    assert!(!origin_allowed(Some("null"), "192.168.1.75:8787"));
    assert!(!origin_allowed(
        Some("chrome-extension://abc"),
        "192.168.1.75:8787"
    ));
}

#[test]
fn host_rejects_dns_rebinding() {
    assert!(host_ok(Some("192.168.1.75:8787")));
    assert!(host_ok(Some("127.0.0.1:8787")));
    assert!(host_ok(Some("localhost:8787")));
    assert!(host_ok(Some("[::1]:8787")));
    // A name pointed at our address is the rebinding attack.
    assert!(!host_ok(Some("evil.example:8787")));
    assert!(!host_ok(Some("annex.attacker.com")));
    assert!(!host_ok(None));
}

#[test]
fn tokens_are_spelled_from_the_alphabet() {
    assert_eq!(ALPHABET.len(), 55);
    assert_eq!(token_from_bytes(&[0, 1, 54, 55, 255]), "23Z2E");
    assert_eq!(token_from_bytes(&[]), "");
}

#[test]
fn https_origin_and_scheme_split_at_the_first_separator() {
    assert!(origin_allowed(Some("https://192.168.1.75:8787"), "192.168.1.75:8787"));
    assert!(!origin_allowed(Some("http://a://b"), "b"));
    assert!(origin_allowed(Some("http://a://b"), "a://b"));
    assert!(!origin_allowed(Some("192.168.1.75:8787"), "192.168.1.75:8787"));
}

#[test]
fn host_names_drop_the_port_and_brackets() {
    assert_eq!(host_name("192.168.1.75:8787"), "192.168.1.75");
    assert_eq!(host_name("[::1]:8787"), "::1");
    assert_eq!(host_name("example"), "example");
    assert_eq!(host_name("[[x]]"), "x");
    assert!(is_localhost_name("LocalHost"));
    assert!(!is_localhost_name("localhost."));
    assert!(host_allowed(Some("LOCALHOST"), false));
    assert!(!host_allowed(Some("evil.example"), false));
    assert!(host_allowed(Some("10.0.0.1"), true));
    assert!(!host_allowed(None, true));
}

#[test]
fn refused_upgrades_get_421_or_403() {
    // A name that is not an IP literal: 421, whatever the origin.
    assert_eq!(upgrade_answer(Some("evil.example:8787"), false, Some("http://evil.example:8787")), Some(421));
    assert_eq!(upgrade_answer(None, false, None), Some(421));
    // A good host but a forged or null origin: 403.
    assert_eq!(upgrade_answer(Some("192.168.1.75:8787"), true, Some("http://evil.example")), Some(403));
    assert_eq!(upgrade_answer(Some("192.168.1.75:8787"), true, Some("null")), Some(403));
    // Our own page, or a client that sends no origin: upgraded.
    assert_eq!(upgrade_answer(Some("192.168.1.75:8787"), true, Some("http://192.168.1.75:8787")), None);
    assert_eq!(upgrade_answer(Some("localhost:8787"), false, Some("https://localhost:8787")), None);
    assert_eq!(upgrade_answer(Some("127.0.0.1:8787"), true, None), None);
}
