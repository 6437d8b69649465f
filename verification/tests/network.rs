use codesearch::auth::{
    api_key_matches, build_streamable_http_config, capture_network_auth, digests_match, is_logged,
    is_management, request_has_valid_api_key, require_admin_auth, require_auth_for_network,
    AuthDecision, NetworkAuthConfig,
};
use codesearch::net::{
    extract_host_from_url, is_localhost_host, keep_warm_due, keep_warm_foreign_target,
    keep_warm_ping_url, normalize_serve_url, resolve_idle_suspend, resolve_keep_warm_url,
    resolve_serve_port,
};

#[test]
fn test_api_key_matches() {
    assert!(api_key_matches("secret-key", "secret-key"));
    assert!(!api_key_matches("secret-key", "secret-keX"));
    assert!(!api_key_matches("secret", "secret-key")); // different length
    assert!(!api_key_matches("", "secret-key"));
    assert!(api_key_matches("", "")); // both empty digests are equal
                                      // Case-sensitive and exact.
    assert!(!api_key_matches("Secret-Key", "secret-key"));
}

#[test]
fn digests_are_compared_whole() {
    assert!(digests_match(&vec![1, 2, 3], &vec![1, 2, 3]));
    assert!(!digests_match(&vec![1, 2, 3], &vec![1, 2, 4]));
    assert!(!digests_match(&vec![0, 2, 3], &vec![1, 2, 3]));
}

#[test]
fn a_key_comes_as_a_bearer_token_or_in_its_own_header() {
    assert!(request_has_valid_api_key(Some("Bearer k"), None, "k"));
    assert!(request_has_valid_api_key(None, Some("k"), "k"));
    assert!(request_has_valid_api_key(Some("Bearer wrong"), Some("k"), "k"));
    assert!(!request_has_valid_api_key(Some("k"), None, "k"));
    assert!(!request_has_valid_api_key(Some("bearer k"), None, "k"));
    assert!(!request_has_valid_api_key(None, None, "k"));
}

#[test]
fn management_routes_need_the_configured_key() {
    assert!(is_management("POST", "/repos"));
    assert!(is_management("DELETE", "/repos/alpha"));
    assert!(is_management("POST", "/repos/alpha/reindex"));
    assert!(is_management("POST", "/reload"));
    assert!(!is_management("GET", "/status"));
    assert!(!is_management("POST", "/repos/alpha/doctor"));

    let pass = require_admin_auth("POST", "/reload", Some("Bearer k"), None, Some("k"));
    assert!(matches!(pass, AuthDecision::Pass));
    let refused = require_admin_auth("POST", "/reload", None, None, Some("k"));
    assert!(matches!(refused, AuthDecision::Unauthorized));
    let open = require_admin_auth("GET", "/status", None, None, Some("k"));
    assert!(matches!(open, AuthDecision::Pass));
    let no_key = require_admin_auth("POST", "/reload", None, None, None);
    assert!(matches!(no_key, AuthDecision::Pass));
}

#[test]
fn a_network_bind_needs_a_key_on_every_route_but_the_probe() {
    let config = NetworkAuthConfig {
        is_network_bind: true,
        api_key: Some("secret".to_string()),
    };
    let probe = require_auth_for_network(&config, "/healthz", None, None);
    assert!(matches!(probe, AuthDecision::Pass));
    let status = require_auth_for_network(&config, "/status", None, None);
    assert!(matches!(status, AuthDecision::Unauthorized));
    let keyed = require_auth_for_network(&config, "/status", Some("Bearer secret"), None);
    assert!(matches!(keyed, AuthDecision::Pass));
    let broken = NetworkAuthConfig {
        is_network_bind: true,
        api_key: None,
    };
    let misconfigured = require_auth_for_network(&broken, "/status", None, None);
    assert!(matches!(misconfigured, AuthDecision::Misconfigured));
    let local = NetworkAuthConfig {
        is_network_bind: false,
        api_key: None,
    };
    let open = require_auth_for_network(&local, "/status", None, None);
    assert!(matches!(open, AuthDecision::Pass));
}

#[test]
fn a_network_bind_without_a_key_is_refused() {
    assert!(capture_network_auth("127.0.0.1", None).is_ok());
    let refused = capture_network_auth("0.0.0.0", None);
    assert!(matches!(&refused, Err(e) if e.contains("Refusing to bind to '0.0.0.0'")));
    let empty = capture_network_auth("0.0.0.0", Some(String::new()));
    assert!(empty.is_err());
    let bound = capture_network_auth("0.0.0.0", Some("k".to_string()));
    assert!(matches!(&bound, Ok(c) if c.is_network_bind && c.api_key.as_deref() == Some("k")));
}

#[test]
fn the_probe_is_not_logged_as_a_request() {
    assert!(is_logged("/mcp"));
    assert!(!is_logged("/health"));
}

#[test]
fn default_is_loopback_only() {
    let config = build_streamable_http_config(None, None);
    assert_eq!(
        config.allowed_hosts,
        vec![
            "localhost".to_string(),
            "127.0.0.1".to_string(),
            "::1".to_string(),
        ]
    );
}

#[test]
fn custom_allowed_hosts_replaces_default() {
    let config =
        build_streamable_http_config(None, Some("codesearch.internal, codesearch:39725"));
    assert_eq!(
        config.allowed_hosts,
        vec![
            "codesearch.internal".to_string(),
            "codesearch:39725".to_string(),
        ]
    );
}

#[test]
fn disable_validation_clears_allowlist() {
    let config = build_streamable_http_config(Some("1"), None);
    assert!(config.allowed_hosts.is_empty());
}

#[test]
fn disable_validation_accepts_true_case_insensitive() {
    let config = build_streamable_http_config(Some("TRUE"), None);
    assert!(config.allowed_hosts.is_empty());
}

#[test]
fn disable_validation_ignores_other_values() {
    let config = build_streamable_http_config(Some("yes"), None);
    assert_eq!(config.allowed_hosts.len(), 3);
}

#[test]
fn empty_allowed_hosts_falls_back_to_default() {
    let config = build_streamable_http_config(None, Some("  ,  ,  "));
    assert_eq!(
        config.allowed_hosts,
        vec![
            "localhost".to_string(),
            "127.0.0.1".to_string(),
            "::1".to_string(),
        ]
    );
}

#[test]
fn disable_overrides_allowed_hosts() {
    let config = build_streamable_http_config(Some("true"), Some("codesearch.internal"));
    assert!(config.allowed_hosts.is_empty());
}

#[test]
fn extracts_host_from_plain_http_url() {
    assert_eq!(
        extract_host_from_url("http://127.0.0.1:8080/healthz"),
        Some("127.0.0.1".to_string())
    );
}

#[test]
fn extracts_host_from_https_url_without_port() {
    assert_eq!(
        extract_host_from_url("https://happywave-063747be.azurecontainerapps.io/healthz"),
        Some("happywave-063747be.azurecontainerapps.io".to_string())
    );
}

#[test]
fn extracts_host_with_no_scheme() {
    assert_eq!(
        extract_host_from_url("localhost:39725/healthz"),
        Some("localhost".to_string())
    );
}

#[test]
fn extracts_ipv6_host_preserving_brackets() {
    assert_eq!(
        extract_host_from_url("http://[::1]:8080/healthz"),
        Some("[::1]".to_string())
    );
}

#[test]
fn strips_query_and_fragment_before_host_ends() {
    assert_eq!(
        extract_host_from_url("http://example.com/healthz?x=1#frag"),
        Some("example.com".to_string())
    );
}

#[test]
fn returns_none_for_empty_host() {
    assert_eq!(extract_host_from_url("http:///healthz"), None);
}

#[test]
fn wildcard_bind_never_warns_even_for_a_foreign_looking_fqdn() {
    for wildcard in ["0.0.0.0", "::", "[::]", "0:0:0:0:0:0:0:0", ""] {
        assert_eq!(
            keep_warm_foreign_target("https://codesearch-serve.azurecontainerapps.io", wildcard),
            None,
            "wildcard bind {wildcard:?} must not warn"
        );
    }
}

#[test]
fn concrete_bind_warns_for_a_different_host() {
    assert_eq!(
        keep_warm_foreign_target("https://peer.example.com/healthz", "192.168.1.10"),
        Some("peer.example.com".to_string())
    );
}

#[test]
fn matching_host_does_not_warn() {
    assert_eq!(
        keep_warm_foreign_target("http://192.168.1.10:39725/healthz", "192.168.1.10"),
        None
    );
}

#[test]
fn loopback_targets_are_always_treated_as_self() {
    for target in [
        "http://localhost:39725/healthz",
        "http://127.0.0.1:39725/healthz",
        "http://[::1]:39725/healthz",
    ] {
        assert_eq!(
            keep_warm_foreign_target(target, "192.168.1.10"),
            None,
            "{target} is loopback and must not warn"
        );
    }
}

#[test]
fn unparseable_target_does_not_warn() {
    assert_eq!(
        keep_warm_foreign_target("http:///healthz", "192.168.1.10"),
        None
    );
}

#[test]
fn localhost_names_are_known() {
    for host in ["localhost", "127.0.0.1", "::1"] {
        assert!(is_localhost_host(host), "{host}");
    }
    assert!(!is_localhost_host("0.0.0.0"));
}

#[test]
fn serve_urls_are_compared_without_case_of_host_or_trailing_slash() {
    assert_eq!(
        normalize_serve_url("HTTP://Peer.Example.COM:80/Path/"),
        "http://peer.example.com:80/Path"
    );
}

#[test]
fn keep_warm_is_configured_by_flag_then_environment() {
    let from_flag = resolve_keep_warm_url(Some("http://a".to_string()), Some("http://b".to_string()));
    assert_eq!(from_flag.as_deref(), Some("http://a"));
    let from_env = resolve_keep_warm_url(Some(String::new()), Some("http://b".to_string()));
    assert_eq!(from_env.as_deref(), Some("http://b"));
    assert_eq!(resolve_keep_warm_url(None, Some(String::new())), None);
    assert_eq!(keep_warm_ping_url("http://a//"), "http://a/healthz");
    assert_eq!(resolve_idle_suspend(Some(5), Some("7"), 9), 5);
    assert_eq!(resolve_idle_suspend(None, Some("7"), 9), 7);
    assert_eq!(resolve_idle_suspend(None, Some("x"), 9), 9);
    assert_eq!(resolve_serve_port(None, Some("8080")), 8080);
    assert_eq!(resolve_serve_port(Some(1), Some("8080")), 1);
    assert_eq!(
        resolve_serve_port(None, Some("70000")),
        resolve_serve_port(None, None)
    );
}

#[test]
fn keep_warm_pings_only_after_real_use() {
    let second = 1_000_000_000;
    assert!(!keep_warm_due(None, 100 * second, 60));
    assert!(keep_warm_due(Some(50 * second), 100 * second, 60));
    assert!(!keep_warm_due(Some(40 * second), 100 * second, 60));
}

#[test]
fn healthz_is_unauthenticated_on_network_bind() {
    let network_auth = NetworkAuthConfig {
        is_network_bind: true,
        api_key: Some("secret-key".to_string()),
    };
    assert!(
        require_auth_for_network(&network_auth, "/healthz", None, None) == AuthDecision::Pass,
        "/healthz must be public on a network bind"
    );
    assert!(
        require_auth_for_network(&network_auth, "/health", None, None)
            == AuthDecision::Unauthorized,
        "/health must still require auth on a network bind"
    );
}
