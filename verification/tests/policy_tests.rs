//! Network-policy tests: exact domain matching under the secure scheme.

use saf::Policy;

#[test]
fn allows_exact_domain_with_and_without_path() {
    let policy = Policy::new().with_allowed_domains(vec!["example.org".to_string()]);
    assert!(policy.is_url_allowed("https://example.org/data.json"));
    assert!(policy.is_url_allowed("https://example.org"));
    assert!(policy.is_url_allowed("https://example.org/"));
}

#[test]
fn rejects_other_hosts_and_schemes() {
    let policy = Policy::new().with_allowed_domains(vec!["example.org".to_string()]);
    assert!(!policy.is_url_allowed("https://evil.example.org/x"));
    assert!(!policy.is_url_allowed("https://example.org.evil.com/"));
    assert!(!policy.is_url_allowed("https://example.orgx/"));
    assert!(!policy.is_url_allowed("http://example.org/"));
    assert!(!policy.is_url_allowed("https://example.or"));
    assert!(!policy.is_url_allowed("example.org"));
}

#[test]
fn empty_policy_allows_nothing() {
    let policy = Policy::new();
    assert_eq!(policy.max_bytes, 10 * 1024 * 1024);
    assert!(policy.allowed_domains.is_empty());
    assert!(!policy.is_url_allowed("https://example.org/"));
}

#[test]
fn any_configured_domain_matches() {
    let policy = Policy::new().with_allowed_domains(vec![
        "example.org".to_string(),
        "httpbin.org".to_string(),
    ]);
    assert!(policy.is_url_allowed("https://httpbin.org/json"));
    assert!(policy.is_url_allowed("https://example.org"));
    assert!(!policy.is_url_allowed("https://nope.org/"));
}
