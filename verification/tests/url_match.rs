use stencilwright::url_match::{matches_signature_url, UrlError};

fn matches(sig: &str, current: &str) -> bool {
    matches_signature_url(sig, current).unwrap()
}

#[test]
fn root_does_not_match_subpath() {
    assert!(matches("https://www.example.com/", "https://www.example.com/"));
    assert!(matches("https://www.example.com/", "https://www.example.com"));
    assert!(!matches(
        "https://www.example.com/",
        "https://www.example.com/feed/main/"
    ));
}

#[test]
fn non_url_current_location_is_not_a_match() {
    assert!(!matches("https://www.example.com/login/", "about:blank"));
}

#[test]
fn trailing_slashes_are_normalized() {
    assert!(matches(
        "https://www.example.com/feed/main/",
        "https://www.example.com/feed/main"
    ));
    assert!(matches(
        "https://www.example.com/feed/main",
        "https://www.example.com/feed/main/"
    ));
}

#[test]
fn query_order_does_not_matter_and_extras_are_allowed() {
    assert!(matches(
        "https://example.test/search?q=rust&type=posts",
        "https://example.test/search?utm=1&type=posts&q=rust"
    ));
}

#[test]
fn repeated_query_keys_require_repeated_values() {
    assert!(matches(
        "https://example.test/search?tag=rust&tag=wasm",
        "https://example.test/search?tag=wasm&tag=rust&tag=cli"
    ));
    assert!(!matches(
        "https://example.test/search?tag=rust&tag=wasm",
        "https://example.test/search?tag=rust"
    ));
}

#[test]
fn fragment_is_required_only_when_present_in_signature() {
    assert!(matches(
        "https://example.test/docs",
        "https://example.test/docs#intro"
    ));
    assert!(matches(
        "https://example.test/docs#intro",
        "https://example.test/docs#intro"
    ));
    assert!(!matches(
        "https://example.test/docs#intro",
        "https://example.test/docs"
    ));
}

#[test]
fn star_and_placeholders_work_in_components() {
    assert!(matches(
        "https://*.example.test/acct/{account_id}/positions?tab=pos*#row-{row_id}",
        "https://client.example.test/acct/12345/positions?tab=positions#row-abc"
    ));
}

#[test]
fn double_star_matches_zero_or_more_path_segments() {
    assert!(matches(
        "https://example.test/accounts/**",
        "https://example.test/accounts"
    ));
    assert!(matches(
        "https://example.test/accounts/**",
        "https://example.test/accounts/a/b/c"
    ));
}

#[test]
fn signature_without_scheme_is_an_error() {
    assert_eq!(
        matches_signature_url("www.example.com/login", "https://www.example.com/login"),
        Err(UrlError::NotAbsolute)
    );
    assert_eq!(
        matches_signature_url("https:///login", "https://www.example.com/login"),
        Err(UrlError::MissingSchemeOrHost)
    );
}

#[test]
fn literal_component_matches_only_itself() {
    assert!(matches("https://example.test/a", "https://example.test/a"));
    assert!(!matches("https://example.test/a", "https://example.test/b"));
    assert!(!matches("https://example.test/a", "https://example.test/ab"));
}

#[test]
fn extra_query_pairs_keep_a_match() {
    assert!(matches(
        "https://example.test/p?x=1",
        "https://example.test/p?x=1&y=2&z"
    ));
}

#[test]
fn scheme_and_host_must_match() {
    assert!(!matches("https://example.test/p", "http://example.test/p"));
    assert!(!matches("https://example.test/p", "https://other.test/p"));
}
