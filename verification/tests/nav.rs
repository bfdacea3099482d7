use glimmerwood_core::nav::host_of;
use glimmerwood_core::nav::{resolve, same_address, security, unescape, Target, SEARCH};
use glimmerwood_core::protocol::Security;

fn uri(input: &str) -> String {
    resolve(input).expect("resolves").uri
}

fn target(input: &str) -> Option<(String, Option<String>)> {
    resolve(input).map(|t: Target| (t.uri, t.fallback))
}

#[test]
fn empty_input_goes_nowhere() {
    assert!(resolve("   ").is_none());
}

#[test]
fn bare_domains_try_https_first() {
    assert_eq!(
        target("wikipedia.org"),
        Some((
            "https://wikipedia.org".to_string(),
            Some("http://wikipedia.org".to_string())
        ))
    );
    assert_eq!(
        uri("en.wikipedia.org/wiki/Moss"),
        "https://en.wikipedia.org/wiki/Moss"
    );
    assert_eq!(uri("localhost:8080"), "https://localhost:8080");
    assert_eq!(uri("192.168.1.1"), "https://192.168.1.1");
}

#[test]
fn typed_http_is_upgraded_but_can_fall_back() {
    assert_eq!(
        target("http://example.org/a"),
        Some((
            "https://example.org/a".to_string(),
            Some("http://example.org/a".to_string())
        ))
    );
}

#[test]
fn typed_https_is_used_as_is() {
    assert_eq!(
        target("https://example.org"),
        Some(("https://example.org".to_string(), None))
    );
}

#[test]
fn everything_else_is_a_search() {
    assert_eq!(uri("moss gardens"), format!("{SEARCH}moss+gardens"));
    assert_eq!(uri("3.14"), format!("{SEARCH}3.14"));
    assert_eq!(uri("what is c++?"), format!("{SEARCH}what+is+c%2B%2B%3F"));
    assert_eq!(uri("café"), format!("{SEARCH}caf%C3%A9"));
    assert_eq!(uri("rust"), format!("{SEARCH}rust"));
}

#[test]
fn schemes_that_could_run_code_are_searched_not_opened() {
    assert!(uri("javascript:alert(1)").starts_with(SEARCH));
    assert!(uri("glimmerwood://chrome/index.html").starts_with(SEARCH));
    assert!(uri("file:///etc/passwd").starts_with(SEARCH));
}

#[test]
fn same_address_allows_for_the_added_slash() {
    assert!(same_address("https://example.org", "https://example.org/"));
    assert!(same_address("https://Example.org/", "https://example.org"));
    assert!(!same_address(
        "https://example.org/a",
        "https://example.org/"
    ));
    assert!(!same_address("https://example.org", "http://example.org/"));
}

#[test]
fn security_follows_the_scheme() {
    assert_eq!(security("https://example.org"), Security::Secure);
    assert_eq!(security("HTTP://example.org"), Security::NotSecure);
    assert_eq!(security("about:blank"), Security::Local);
    assert_eq!(security(""), Security::Local);
}

#[test]
fn percent_signs_come_back_as_what_they_stood_for() {
    assert_eq!(unescape("a%20b"), "a b");
    assert_eq!(unescape("caf%C3%A9"), "café");
    assert_eq!(unescape("100%"), "100%");
    assert_eq!(unescape("%zz"), "%zz");
    assert_eq!(unescape("plain"), "plain");
}

#[test]
fn about_blank_and_ipv6_literals_are_addresses() {
    assert_eq!(target("About:Blank"), Some(("about:blank".to_string(), None)));
    assert_eq!(uri("[::1]:8080/x"), "https://[::1]:8080/x");
    assert!(uri("example.org:port").starts_with(SEARCH));
    assert!(uri("a..b").starts_with(SEARCH));
}

#[test]
fn hosts_drop_www_and_case() {
    assert_eq!(host_of("https://www.Example.org/a"), "example.org");
    assert_eq!(host_of("http://example.org:8080/"), "example.org");
    assert_eq!(host_of("glimmerwood://home/"), "");
    assert_eq!(host_of("about:blank"), "");
}

#[test]
fn every_byte_escaped_comes_back_in_either_case() {
    for text in ["café", "a b", "100%", "日本"] {
        let upper: String = text.bytes().map(|b| format!("%{b:02X}")).collect();
        let lower: String = text.bytes().map(|b| format!("%{b:02x}")).collect();
        assert_eq!(unescape(&upper), text);
        assert_eq!(unescape(&lower), text);
    }
}
