use glimmerwood_core::failure::{fill, host, Reason};

const TEMPLATE: &str = "<h1>{{title}}</h1><p>{{detail}}</p><a href=\"{{uri}}\">Try again</a>";

#[test]
fn a_silent_server_is_named_rather_than_blamed_on_a_cancellation() {
    let page = fill(TEMPLATE, "http://calm.neverssl.com/online", &Reason::NoAnswer);
    assert!(page.contains("calm.neverssl.com didn’t answer"), "{page}");
    assert!(!page.to_lowercase().contains("cancel"), "{page}");
}

#[test]
fn an_untrusted_certificate_says_what_is_at_stake() {
    let page = fill(TEMPLATE, "https://expired.example.org/", &Reason::Untrusted);
    assert!(page.contains("private connection"), "{page}");
    assert!(page.contains("read by someone else"), "{page}");
}

#[test]
fn failure_other_errors_keep_the_engines_words() {
    let page = fill(TEMPLATE, "https://x/", &Reason::Other("Odd thing".into()));
    assert!(page.contains("Odd thing"), "{page}");
}

#[test]
fn hosts_come_from_the_authority() {
    assert_eq!(host("https://user@example.org:8080/a?b#c"), "example.org:8080");
    assert_eq!(host("http://example.org"), "example.org");
    assert_eq!(host(""), "This page");
}

#[test]
fn everything_from_the_address_is_escaped() {
    let page = fill(TEMPLATE, "http://x/\"><script>alert(1)</script>", &Reason::NoAnswer);
    assert!(!page.contains("<script>"), "{page}");
    assert!(page.contains("&quot;&gt;&lt;script&gt;"), "{page}");
}

#[test]
fn every_placeholder_is_filled() {
    let page = fill("{{title}}|{{title}}|{{detail}}|{{uri}}", "http://a.example/", &Reason::Offline);
    assert_eq!(
        page,
        "Not connected|Not connected|Glimmerwood can’t reach the network at the moment.|http://a.example/"
    );
}

