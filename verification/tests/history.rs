use glimmerwood_core::dose::Moment;
use glimmerwood_core::history::{replaces_from, visit, week_start, worth_keeping};

fn at(ms: i64) -> Moment {
    Moment { ms, utc_offset_s: 0 }
}

#[test]
fn a_page_is_written_down_with_its_site() {
    let v = visit(at(1_000), "https://www.example.org/a", "A").expect("worth keeping");
    assert_eq!((v.at, v.url.as_str(), v.title.as_str(), v.host.as_str()), (1_000, "https://www.example.org/a", "A", "example.org"));
}

#[test]
fn glimmerwoods_own_pages_and_blank_tabs_are_not_places_you_went() {
    assert!(visit(at(0), "glimmerwood://home/", "Home").is_none());
    assert!(visit(at(0), "", "").is_none());
    assert!(visit(at(0), "about:blank", "").is_none());
    assert!(!worth_keeping("file:///etc/passwd"));
}

#[test]
fn the_week_and_the_minute_are_counted_back_from_now() {
    assert_eq!(week_start(at(700_000_000)), 700_000_000 - 7 * 86_400_000);
    assert_eq!(replaces_from(at(100_000)), 40_000);
}
