use glimmerwood_core::asking::{Asker, Seen};
use glimmerwood_core::dose::Moment;

/// 2026-09-15 12:00 BST plus `minutes`, with `seconds` more.
fn at(minutes: i64, seconds: i64) -> Moment {
    Moment {
        ms: 1_789_470_000_000 + (minutes * 60 + seconds) * 1000,
        utc_offset_s: 3600,
    }
}

fn seen(now: Moment, site: Option<&str>) -> Seen<'_> {
    Seen {
        now,
        day: 1,
        site,
        allowed: true,
        last_typed: None,
    }
}

#[test]
fn it_asks_after_three_minutes_on_a_site_and_only_once_that_day() {
    let mut asker = Asker::default();
    asker.observe(seen(at(0, 0), Some("moss.example")));
    assert!(!asker.observe(seen(at(2, 0), Some("moss.example"))));
    assert_eq!(asker.due(), Some(at(3, 0)));
    assert!(asker.observe(seen(at(3, 0), Some("moss.example"))));
    assert_eq!(asker.question(), Some("moss.example"));
    assert!(asker.close("moss.example"));
    asker.observe(seen(at(30, 0), Some("moss.example")));
    assert_eq!(asker.question(), None);
    assert_eq!(asker.due(), None);
}

#[test]
fn time_on_a_site_adds_up_across_visits_but_not_time_elsewhere() {
    let mut asker = Asker::default();
    asker.observe(seen(at(0, 0), Some("moss.example")));
    asker.observe(seen(at(2, 0), None));
    asker.observe(seen(at(50, 0), Some("fern.example")));
    asker.observe(seen(at(51, 0), Some("moss.example")));
    assert_eq!(asker.due(), Some(at(52, 0)));
    assert!(asker.observe(seen(at(52, 0), Some("moss.example"))));
}

#[test]
fn it_waits_for_a_pause_in_typing() {
    let mut asker = Asker::default();
    asker.observe(seen(at(0, 0), Some("moss.example")));
    let typing = Seen {
        last_typed: Some(at(2, 58)),
        ..seen(at(3, 0), Some("moss.example"))
    };
    assert!(!asker.observe(typing));
    assert_eq!(asker.due(), Some(at(3, 8)));
    let paused = Seen {
        last_typed: Some(at(2, 58)),
        ..seen(at(3, 8), Some("moss.example"))
    };
    assert!(asker.observe(paused));
}

#[test]
fn leaving_the_site_or_the_setting_going_off_closes_the_question() {
    let mut asker = Asker::default();
    asker.observe(seen(at(0, 0), Some("moss.example")));
    asker.observe(seen(at(3, 0), Some("moss.example")));
    assert!(asker.observe(seen(at(4, 0), Some("fern.example"))));
    assert_eq!(asker.question(), None);

    asker.observe(seen(at(10, 0), Some("fern.example")));
    assert_eq!(asker.question(), Some("fern.example"));
    let night = Seen {
        allowed: false,
        ..seen(at(11, 0), Some("fern.example"))
    };
    assert!(asker.observe(night));
    assert_eq!(asker.question(), None);
}

#[test]
fn never_when_not_allowed_and_never_more_than_three_a_day() {
    let mut asker = Asker::default();
    let off = |now, site| Seen {
        allowed: false,
        ..seen(now, site)
    };
    asker.observe(off(at(0, 0), Some("a.example")));
    asker.observe(off(at(10, 0), Some("a.example")));
    assert_eq!(asker.question(), None);
    assert_eq!(asker.due(), None);

    for (i, site) in ["b.example", "c.example", "d.example", "e.example"]
        .into_iter()
        .enumerate()
    {
        let start = 20 + 10 * i as i64;
        asker.observe(seen(at(start, 0), Some(site)));
        asker.observe(seen(at(start + 3, 0), Some(site)));
        assert_eq!(asker.question().is_some(), i < 3, "{site}");
        asker.close(site);
    }

    // A new day starts afresh.
    let tomorrow = |now, site| Seen {
        day: 2,
        ..seen(now, site)
    };
    asker.observe(tomorrow(at(1440, 0), Some("e.example")));
    assert!(asker.observe(tomorrow(at(1443, 0), Some("e.example"))));
}

#[test]
fn closing_a_question_that_isnt_open_is_not_a_change() {
    let mut asker = Asker::new();
    assert!(!asker.close("moss.example"));
}

#[test]
fn over_a_day_each_question_is_a_new_site_and_three_at_most_then_a_new_day_starts_afresh() {
    let mut asker = Asker::default();
    let mut opened = Vec::new();
    for (i, site) in ["a.example", "b.example", "a.example", "c.example", "d.example"]
        .into_iter()
        .enumerate()
    {
        let start = 10 * i as i64;
        for minute in 0..5 {
            let before = asker.question().map(str::to_owned);
            asker.observe(seen(at(start + minute, 0), Some(site)));
            if let Some(q) = asker.question() {
                if before.as_deref() != Some(q) {
                    opened.push(q.to_owned());
                }
            }
        }
        asker.close(site);
    }
    assert_eq!(opened, vec!["a.example", "b.example", "c.example"]);

    let next_day = Seen { day: 2, ..seen(at(1440, 0), Some("d.example")) };
    asker.observe(next_day);
    assert!(asker.observe(Seen { day: 2, ..seen(at(1443, 0), Some("d.example")) }));
    assert_eq!(asker.question(), Some("d.example"));
}
