use glimmerwood_core::dose::{next_day_start, Moment, Times};

const BST: i32 = 3600;
/// 2026-09-15 00:00 BST.
const MIDNIGHT_MS: i64 = 1_789_426_800_000;

/// "HH:MM" on 15 September, or "N/HH:MM" N days later.
fn at(time: &str) -> Moment {
    let (day, hhmm) = match time.split_once('/') {
        Some((d, t)) => (d.parse::<i64>().expect("day"), t),
        None => (0, time),
    };
    let (h, m) = hhmm.split_once(':').expect("HH:MM");
    let (h, m): (i64, i64) = (h.parse().expect("hour"), m.parse().expect("minute"));
    Moment {
        ms: MIDNIGHT_MS + (day * 86_400 + h * 3600 + m * 60) * 1000,
        utc_offset_s: BST,
    }
}

fn bundled() -> Times {
    Times::new("05:00", "23:00", "05:00").expect("the bundled times")
}

#[test]
fn night_follows_the_window_across_midnight() {
    let rates = bundled();
    assert!(!rates.is_night(at("22:59")));
    assert!(rates.is_night(at("23:00")));
    assert!(rates.is_night(at("1/02:00")));
    assert!(!rates.is_night(at("1/05:00")));
    assert_eq!(rates.next_night_change(at("12:00")), at("23:00"));
    assert_eq!(rates.next_night_change(at("23:30")), at("1/05:00"));
}

#[test]
fn day_boundaries_follow_the_local_offset() {
    // 05:00 BST is 04:00 UTC.
    let rates = bundled();
    let boundary = next_day_start(&rates, at("12:00"));
    assert_eq!(boundary, at("1/05:00"));
    assert_eq!((boundary.ms / 1000).rem_euclid(86_400), 4 * 3600);
}

#[test]
fn the_night_can_be_moved_but_not_to_nothing_or_nonsense() {
    let mut rates = bundled();
    rates.set_night("22:00", "06:00").expect("a valid window");
    assert!(rates.is_night(at("22:30")));
    assert!(rates.is_night(at("1/05:30")));
    assert!(!rates.is_night(at("1/06:00")));
    assert_eq!(rates.night_minutes(), (1020, 1500));
    let mut rates = bundled();
    assert!(rates.set_night("23:00", "23:00").is_err());
    assert!(rates.set_night("25:00", "05:00").is_err());
    assert!(rates.is_night(at("23:30")));
}

#[test]
fn bad_times_are_rejected_by_name() {
    assert_eq!(
        Times::new("5am", "23:00", "05:00").unwrap_err(),
        "day.starts_at \"5am\" is not HH:MM"
    );
    assert_eq!(
        Times::new("05:00", "late", "05:00").unwrap_err(),
        "night.starts_at \"late\" is not HH:MM"
    );
}

#[test]
fn local_seconds_round_down_before_1970() {
    let before = Moment {
        ms: -1,
        utc_offset_s: 0,
    };
    assert_eq!(before.local_s(), -1);
}
