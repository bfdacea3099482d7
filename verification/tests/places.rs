use glimmerwood_core::dose::Phase;
use glimmerwood_core::home::PartOfDay;
use glimmerwood_core::places::{
    fits_region, month_of, offer, Kind, Moment, Pool, Region, Suggestion, PLACES,
};
use glimmerwood_core::reputation::{Entries, List};

#[test]
fn months_come_from_local_time() {
    // 2026-09-15 12:00 and 2026-01-01 00:00, 2024-02-29 in local seconds.
    assert_eq!(month_of(1_789_473_600), 9);
    assert_eq!(month_of(1_767_225_600), 1);
    assert_eq!(month_of(1_709_164_800), 2);
    assert_eq!(month_of(1_767_225_599), 12);
}

#[test]
fn months_are_right_far_from_1970() {
    assert_eq!(month_of(0), 1);
    assert_eq!(month_of(-1), 12);
    assert!((1..=12).contains(&month_of(i64::MIN)));
    assert!((1..=12).contains(&month_of(i64::MAX)));
}

#[test]
fn places_for_one_country_are_offered_only_there() {
    assert!(fits_region(Region::Uk, Some("GB")));
    assert!(fits_region(Region::Uk, Some("JE")));
    assert!(fits_region(Region::Uk, None));
    assert!(!fits_region(Region::Uk, Some("US")));
    assert!(fits_region(Region::Intl, Some("US")));
}

fn suggestion(entry: &str, kind: Kind) -> Suggestion {
    Suggestion {
        entry: entry.into(),
        url: format!("https://{entry}/"),
        name: entry.to_uppercase(),
        line: format!("All about {entry}."),
        kinds: vec![kind],
        moments: vec![PartOfDay::Day],
        seasons: vec![],
        fresh: false,
        region: Region::Intl,
    }
}

fn lists() -> Entries {
    let mut lists = Entries::new();
    for entry in ["a.org", "b.org", "c.org", "d.org", "e.org", "f.org", "g.org", "mine.org"] {
        lists.insert(entry, List::NourishingMild);
    }
    lists.insert("feed.example", List::DrainingStrong);
    lists
}

fn at(part: PartOfDay) -> Moment<'static> {
    Moment {
        part,
        month: 9,
        stretch: 100,
        phase: Phase::Engaged,
        country: Some("GB"),
        seed: 7,
    }
}

#[test]
fn the_users_own_places_come_first_and_kinds_are_mixed() {
    let pool = Pool {
        rotate_hours: 2,
        places: vec![
            suggestion("a.org", Kind::Nature),
            suggestion("b.org", Kind::Nature),
            suggestion("c.org", Kind::Art),
            suggestion("d.org", Kind::Music),
            suggestion("feed.example", Kind::Play),
        ],
    };
    let own = vec!["mine.org".to_string(), "feed.example".to_string()];
    let cards = offer(&pool, &lists(), &at(PartOfDay::Day), &own, &vec![0, 1, 2, 3, 4]);
    let entries: Vec<&str> = cards.iter().map(|c| c.entry.as_str()).collect();
    // Yours first; then one of each kind before a second nature site; never
    // a draining one.
    assert_eq!(entries, ["mine.org", "a.org", "c.org", "d.org", "b.org"]);
    assert!(cards[0].yours && cards[1..].iter().all(|c| !c.yours));
    assert_eq!(cards[0].line, "One of your good places.");
    assert_eq!(cards[0].url, "https://mine.org");
    assert!(cards.len() <= PLACES);
}

#[test]
fn nothing_is_offered_out_of_its_time() {
    let pool = Pool {
        rotate_hours: 2,
        places: vec![suggestion("a.org", Kind::Nature)],
    };
    assert!(offer(&pool, &lists(), &at(PartOfDay::Night), &vec![], &vec![0]).is_empty());
}

#[test]
fn home_is_never_offered_more_than_six() {
    let kinds = [Kind::Nature, Kind::Sky, Kind::Awe, Kind::Art, Kind::Play, Kind::Music, Kind::Poetry];
    let entries = ["a.org", "b.org", "c.org", "d.org", "e.org", "f.org", "g.org"];
    let pool = Pool {
        rotate_hours: 2,
        places: entries
            .iter()
            .zip(kinds)
            .map(|(e, k)| suggestion(e, k))
            .collect(),
    };
    let cards = offer(&pool, &lists(), &at(PartOfDay::Day), &vec![], &(0..7).collect());
    assert_eq!(cards.len(), PLACES);
}

#[test]
fn stretches_follow_the_pools_hours() {
    let pool = Pool {
        rotate_hours: 2,
        places: vec![],
    };
    assert_eq!(pool.stretch(7200 * 5 + 10), 5);
    assert_eq!(pool.stretch(-1), -1);
    let no_hours = Pool {
        rotate_hours: 0,
        places: vec![],
    };
    assert_eq!(no_hours.stretch(3600 * 3), 3);
}
