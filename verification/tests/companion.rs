use glimmerwood_core::companion::{tidied, tidy_path};
use glimmerwood_core::companion::{
    added_message, clock_label, country_from_locales, feeds_counted, lab_title, removed_message,
    samaritans, wake_delay, welcome_until, HomeAction, READ_THEM, garden_due, garden_grew_yesterday, home_plants, met_now,
};
use glimmerwood_core::dose::{Mode, Moment, Phase, Trend};
use glimmerwood_core::home::Plant;
use glimmerwood_core::protocol::{HomePlant, PlantKind};
use glimmerwood_core::store::GardenDay;
use glimmerwood_core::home::Topic;

#[test]
fn the_country_comes_from_the_first_locale_that_names_one() {
    let names = |v: &[&str]| v.iter().map(|s| s.to_string()).collect::<Vec<_>>();
    assert_eq!(country_from_locales(&names(&["en_GB.UTF-8"])), Some("GB".into()));
    assert_eq!(country_from_locales(&names(&["C", "fr_fr"])), Some("FR".into()));
    assert_eq!(country_from_locales(&names(&["en", "C.UTF-8"])), None);
    assert_eq!(country_from_locales(&names(&["x_ABC"])), None);
}

#[test]
fn counts_of_feeds_read_as_words() {
    assert_eq!(feeds_counted(1), "1 feed");
    assert_eq!(feeds_counted(12), "12 feeds");
    assert_eq!(feeds_counted(0), "0 feeds");
}

#[test]
fn clock_times_are_said_as_people_say_them() {
    assert_eq!(clock_label("23:00"), "11pm");
    assert_eq!(clock_label("00:30"), "12:30am");
    assert_eq!(clock_label("00:00"), "midnight");
    assert_eq!(clock_label("12:00"), "12pm");
    assert_eq!(clock_label("late"), "midnight");
}

#[test]
fn home_buttons_say_what_they_ask_for() {
    assert_eq!(HomeAction::parse("got-it/night"), Some(HomeAction::GotIt(Topic::Night)));
    assert_eq!(HomeAction::parse("got-it/shiny"), None);
    assert_eq!(
        HomeAction::parse("forget-bookmark/-12"),
        Some(HomeAction::ForgetBookmark(-12))
    );
    assert_eq!(HomeAction::parse("open-download/7"), Some(HomeAction::OpenDownload(7)));
    assert_eq!(HomeAction::parse("open-download/-7"), None);
    assert_eq!(HomeAction::parse("forget-since/15"), Some(HomeAction::ForgetSince(15)));
    assert_eq!(HomeAction::parse("forget-since/0"), None);
    assert_eq!(HomeAction::parse("forget-since/121"), None);
    assert_eq!(HomeAction::parse("forget-since/many"), None);
    assert_eq!(HomeAction::parse("format/disk"), None);
    assert_eq!(HomeAction::parse("got-it"), None);
}

#[test]
fn the_good_news_button_says_what_it_did() {
    assert_eq!(
        added_message("~/.newsboat/urls", 0, 5),
        "~/.newsboat/urls has every one of them already."
    );
    assert_eq!(
        added_message("~/.newsboat/urls", 3, 0),
        format!("Added 3 feeds to ~/.newsboat/urls. {READ_THEM}")
    );
    assert_eq!(
        added_message("~/.newsboat/urls", 1, 2),
        format!("Added 1 feed to ~/.newsboat/urls; it had 2 already. {READ_THEM}")
    );
    assert_eq!(
        removed_message("~/.newsboat/urls", 0),
        "There was nothing of Glimmerwood's in ~/.newsboat/urls to take out."
    );
    assert_eq!(
        removed_message("~/.newsboat/urls", 2),
        "Took 2 feeds out of ~/.newsboat/urls. Your own feeds are as they were."
    );
}

#[test]
fn the_samaritans_answer_in_the_uk_ireland_and_the_islands() {
    assert!(samaritans(Some("GB")));
    assert!(samaritans(Some("IE")));
    assert!(!samaritans(Some("US")));
    assert!(!samaritans(None));
}

fn at(ms: i64) -> Moment {
    Moment {
        ms: 1_789_426_800_000 + ms,
        utc_offset_s: 3600,
    }
}

#[test]
fn the_companion_sleeps_until_the_next_thing_that_matters() {
    let now = at(10_000);
    // Nothing moving: the next minute of history.
    assert_eq!(wake_delay(now, i64::MAX, Trend::Steady, Mode::Resting, None, None), 50_000);
    // A moving wisp refreshes every second while someone is there.
    assert_eq!(wake_delay(now, i64::MAX, Trend::Rising, Mode::Draining, None, None), 1_000);
    assert_eq!(wake_delay(now, i64::MAX, Trend::Falling, Mode::Away, None, None), 5_000);
    // A question falling due, or the engine's own change, comes first.
    assert_eq!(
        wake_delay(now, i64::MAX, Trend::Steady, Mode::Resting, None, Some(at(12_000))),
        2_000
    );
    assert_eq!(wake_delay(now, now.ms + 3, Trend::Steady, Mode::Resting, None, None), 20);
    // A welcome that is over doesn't count.
    assert_eq!(
        wake_delay(now, i64::MAX, Trend::Steady, Mode::Resting, Some(now.ms), None),
        50_000
    );
}

#[test]
fn only_a_long_time_away_gets_a_welcome() {
    assert_eq!(welcome_until(at(0), at(7_200_000)), Some(at(7_200_000).ms + 90_000));
    assert_eq!(welcome_until(at(0), at(7_199_999)), None);
}

#[test]
fn the_lab_says_its_clock() {
    // 00:00 BST plus 13 hours and 5 minutes.
    assert_eq!(lab_title(at((13 * 60 + 5) * 60_000)), "Feel lab · 13:05");
}

#[test]
fn home_explains_what_is_happening_now() {
    assert_eq!(
        met_now(Mode::Draining, Phase::Clouded, true, true, false, false),
        vec![Topic::Draining, Topic::Night]
    );
    // A rested wisp on a draining site has met nothing to explain yet.
    assert!(met_now(Mode::Draining, Phase::Rested, true, false, false, false).is_empty());
    assert_eq!(met_now(Mode::Holding, Phase::Rested, true, false, true, false), vec![Topic::Privacy]);
    // On a care site the wisp stays close.
    assert!(met_now(Mode::Holding, Phase::Rested, true, false, true, true).is_empty());
    // Away at night is not being here at night.
    assert!(met_now(Mode::Away, Phase::Rested, false, true, false, false).is_empty());
}

#[test]
fn the_garden_shows_the_days_that_grew() {
    let garden = vec![
        GardenDay { day: 10, plant: Some(Plant::Moss), fireflies: false },
        GardenDay { day: 11, plant: None, fireflies: true },
        GardenDay { day: 12, plant: Some(Plant::Flower), fireflies: true },
    ];
    assert_eq!(
        home_plants(&garden),
        vec![
            HomePlant { kind: PlantKind::Moss, fireflies: false },
            HomePlant { kind: PlantKind::Flower, fireflies: true },
        ]
    );
    assert!(garden_grew_yesterday(&garden, 13));
    assert!(!garden_grew_yesterday(&garden, 14));
    assert!(!garden_grew_yesterday(&garden[..2].to_vec(), 12));
    assert!(!garden_grew_yesterday(&vec![], 13));
}

#[test]
fn the_garden_records_the_days_it_has_not_seen() {
    // After the last recorded day, up to today.
    assert_eq!(garden_due(Some(100), 50, 105), (101, 105));
    // With nothing recorded, from the first day of history.
    assert_eq!(garden_due(None, 100, 105), (100, 105));
    // Never further back than history is kept.
    assert_eq!(garden_due(None, 0, 1000), (911, 1000));
    // Nothing to do when today is already recorded up to.
    assert_eq!(garden_due(Some(104), 0, 105), (105, 105));
}

use glimmerwood_core::bookmarks::Bookmark;
use glimmerwood_core::companion::{
    caption_lines, home_view, now_line, places_still_hold, private_flag, untouched_tabs,
    wisp_message, Lean, Presence,
};
use glimmerwood_core::dose::{Factor, FactorKind};
use glimmerwood_core::home::{About, Greeting, PartOfDay};
use glimmerwood_core::places::PlaceCard;
use glimmerwood_core::protocol::{CaptionKind, DayPart, WispMode, WispPhase, WispTrend};

fn factors() -> Vec<Factor> {
    vec![
        Factor {
            what: FactorKind::Wearing { entry: "feed.example".into(), heard: false },
            bars: 3,
        },
        Factor { what: FactorKind::Clutter { tabs: 4 }, bars: 0 },
        Factor {
            what: FactorKind::Restoring { entry: "radio.example".into(), heard: true },
            bars: 1,
        },
        Factor { what: FactorKind::Away, bars: 2 },
    ]
}

#[test]
fn the_line_about_now_never_names_a_private_or_care_site() {
    let private = now_line(&Presence::Private, "secret.example", false);
    assert_eq!((private.kind, private.label.as_str(), private.bars), (CaptionKind::Private, "", 0));
    let care = now_line(&Presence::Private, "crisis.example", true);
    assert_eq!((care.kind, care.label.as_str()), (CaptionKind::Care, ""));
    let unlisted = now_line(&Presence::Unlisted, "new.example", false);
    assert_eq!((unlisted.kind, unlisted.label.as_str()), (CaptionKind::Holding, "new.example"));
    let listed = Presence::Listed { entry: "bbc.co.uk".into(), lean: Lean::Wearing };
    let wearing = now_line(&listed, "news.bbc.co.uk", false);
    assert_eq!((wearing.kind, wearing.label.as_str()), (CaptionKind::Wearing, "bbc.co.uk"));
    let ordinary = Presence::Listed { entry: "bank.example".into(), lean: Lean::Ordinary };
    assert_eq!(now_line(&ordinary, "bank.example", false).kind, CaptionKind::OrdinarySites);
    assert_eq!(now_line(&Presence::Away, "x.example", false).kind, CaptionKind::Away);
}

#[test]
fn the_wisp_turns_away_on_private_sites_but_stays_close_on_care_sites() {
    assert!(private_flag(&Presence::Private, false));
    assert!(!private_flag(&Presence::Private, true));
    assert!(!private_flag(&Presence::Unlisted, false));
    assert!(!private_flag(&Presence::Away, false));
}

#[test]
fn the_caption_has_a_line_for_each_factor_but_clutter_which_counts_tabs() {
    let lines = caption_lines(&factors());
    assert_eq!(lines.len(), 3);
    assert_eq!((lines[0].kind, lines[0].label.as_str(), lines[0].bars), (CaptionKind::Wearing, "feed.example", 3));
    assert_eq!((lines[1].kind, lines[1].heard, lines[1].bars), (CaptionKind::Restoring, true, 1));
    assert_eq!((lines[2].kind, lines[2].label.as_str()), (CaptionKind::Away, ""));
    assert_eq!(untouched_tabs(&factors()), 4);
    assert_eq!(untouched_tabs(&Vec::new()), 0);
}

#[test]
fn the_wisp_message_carries_the_engine_state_and_where_the_user_is() {
    let m = wisp_message(
        Phase::Clouded,
        Mode::Draining,
        Trend::Rising,
        true,
        &Presence::Private,
        "secret.example",
        false,
        false,
        &factors(),
        2,
    );
    assert_eq!((m.phase, m.mode, m.trend), (WispPhase::Clouded, WispMode::Draining, WispTrend::Rising));
    assert!(m.night && m.private && !m.welcome);
    assert_eq!((m.now.kind, m.now.label.as_str()), (CaptionKind::Private, ""));
    assert_eq!(m.caption.len(), 3);
    assert_eq!((m.untouched_tabs, m.other_tabs), (4, 2));
}

#[test]
fn home_keeps_its_places_for_the_stretch_they_were_picked_for() {
    let own = vec!["a.example".to_string(), "b.example".to_string()];
    let memo = Some((7i64, PartOfDay::Evening, own.clone()));
    assert!(places_still_hold(&memo, 7, PartOfDay::Evening, &own));
    assert!(!places_still_hold(&memo, 8, PartOfDay::Evening, &own));
    assert!(!places_still_hold(&memo, 7, PartOfDay::Night, &own));
    assert!(!places_still_hold(&memo, 7, PartOfDay::Evening, &vec!["a.example".to_string()]));
    assert!(!places_still_hold(&None, 7, PartOfDay::Evening, &own));
}

#[test]
fn home_shows_the_greeting_places_bookmarks_and_garden() {
    let greeting = Greeting {
        title: "Good evening".into(),
        line: "A calm day.".into(),
        explain: Some((Topic::Night, "The night is for rest.".into())),
        about: true,
    };
    let about = About {
        title: "Hello".into(),
        paragraphs: vec!["One.".into(), "Two.".into()],
        done: "Got it".into(),
    };
    let places = vec![PlaceCard {
        entry: "wiki.example".into(),
        name: "Wiki".into(),
        line: "Read something".into(),
        url: "https://wiki.example/".into(),
        yours: true,
    }];
    let bookmarks = vec![Bookmark {
        id: 3,
        url: "https://www.Books.example/shelf".into(),
        title: "Shelf".into(),
    }];
    let home = home_view(&greeting, &about, PartOfDay::Evening, &places, &bookmarks, &Vec::new(), 42);
    assert_eq!(home.title, "Good evening");
    assert_eq!(home.line, "A calm day.");
    let a = home.about.expect("introduced");
    assert_eq!((a.title.as_str(), a.paragraphs.len(), a.done.as_str()), ("Hello", 2, "Got it"));
    let e = home.explain.expect("explained");
    assert_eq!((e.topic.as_str(), e.text.as_str()), ("night", "The night is for rest."));
    assert_eq!(home.part, DayPart::Evening);
    assert_eq!((home.places[0].name.as_str(), home.places[0].yours), ("Wiki", true));
    assert_eq!((home.bookmarks[0].id, home.bookmarks[0].host.as_str()), (3, "books.example"));
    assert!(home.plants.is_empty());
    assert_eq!(home.seed, 42);

    let quiet = Greeting { title: "Hi".into(), line: String::new(), explain: None, about: false };
    let plain = home_view(&quiet, &about, PartOfDay::Morning, &Vec::new(), &Vec::new(), &Vec::new(), 1);
    assert!(plain.about.is_none() && plain.explain.is_none());
    assert_eq!(plain.part, DayPart::Morning);
}

#[test]
fn paths_under_home_are_written_with_a_tilde() {
    assert_eq!(tidy_path("/home/ann/.newsboat/urls", "/home/ann"), "~/.newsboat/urls");
    assert_eq!(tidy_path("/home/ann/.newsboat/urls", "/home/ann/"), "~/.newsboat/urls");
    assert_eq!(tidy_path("/home/annex/urls", "/home/ann"), "/home/annex/urls");
    assert_eq!(tidy_path("/etc/glimmerwood", "/home/ann"), "/etc/glimmerwood");
    assert_eq!(tidied("/x/y", &Some("y".to_string())), "~/y");
    assert_eq!(tidied("/x/y", &None), "/x/y");
}
