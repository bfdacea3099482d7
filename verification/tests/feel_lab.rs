use glimmerwood_core::dose::Moment;
use glimmerwood_core::feel_lab::{
    due, midnight_ms, minute_of, parse_script, script_words, Due, ScriptLine, What,
};

/// The script read as the shell reads it: each word that could be a weight
/// is asked whether it is a number.
fn parse(script: &str) -> Result<Vec<ScriptLine>, String> {
    let words = script_words(script);
    let numbers: Vec<Vec<bool>> = words
        .iter()
        .map(|line| line.words.iter().map(|w| w.parse::<f64>().is_ok()).collect())
        .collect();
    parse_script(&words, &numbers)
}

#[test]
fn lab_times_are_minutes_after_midnight() {
    assert_eq!(minute_of("12:30"), Some(750));
    assert_eq!(minute_of("00:00"), Some(0));
    assert_eq!(minute_of("25:00"), None);
    assert_eq!(minute_of("12:60"), None);
    assert_eq!(minute_of("noon"), None);
}

#[test]
fn the_lab_day_starts_at_local_midnight() {
    // 2026-09-15 10:00 BST is 09:00 UTC; midnight BST is 23:00 UTC the day before.
    let real = Moment {
        ms: 1_789_462_800_000,
        utc_offset_s: 3600,
    };
    assert_eq!(midnight_ms(real), 1_789_426_800_000);
}

#[test]
fn scripts_with_mistakes_are_rejected() {
    assert!(parse("25:00 away").is_err());
    assert!(parse("09:00 dancing").is_err());
    assert!(parse("10:00 away\n09:00 away").is_err());
}

#[test]
fn a_script_says_what_happens_from_when() {
    let script = "# A short day\n\n07:50 nourishing 0.5 wikipedia.org\n  08:10   draining 1 tiktok.com\n09:00 news bbc.co.uk\n09:30 ordinary gmail.com\n10:00 unlisted\n10:10 private\n11:00 away\n23:40 end\n";
    let lines = parse(script).unwrap();
    let read: Vec<(i64, What, &str, &str)> = lines
        .iter()
        .map(|l| (l.minute, l.what, l.weight.as_str(), l.entry.as_str()))
        .collect();
    assert_eq!(
        read,
        vec![
            (470, What::Nourishing, "0.5", "wikipedia.org"),
            (490, What::Draining, "1", "tiktok.com"),
            (540, What::News, "", "bbc.co.uk"),
            (570, What::Ordinary, "", "gmail.com"),
            (600, What::Unlisted, "", ""),
            (610, What::Private, "", ""),
            (660, What::Away, "", ""),
            (1420, What::End, "", ""),
        ]
    );
}

#[test]
fn a_mistake_names_its_line() {
    assert_eq!(
        parse("# day\n07:00 away\n08:00 draining lots x.com").unwrap_err(),
        "feel lab line 3: weight is not a number: \"08:00 draining lots x.com\""
    );
    assert_eq!(parse("away").unwrap_err(), "feel lab line 1: no HH:MM: \"away\"");
    assert_eq!(
        parse("10:00 away\n09:00 away").unwrap_err(),
        "feel lab line 2: lines must be in time order: \"09:00 away\""
    );
    assert_eq!(parse("09:00 dancing").unwrap_err(), "feel lab line 1: unknown activity: \"09:00 dancing\"");
    // The first mistake is the one reported.
    assert_eq!(
        parse("09:00 dancing\n25:00 away").unwrap_err(),
        "feel lab line 1: unknown activity: \"09:00 dancing\""
    );
}

#[test]
fn jumping_ahead_plays_every_earlier_line_in_order() {
    let midnight = 1_789_426_800_000;
    let minutes = vec![470, 490, 540, 1420];
    let at = |minute: i64| Moment { ms: midnight + minute * 60_000, utc_offset_s: 3600 };
    let (steps, next) = due(&minutes, 0, midnight, 3600, at(600));
    assert_eq!(next, 3);
    assert_eq!(
        steps,
        vec![
            Due { at: at(470), until: at(490), line: 0 },
            Due { at: at(490), until: at(540), line: 1 },
            Due { at: at(540), until: at(1420), line: 2 },
        ]
    );
    // Nothing more until the next line, and the last lasts a day.
    assert_eq!(due(&minutes, 3, midnight, 3600, at(1419)), (vec![], 3));
    let (last, next) = due(&minutes, 3, midnight, 3600, at(1420));
    assert_eq!(next, 4);
    assert_eq!(last, vec![Due { at: at(1420), until: at(1420 + 1440), line: 3 }]);
}
