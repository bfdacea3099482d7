use glimmerwood_core::diary::{
    civil, date_range, kind, layout, plant_kind, weekday, wisp_phase, Recorded, Step, Tally,
};
use glimmerwood_core::dose::{day_of, Mode, Moment, Phase, Times};
use glimmerwood_core::home::Plant;
use glimmerwood_core::protocol::{PlantKind, TimeKind, WispPhase};
use glimmerwood_core::store::GardenDay;

/// 05:00 BST on Tuesday 15 September 2026, the start of that day.
const DAY_START_MS: i64 = 1_789_444_800_000;

fn at(day: i64, minute: i64) -> Moment {
    Moment {
        ms: DAY_START_MS + day * 86_400_000 + minute * 60_000,
        utc_offset_s: 3600,
    }
}

/// The bundled rates' clock: days from 05:00, the night from 23:00 to 05:00.
fn bundled() -> Times {
    Times::new("05:00", "23:00", "05:00").expect("the bundled times")
}

#[test]
fn calendar_arithmetic() {
    let rates = bundled();
    let today = day_of(&rates, at(0, 0));
    assert_eq!(today, 20_711);
    assert_eq!(weekday(today), "Tue");
    assert_eq!(civil(today), (2026, 9, 15));
    assert_eq!(civil(0), (1970, 1, 1));
    assert_eq!(civil(11_016), (2000, 2, 29));
    assert_eq!(date_range(today - 6, today), "9–15 Sep");
    assert_eq!(date_range(today - 20, today - 14), "26 Aug – 1 Sep");
    // Four in the morning still belongs to yesterday.
    assert_eq!(day_of(&rates, at(0, -60)), today - 1);
    assert_eq!(rates.minute_of_day(at(0, -60)), 1380);
    assert_eq!(rates.night_minutes(), (1080, 1440));
}

#[test]
fn time_away_is_not_a_kind_of_time() {
    assert_eq!(kind(Mode::Away), None);
    assert_eq!(kind(Mode::Draining), Some(TimeKind::Wearing));
    assert_eq!(kind(Mode::Nourishing), Some(TimeKind::Restoring));
    assert_eq!(kind(Mode::Holding), Some(TimeKind::Everyday));
    assert_eq!(kind(Mode::Resting), Some(TimeKind::Everyday));
}

#[test]
fn plants_and_phases_go_on_the_wire_as_they_are() {
    assert_eq!(plant_kind(Plant::Fern), PlantKind::Fern);
    assert_eq!(wisp_phase(Phase::Clouded), WispPhase::Clouded);
}

#[test]
fn before_1970_counts_back() {
    assert_eq!(civil(-1), (1969, 12, 31));
    assert_eq!(weekday(0), "Thu");
    assert_eq!(weekday(-1), "Wed");
}

fn rec(day: i64, minute: i64, mode: Mode, entry: Option<(&str, TimeKind)>) -> Recorded {
    Recorded {
        at: at(day, minute),
        mode,
        entry: entry.map(|(e, k)| (e.to_string(), k)),
    }
}

fn run(mode: Mode, entry: Option<(&str, TimeKind)>, day: i64, from: i64, minutes: i64) -> Vec<Recorded> {
    (from..from + minutes).map(|m| rec(day, m, mode, entry)).collect()
}

fn total(t: &Tally) -> u64 {
    t.restoring + t.everyday + t.wearing
}

#[test]
fn the_line_keeps_a_point_every_five_minutes_and_breaks_after_a_gap() {
    let rates = bundled();
    let mut samples = vec![rec(-1, 900, Mode::Draining, None)];
    for m in 0..12 {
        samples.push(rec(0, 60 + m, Mode::Holding, None));
    }
    samples.push(rec(0, 132, Mode::Holding, None));
    let diary = layout(&rates, &samples, &vec![], at(0, 133));
    assert_eq!(
        diary.line,
        vec![
            Step { minute: 64, gap: false, sample: Some(5) },
            Step { minute: 69, gap: false, sample: Some(10) },
            Step { minute: 71, gap: false, sample: Some(12) },
            Step { minute: 133, gap: true, sample: None },
        ]
    );
    assert_eq!(diary.now_minute, 133);
    assert_eq!(diary.today, 20_711);
}

#[test]
fn the_week_counts_each_day_by_kind_and_shows_what_grew() {
    let rates = bundled();
    let mut samples = Vec::new();
    samples.extend(run(Mode::Draining, Some(("tiktok.com", TimeKind::Wearing)), -4, 600, 30));
    samples.extend(run(Mode::Holding, None, -4, 700, 30));
    samples.push(rec(-4, 800, Mode::Away, None));
    samples.extend(run(Mode::Nourishing, Some(("gutenberg.org", TimeKind::Restoring)), -2, 600, 15));
    samples.extend(run(Mode::Away, None, -1, 600, 90));
    let today = day_of(&rates, at(0, 0));
    let garden = vec![
        GardenDay { day: today - 2, plant: Some(Plant::Fern), fireflies: false },
        GardenDay { day: today - 1, plant: Some(Plant::Moss), fireflies: true },
    ];
    let diary = layout(&rates, &samples, &garden, at(0, 10));
    let week = &diary.week;
    assert_eq!(week.len(), 7);
    assert_eq!(
        week.iter().map(|d| d.label.as_str()).collect::<Vec<_>>(),
        ["Wed", "Thu", "Fri", "Sat", "Sun", "Mon", "Today"]
    );
    assert_eq!(
        week.iter().map(|d| d.known).collect::<Vec<_>>(),
        [false, false, true, true, true, true, true]
    );
    assert_eq!(week[2].tally, Tally { restoring: 0, everyday: 30, wearing: 30 });
    assert_eq!(week[4].tally, Tally { restoring: 15, everyday: 0, wearing: 0 });
    assert_eq!(week[4].plant, Some(PlantKind::Fern));
    // A day spent away counts nothing, and still grew moss.
    assert_eq!(total(&week[5].tally), 0);
    assert_eq!(week[5].plant, Some(PlantKind::Moss));
    assert_eq!(week[6].plant, None);
    assert_eq!(total(&diary.this_week), 75);
    assert!(diary.earlier.is_empty());
}

#[test]
fn weeks_before_reach_back_only_as_far_as_the_history() {
    let rates = bundled();
    let mut samples = run(Mode::Holding, None, -17, 600, 40);
    samples.extend(run(Mode::Holding, None, -3, 600, 10));
    let today = day_of(&rates, at(0, 0));
    let garden = vec![GardenDay { day: today - 16, plant: Some(Plant::Flower), fireflies: false }];
    let diary = layout(&rates, &samples, &garden, at(0, 0));
    let labels: Vec<&str> = diary.earlier.iter().map(|w| w.label.as_str()).collect();
    assert_eq!(labels, ["2–8 Sep", "26 Aug – 1 Sep"]);
    assert_eq!(diary.first_day, today - 17);
    assert_eq!(total(&diary.earlier[0].tally), 0);
    assert_eq!(diary.earlier[1].tally.everyday, 40);
    assert_eq!(diary.earlier[1].plants, vec![PlantKind::Flower]);
    assert_eq!(diary.earlier[1].from, today - 20);
}

#[test]
fn entries_are_named_by_time_and_only_when_they_moved_the_wisp() {
    let rates = bundled();
    let mut samples = Vec::new();
    samples.extend(run(Mode::Draining, Some(("twitch.tv", TimeKind::Wearing)), -8, 0, 90));
    samples.extend(run(Mode::Draining, Some(("imgur.com", TimeKind::Wearing)), -3, 0, 7));
    samples.extend(run(Mode::Draining, Some(("tiktok.com", TimeKind::Wearing)), -2, 0, 20));
    samples.extend(run(Mode::Draining, Some(("x.com", TimeKind::Wearing)), -2, 100, 8));
    samples.extend(run(Mode::Draining, Some(("reddit.com", TimeKind::Wearing)), -1, 0, 60));
    samples.extend(run(Mode::Nourishing, Some(("wikipedia.org", TimeKind::Restoring)), 0, 0, 25));
    samples.extend(run(Mode::Nourishing, Some(("nhs.uk", TimeKind::Restoring)), 0, 30, 4));
    samples.extend(run(Mode::Resting, Some(("gmail.com", TimeKind::Everyday)), 0, 40, 90));
    samples.extend(run(Mode::Holding, None, 0, 140, 90));
    samples.extend(run(Mode::Away, Some(("youtube.com", TimeKind::Wearing)), 0, 300, 90));
    let diary = layout(&rates, &samples, &vec![], at(0, 400));
    let named: Vec<(&str, TimeKind, u32)> =
        diary.sites.iter().map(|s| (s.label.as_str(), s.kind, s.bars)).collect();
    assert_eq!(
        named,
        [
            ("wikipedia.org", TimeKind::Restoring, 2),
            ("reddit.com", TimeKind::Wearing, 3),
            ("tiktok.com", TimeKind::Wearing, 2),
            ("x.com", TimeKind::Wearing, 1),
        ]
    );
}

#[test]
fn entries_with_the_same_time_are_named_in_order() {
    let rates = bundled();
    let mut samples = Vec::new();
    samples.extend(run(Mode::Draining, Some(("b.com", TimeKind::Wearing)), -1, 0, 10));
    samples.extend(run(Mode::Draining, Some(("a.com", TimeKind::Wearing)), -1, 20, 10));
    samples.extend(run(Mode::Nourishing, Some(("a.com", TimeKind::Restoring)), -1, 40, 5));
    let diary = layout(&rates, &samples, &vec![], at(0, 0));
    let named: Vec<(&str, TimeKind, u32)> =
        diary.sites.iter().map(|s| (s.label.as_str(), s.kind, s.bars)).collect();
    assert_eq!(
        named,
        [
            ("a.com", TimeKind::Restoring, 3),
            ("a.com", TimeKind::Wearing, 3),
            ("b.com", TimeKind::Wearing, 3),
        ]
    );
}

#[test]
fn nothing_recorded_is_only_the_moment_now() {
    let rates = bundled();
    let diary = layout(&rates, &vec![], &vec![], at(0, 90));
    assert_eq!(diary.line, vec![Step { minute: 90, gap: false, sample: None }]);
    assert!(diary.week[..6].iter().all(|d| !d.known));
    assert!(diary.week[6].known && total(&diary.week[6].tally) == 0);
    assert!(diary.earlier.is_empty() && diary.sites.is_empty());
}
