use glimmerwood_core::dose::Moment;
use glimmerwood_core::home::{by_the_clock, ByPart, PartOfDay, Plant, Topic};
use glimmerwood_core::home::{line_for_day, praise, to_explain, Praise, WentWell};

#[test]
fn topics_and_plants_are_found_again_by_their_keys() {
    for topic in [Topic::About, Topic::Draining, Topic::Night, Topic::Privacy] {
        assert_eq!(Topic::from_key(topic.key()), Some(topic));
    }
    for plant in [Plant::Moss, Plant::Fern, Plant::Flower] {
        assert_eq!(Plant::from_key(plant.key()), Some(plant));
    }
    assert_eq!(Topic::from_key("shiny"), None);
    assert_eq!(Plant::key(Plant::Flower), "flower");
}

fn hour(h: i64) -> Moment {
    // 2026-09-15 00:00 BST plus `h` hours.
    Moment {
        ms: 1_789_426_800_000 + h * 3_600_000,
        utc_offset_s: 3600,
    }
}

#[test]
fn the_part_of_the_day_follows_the_clock() {
    let moments = ByPart {
        morning: 5,
        day: 12,
        evening: 18,
        night: 22,
    };
    assert_eq!(by_the_clock(&moments, hour(4)), PartOfDay::Night);
    assert_eq!(by_the_clock(&moments, hour(5)), PartOfDay::Morning);
    assert_eq!(by_the_clock(&moments, hour(12)), PartOfDay::Day);
    assert_eq!(by_the_clock(&moments, hour(18)), PartOfDay::Evening);
    assert_eq!(by_the_clock(&moments, hour(23)), PartOfDay::Night);
    assert_eq!(moments.get(PartOfDay::Evening), &18);
}

fn nothing_went_well() -> WentWell {
    WentWell {
        garden_grew_yesterday: false,
        took_a_break: false,
        rested: false,
        restoring: false,
        gentle: false,
        calm_night: false,
    }
}

#[test]
fn praise_goes_to_the_first_thing_that_went_well() {
    let all = WentWell {
        garden_grew_yesterday: true,
        took_a_break: true,
        rested: true,
        restoring: true,
        gentle: true,
        calm_night: true,
    };
    assert_eq!(praise(all, PartOfDay::Morning), Some(Praise::Garden));
    // The garden is praised only in the morning.
    assert_eq!(praise(all, PartOfDay::Evening), Some(Praise::TookABreak));
    let gentle = WentWell { gentle: true, calm_night: true, ..nothing_went_well() };
    assert_eq!(praise(gentle, PartOfDay::Day), Some(Praise::Gentle));
    let calm = WentWell { calm_night: true, ..nothing_went_well() };
    assert_eq!(praise(calm, PartOfDay::Morning), Some(Praise::CalmNight));
    assert_eq!(praise(calm, PartOfDay::Day), None);
    assert_eq!(praise(nothing_went_well(), PartOfDay::Morning), None);
}

#[test]
fn explanations_wait_for_the_introduction_and_come_once() {
    let met = vec![Topic::Night, Topic::Draining];
    assert_eq!(to_explain(&met, &vec![]), (true, None));
    assert_eq!(to_explain(&met, &vec![Topic::About]), (false, Some(Topic::Draining)));
    assert_eq!(
        to_explain(&met, &vec![Topic::About, Topic::Draining]),
        (false, Some(Topic::Night))
    );
    assert_eq!(
        to_explain(&met, &vec![Topic::About, Topic::Draining, Topic::Night]),
        (false, None)
    );
}

#[test]
fn each_day_says_the_next_line_in_turn() {
    let lines: Vec<String> = vec!["a".into(), "b".into(), "c".into()];
    assert_eq!(line_for_day(&lines, 20_711), "c");
    assert_eq!(line_for_day(&lines, 20_712), "a");
    assert_eq!(line_for_day(&lines, -1), "c");
    assert_eq!(line_for_day(&vec![], 5), "");
}
