use glimmerwood_core::protocol::TabSound;
use glimmerwood_core::tabs::{Facts, Tabs};

fn with(n: usize) -> Tabs {
    let mut tabs = Tabs::new();
    for _ in 0..n {
        tabs.open(true);
    }
    tabs
}

/// The tab's facts with `change` made to them, handed back.
fn update(tabs: &mut Tabs, id: u32, change: impl FnOnce(&mut Facts)) -> bool {
    let mut facts = tabs.facts(id).cloned().unwrap_or_default();
    change(&mut facts);
    tabs.update(id, facts)
}

#[test]
fn the_first_tab_is_in_front_even_when_opened_behind() {
    let mut tabs = Tabs::new();
    let id = tabs.open(false);
    assert_eq!(tabs.selected(), Some(id));
}

#[test]
fn a_tab_opened_behind_leaves_the_front_alone() {
    let mut tabs = with(1);
    let first = tabs.selected();
    tabs.open(false);
    assert_eq!(tabs.selected(), first);
}

#[test]
fn ids_are_never_reused() {
    let mut tabs = with(3);
    tabs.close(1);
    let fresh = tabs.open(true);
    assert_eq!(fresh, 3);
    assert_eq!(tabs.ids(), vec![0, 2, 3]);
}

#[test]
fn closing_the_front_tab_moves_to_the_one_that_takes_its_place() {
    let mut tabs = with(3);
    tabs.select(1);
    assert_eq!(tabs.close(1), Some(2));
}

#[test]
fn closing_the_last_tab_moves_to_the_new_last() {
    let mut tabs = with(3);
    tabs.select(2);
    assert_eq!(tabs.close(2), Some(1));
}

#[test]
fn closing_a_tab_behind_leaves_the_front_where_it_was() {
    let mut tabs = with(3);
    tabs.select(2);
    assert_eq!(tabs.close(0), Some(2));
}

#[test]
fn closing_the_only_tab_leaves_nothing_in_front() {
    let mut tabs = with(1);
    assert_eq!(tabs.close(0), None);
    assert!(tabs.is_empty());
}

#[test]
fn closing_a_tab_that_isnt_there_changes_nothing() {
    let mut tabs = with(2);
    assert_eq!(tabs.close(9), tabs.selected());
    assert_eq!(tabs.len(), 2);
}

#[test]
fn stepping_wraps_at_both_ends() {
    let mut tabs = with(3);
    tabs.select(2);
    assert_eq!(tabs.step(1), Some(0));
    tabs.select(0);
    assert_eq!(tabs.step(-1), Some(2));
}

#[test]
fn there_is_no_nth_tab_past_the_end() {
    let tabs = with(2);
    assert_eq!(tabs.nth(1), Some(1));
    assert_eq!(tabs.nth(7), None);
}

#[test]
fn selecting_the_tab_already_in_front_is_not_a_change() {
    let mut tabs = with(2);
    tabs.select(1);
    assert!(!tabs.select(1));
    assert!(tabs.select(0));
}

#[test]
fn an_update_that_changes_nothing_says_so() {
    let mut tabs = with(1);
    assert!(update(&mut tabs, 0, |facts| facts.title = "Home".into()));
    assert!(!update(&mut tabs, 0, |facts| facts.title = "Home".into()));
}

#[test]
fn the_column_shows_where_a_tab_is_until_it_has_a_title() {
    let mut tabs = with(1);
    update(&mut tabs, 0, |facts| {
        facts.uri = "https://www.example.org/a".into();
    });
    let info = tabs.info();
    assert_eq!(info[0].title, "https://www.example.org/a");
    assert_eq!(info[0].host, "example.org");

    update(&mut tabs, 0, |facts| facts.title = "An example".into());
    assert_eq!(tabs.info()[0].title, "An example");
}

#[test]
fn a_restored_tab_sleeps_until_it_is_asked_for() {
    let mut tabs = Tabs::new();
    let id = tabs.open_asleep("https://example.org/a", "An example");
    assert!(tabs.facts(id).unwrap().asleep);
    assert!(tabs.info()[0].asleep);
    assert!(tabs.wake(id));
    assert!(!tabs.wake(id), "waking twice is not a second wake");
    assert!(!tabs.facts(id).unwrap().asleep);
}

#[test]
fn the_session_keeps_the_pages_and_which_was_in_front() {
    let mut tabs = Tabs::new();
    let home = tabs.open(true);
    update(&mut tabs, home, |facts| facts.uri = "glimmerwood://home/".into());
    let one = tabs.open(true);
    update(&mut tabs, one, |facts| {
        facts.uri = "https://one.example/".into();
        facts.title = "One".into();
    });
    let session = tabs.session();
    assert_eq!(session.tabs.len(), 1, "Home is not a place you were");
    assert_eq!(session.tabs[0].title, "One");
    assert_eq!(session.selected, 0);
}

#[test]
fn a_muted_tab_reads_as_muted_whether_or_not_it_is_playing() {
    let mut tabs = with(1);
    update(&mut tabs, 0, |facts| {
        facts.playing = true;
        facts.muted = true;
    });
    assert_eq!(tabs.info()[0].sound, TabSound::Muted);
}

#[test]
fn the_other_tabs_are_every_tab_but_the_one_named() {
    let mut tabs = with(3);
    for id in 0..3 {
        update(&mut tabs, id, |facts| facts.uri = format!("https://{id}.example/"));
    }
    assert_eq!(
        tabs.other_uris(Some(1)),
        vec!["https://0.example/", "https://2.example/"]
    );
}

#[test]
fn a_tab_with_nowhere_to_be_is_not_one_of_the_others() {
    let mut tabs = with(2);
    update(&mut tabs, 0, |facts| facts.uri = "https://example.org/".into());
    assert_eq!(tabs.other_uris(None), vec!["https://example.org/"]);
}

#[test]
fn an_update_for_a_tab_that_isnt_there_changes_nothing() {
    let mut tabs = with(1);
    assert!(!tabs.update(7, Facts::blank()));
    assert_eq!(tabs.ids(), vec![0]);
}

#[test]
fn with_no_tabs_there_is_nowhere_to_step() {
    let tabs = Tabs::new();
    assert_eq!(tabs.step(1), None);
    assert_eq!(tabs.last(), None);
    assert!(tabs.selected_facts().is_none());
}
