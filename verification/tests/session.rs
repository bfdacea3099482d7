use glimmerwood_core::session::{Session, Sleeper};

fn tab(url: &str) -> Sleeper {
    Sleeper {
        url: url.into(),
        title: url.into(),
    }
}

#[test]
fn what_was_open_comes_back() {
    let session = Session {
        tabs: vec![tab("https://one.example/"), tab("https://two.example/")],
        selected: 1,
    };
    let back = session.worth_restoring();
    assert_eq!(back.tabs.len(), 2);
    assert_eq!(back.selected, 1);
}

#[test]
fn home_tabs_are_not_a_place_you_were() {
    let session = Session {
        tabs: vec![
            tab("glimmerwood://home/"),
            tab("https://one.example/"),
            tab("glimmerwood://settings/"),
        ],
        selected: 1,
    };
    let back = session.worth_restoring();
    assert_eq!(back.tabs.len(), 1);
    assert_eq!(back.selected, 0);
}

fn back_url(session: &Session) -> String {
    session.tabs[session.selected].url.clone()
}

#[test]
fn the_tab_in_front_is_still_in_front_after_the_others_are_dropped() {
    let session = Session {
        tabs: vec![
            tab("glimmerwood://home/"),
            tab("https://one.example/"),
            tab("https://two.example/"),
        ],
        selected: 2,
    };
    assert_eq!(back_url(&session.worth_restoring()), "https://two.example/");
}

#[test]
fn a_window_of_nothing_but_home_restores_nothing() {
    let session = Session {
        tabs: vec![tab("glimmerwood://home/")],
        selected: 0,
    };
    assert!(session.worth_restoring().is_empty());
}

#[test]
fn a_front_tab_that_was_dropped_leaves_the_first_in_front() {
    let session = Session {
        tabs: vec![tab("https://one.example/"), tab("glimmerwood://home/")],
        selected: 1,
    };
    assert_eq!(session.worth_restoring().selected, 0);
    let past_the_end = Session {
        tabs: vec![tab("https://one.example/"), tab("https://two.example/")],
        selected: 9,
    };
    assert_eq!(past_the_end.worth_restoring().selected, 0);
}
