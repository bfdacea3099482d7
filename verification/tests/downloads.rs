use glimmerwood_core::downloads::{file_name, Downloads, Progress};

/// How a shell makes a fraction coarse before handing it over: to the
/// nearest twentieth, within 0 and 1.
fn twentieths(fraction: f64) -> u32 {
    (fraction.clamp(0.0, 1.0) * 20.0).round() as u32
}

#[test]
fn a_download_is_running_until_it_is_not() {
    let mut downloads = Downloads::new();
    let id = downloads.started("moss.pdf", "/home/x/Downloads/moss.pdf");
    assert_eq!(downloads.running(), 1);
    downloads.finished(id, Progress::Saved, None);
    assert_eq!(downloads.running(), 0);
    assert_eq!(downloads.showing().len(), 1);
}

#[test]
fn opening_it_takes_it_off_home() {
    let mut downloads = Downloads::new();
    let id = downloads.started("moss.pdf", "/tmp/moss.pdf");
    downloads.finished(id, Progress::Saved, None);
    assert_eq!(downloads.opened(id).as_deref(), Some("/tmp/moss.pdf"));
    assert!(downloads.showing().is_empty());
}

#[test]
fn progress_only_reports_when_it_has_visibly_moved() {
    let mut downloads = Downloads::new();
    let id = downloads.started("big.iso", "/tmp/big.iso");
    assert!(downloads.progressed(id, Some(twentieths(0.10))));
    assert!(!downloads.progressed(id, Some(twentieths(0.11))));
    assert!(downloads.progressed(id, Some(twentieths(0.20))));
}

#[test]
fn home_shows_the_newest_few_newest_first() {
    let mut downloads = Downloads::new();
    for n in 0..6 {
        let id = downloads.started(&format!("{n}.txt"), "/tmp");
        downloads.finished(id, Progress::Saved, None);
    }
    let showing = downloads.showing();
    assert_eq!(showing.len(), 4);
    assert_eq!(showing[0].name, "5.txt");
}

#[test]
fn a_failure_is_still_worth_saying() {
    let mut downloads = Downloads::new();
    let id = downloads.started("gone.zip", "/tmp/gone.zip");
    downloads.finished(id, Progress::Failed, None);
    assert_eq!(downloads.showing()[0].progress, Progress::Failed);
    assert_eq!(downloads.running(), 0);
}

#[test]
fn forgetting_the_finished_leaves_what_is_still_arriving() {
    let mut downloads = Downloads::new();
    let done = downloads.started("done.txt", "/tmp");
    let going = downloads.started("going.txt", "/tmp");
    downloads.finished(done, Progress::Saved, None);
    downloads.forget_finished();
    let showing = downloads.showing();
    assert_eq!(showing.len(), 1);
    assert_eq!(showing[0].id, going);
}

#[test]
fn nothing_is_reported_for_a_download_that_isnt_there() {
    let mut downloads = Downloads::new();
    assert!(!downloads.progressed(9, Some(twentieths(0.5))));
    assert!(!downloads.finished(9, Progress::Saved, None));
    assert_eq!(downloads.opened(9), None);
}

#[test]
fn a_saved_download_is_whole_and_found_where_it_was_put() {
    let mut downloads = Downloads::new();
    let id = downloads.started("moss.pdf", "/tmp/moss.pdf");
    assert!(downloads.finished(id, Progress::Saved, Some("/tmp/moss (1).pdf")));
    let shown = &downloads.showing()[0];
    assert_eq!(shown.twentieths, Some(20));
    assert_eq!(shown.path, "/tmp/moss (1).pdf");
}

#[test]
fn ids_count_up_from_nothing() {
    let mut downloads = Downloads::new();
    assert_eq!(downloads.started("a", "/tmp/a"), 0);
    assert_eq!(downloads.started("b", "/tmp/b"), 1);
}

#[test]
fn a_suggested_name_is_a_name_and_nothing_else() {
    assert_eq!(file_name("moss.pdf"), "moss.pdf");
    assert_eq!(file_name("../../etc/passwd"), "passwd");
    assert_eq!(file_name("  report .txt  "), "report .txt");
    assert_eq!(file_name("na\0me"), "name");
    assert_eq!(file_name("folder/"), "download");
    assert_eq!(file_name(""), "download");
    assert_eq!(file_name("."), "download");
    assert_eq!(file_name("a/.."), "download");
    assert_eq!(file_name("..."), "...");
}

#[test]
fn ids_are_never_reused_after_opening_or_forgetting() {
    let mut downloads = Downloads::new();
    let first = downloads.started("a.pdf", "/tmp/a.pdf");
    downloads.finished(first, Progress::Saved, None);
    assert_eq!(downloads.opened(first).as_deref(), Some("/tmp/a.pdf"));
    let second = downloads.started("b.pdf", "/tmp/b.pdf");
    downloads.finished(second, Progress::Failed, None);
    downloads.forget_finished();
    let third = downloads.started("c.pdf", "/tmp/c.pdf");
    assert!(first < second && second < third);
    assert_eq!(downloads.running(), 1);
    let shown = downloads.showing();
    assert_eq!((shown[0].id, shown[0].name.as_str(), shown[0].progress), (third, "c.pdf", Progress::Running));
}
