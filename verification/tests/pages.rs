use glimmerwood_core::pages::{is_home, is_local_page, is_settings, mime_type, path_of, Local};

#[test]
fn addresses_stay_inside_the_bundle() {
    assert_eq!(
        path_of("glimmerwood://chrome/index.html").as_deref(),
        Some("chrome/index.html")
    );
    assert_eq!(
        path_of("glimmerwood://chrome/chrome.js?v=1").as_deref(),
        Some("chrome/chrome.js")
    );
    assert_eq!(path_of("glimmerwood://chrome/../../etc"), None);
    assert_eq!(path_of("glimmerwood://chrome//index.html"), None);
    assert_eq!(path_of("https://chrome/index.html"), None);
    assert_eq!(
        path_of("glimmerwood://home/").as_deref(),
        Some("home/index.html")
    );
    assert_eq!(
        path_of("glimmerwood://settings/#ratings").as_deref(),
        Some("settings/index.html")
    );
}

#[test]
fn a_tab_may_load_home_and_settings_and_nothing_else() {
    assert!(is_home("glimmerwood://home/") && is_home("glimmerwood://home/home.js"));
    assert!(!is_home("glimmerwood://homeless/x") && !is_home("glimmerwood://chrome/toolbar.html"));
    assert!(
        is_settings("glimmerwood://settings/settings.js")
            && is_local_page("glimmerwood://settings")
    );
    assert!(!is_local_page("glimmerwood://settingsx/") && !is_local_page("glimmerwood://chrome/"));
}

#[test]
fn files_say_what_they_are() {
    assert_eq!(mime_type("home/index.html"), "text/html");
    assert_eq!(mime_type("home/home.js"), "text/javascript");
    assert_eq!(mime_type("home/home.css"), "text/css");
    assert_eq!(mime_type("home/wisp.svg"), "image/svg+xml");
    assert_eq!(mime_type("home/mystery"), "application/octet-stream");
}

#[test]
fn pages_are_handed_what_they_show() {
    assert_eq!(Local::of("glimmerwood://home/"), Some(Local::Home));
    assert_eq!(Local::of("glimmerwood://settings?x"), Some(Local::Settings));
    assert_eq!(Local::of("https://example.org/"), None);
    assert_eq!(
        Local::Home.hand_over("{}"),
        "if (location.href.startsWith('glimmerwood://home/')) { window.wispHomeData = {}; window.wispHome?.show(window.wispHomeData); }"
    );
}
