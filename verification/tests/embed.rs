use glimmerwood_core::embed::entry;

#[test]
fn an_alias_says_where_a_file_is_served() {
    assert_eq!(
        entry(r#"    <file alias="home/home.js">dist/home/home.js</file>"#),
        Some(("home/home.js".into(), "dist/home/home.js".into()))
    );
    assert_eq!(
        entry("    <file>home/index.html</file>"),
        Some(("home/index.html".into(), "home/index.html".into()))
    );
    assert_eq!(entry("  <gresource prefix=\"/x\">"), None);
}

#[test]
fn a_line_without_its_closing_tag_names_nothing() {
    assert_eq!(entry("<file>home/index.html"), None);
    assert_eq!(entry("<file home/index.html</file>"), None);
}
