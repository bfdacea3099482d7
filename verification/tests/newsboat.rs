use glimmerwood_core::newsboat::{add, present, remove, urls_file, words, Feed, HEADER};
use glimmerwood_core::protocol::NewsKind;
use std::path::{Path, PathBuf};

fn feed(url: &str, name: &str, kind: NewsKind) -> Feed {
    Feed {
        site: String::new(),
        url: url.into(),
        name: name.into(),
        kind,
    }
}

fn two() -> Vec<Feed> {
    vec![
        feed("https://a.example/feed", "A", NewsKind::Working),
        feed("https://b.example/rss", "B b", NewsKind::Awe),
    ]
}

#[test]
fn newsboat_s_own_directory_comes_first() {
    let home = Path::new("/home/someone");
    let found = |p: Option<String>| p.map(PathBuf::from);
    let both = |_: &str| true;
    assert_eq!(found(urls_file("/home/someone", both)), Some(home.join(".newsboat/urls")));
    let xdg = |dir: &str| Path::new(dir).ends_with(".config/newsboat");
    assert_eq!(
        found(urls_file("/home/someone", xdg)),
        Some(home.join(".config/newsboat/urls"))
    );
    assert_eq!(found(urls_file("/home/someone", |_: &str| false)), None);
}

#[test]
fn adds_to_an_empty_list() {
    let added = add("", &two());
    assert_eq!(
        added.text,
        format!(
            "{HEADER}\n\
             https://a.example/feed \"~A\" glimmerwood \"what's working\"\n\
             https://b.example/rss \"~B b\" glimmerwood awe\n"
        )
    );
    assert_eq!((added.added, added.already), (2, 0));
}

#[test]
fn leaves_the_user_s_own_lines_alone() {
    let mine = "# mine\nhttps://mine.example/feed tech\nhttps://b.example/rss";
    let added = add(mine, &two());
    assert!(added.text.starts_with(&format!("{mine}\n\n{HEADER}\n")));
    assert_eq!((added.added, added.already), (1, 1));
    assert_eq!(added.text.matches("b.example").count(), 1);

    let (back, removed) = remove(&added.text, &two());
    assert_eq!(removed, 1);
    assert_eq!(back, format!("{mine}\n"));
}

#[test]
fn adding_twice_changes_nothing() {
    let once = add("", &two()).text;
    let twice = add(&once, &two());
    assert_eq!(twice.text, once);
    assert_eq!((twice.added, twice.already), (0, 2));
}

#[test]
fn removes_everything_it_added() {
    let (text, removed) = remove(&add("", &two()).text, &two());
    assert_eq!((text.as_str(), removed), ("", 2));
    assert_eq!(remove("x y\n", &two()), ("x y\n".to_owned(), 0));
}

#[test]
fn knows_which_feeds_are_there() {
    let text = "  https://b.example/rss\n#https://a.example/feed\n";
    assert_eq!(present(text, &two()), vec![false, true]);
}

#[test]
fn reads_quoted_words() {
    let line = r#"  https://x.example/  "~Two words"   tag "#;
    assert_eq!(
        words(line),
        vec!["https://x.example/".to_string(), "~Two words".to_string(), "tag".to_string()]
    );
    assert_eq!(glimmerwood_core::newsboat::url_of("   "), None);
    assert_eq!(glimmerwood_core::newsboat::url_of("# note"), None);
}


#[test]
fn taking_out_after_adding_leaves_what_taking_out_would_have() {
    let mine = "https://mine.example/feed\n\n";
    let added = add(mine, &two());
    assert_eq!(remove(&added.text, &two()), ("https://mine.example/feed\n".to_owned(), 2));

    let half = "https://a.example/feed \"~A\" glimmerwood awe\n";
    let added = add(half, &two());
    assert_eq!((added.added, added.already), (1, 1));
    assert_eq!(remove(&added.text, &two()), (String::new(), 2));
}

#[test]
fn adding_twice_changes_nothing_whatever_the_names_say() {
    let odd = vec![
        feed("https://q.example/a\"b", "Two\nlines", NewsKind::Light),
        feed("https://c.example/feed", "Quoted \"name\"", NewsKind::Awe),
    ];
    let once = add("# mine\n", &odd).text;
    let twice = add(&once, &odd);
    assert_eq!(twice.text, once);
    assert_eq!((twice.added, twice.already), (0, 2));
}

#[test]
fn adding_keeps_the_list_and_counts_what_was_there() {
    let text = "https://b.example/rss \"~B b\"\nhttps://mine.example/feed";
    let r = add(text, &two());
    assert!(r.text.starts_with(text));
    let there = present(text, &two()).iter().filter(|&&b| b).count();
    assert_eq!((r.added, r.already, there), (1, 1, 1));
    assert!(present(&r.text, &two()).iter().all(|&b| b));
}
