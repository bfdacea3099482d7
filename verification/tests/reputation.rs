use glimmerwood_core::reputation::{check_entry, split_address, Entries, List, ListFile, Table};

const SEED: &str = r#"
    [draining-strong]
    weight = -1.0
    sites = ["tiktok.com", "youtube.com/shorts"]

    [draining-mild]
    weight = -0.4
    sites = ["youtube.com", "reddit.com", "bbc.co.uk/news"]

    [ordinary]
    weight = 0.0
    sites = ["gmail.com", "gov.uk"]

    [nourishing-mild]
    weight = 0.5
    sites = ["wikipedia.org", "reddit.com/r/diy"]

    [nourishing-strong]
    weight = 1.0
    sites = ["khanacademy.org", "bbc.co.uk/bitesize"]

    [news]
    weight = -0.4
    sites = ["theguardian.com"]

    [private]
    sites = ["adult.example"]

    [unlisted]
    sites = ["mail.gmail.com", "reddit.com/r/diy/wiki"]

    [care]
    sites = ["crisis.example"]
"#;

const LISTS: [List; 9] = [
    List::DrainingStrong,
    List::DrainingMild,
    List::News,
    List::Ordinary,
    List::NourishingMild,
    List::NourishingStrong,
    List::Private,
    List::Unlisted,
    List::Care,
];

fn sites(value: &toml::Value) -> Result<Vec<String>, String> {
    match value {
        toml::Value::Array(items) => items
            .iter()
            .map(|v| v.as_str().map(str::to_owned).ok_or("a site is text".to_string()))
            .collect(),
        _ => Err("sites is a list".into()),
    }
}

/// The file read as the shell reads it: TOML, every table the lists know,
/// nothing else.
fn read(text: &str) -> Result<ListFile, String> {
    let mut table: toml::Table = text.parse().map_err(|e: toml::de::Error| e.to_string())?;
    let mut tables = Vec::new();
    for list in LISTS {
        let found = match table.remove(list.key()) {
            Some(toml::Value::Table(t)) => {
                let mut has_weight = false;
                let mut found_sites = Vec::new();
                for (key, value) in t {
                    match key.as_str() {
                        "weight" => has_weight = true,
                        "sites" => found_sites = sites(&value)?,
                        other => return Err(format!("unknown field `{other}`")),
                    }
                }
                Some(Table {
                    has_weight,
                    sites: found_sites,
                })
            }
            Some(_) => return Err(format!("[{}] is a table", list.key())),
            None => None,
        };
        tables.push((list, found));
    }
    let removed = match table.remove("removed") {
        Some(toml::Value::Table(t)) => Some(match t.get("sites") {
            Some(value) => sites(value)?,
            None => Vec::new(),
        }),
        Some(_) => return Err("[removed] is a table".into()),
        None => None,
    };
    if let Some(other) = table.keys().next() {
        return Err(format!("unknown field `{other}`"));
    }
    Ok(ListFile { tables, removed })
}

fn lists() -> Entries {
    Entries::seed(&read(SEED).expect("fixture reads")).expect("fixture parses")
}

fn entry(lists: &Entries, uri: &str) -> Option<(String, List)> {
    lists.lookup(uri)
}

#[test]
fn subdomains_match_their_parent() {
    let lists = lists();
    assert_eq!(
        entry(&lists, "https://m.youtube.com/watch?v=1"),
        Some(("youtube.com".into(), List::DrainingMild))
    );
    assert_eq!(
        entry(&lists, "https://en.wikipedia.org/wiki/Moss"),
        Some(("wikipedia.org".into(), List::NourishingMild))
    );
    assert_eq!(
        entry(&lists, "https://www.gov.uk/browse"),
        Some(("gov.uk".into(), List::Ordinary))
    );
}

#[test]
fn the_longest_matching_entry_wins() {
    let lists = lists();
    assert_eq!(
        entry(&lists, "https://www.youtube.com/shorts/abc"),
        Some(("youtube.com/shorts".into(), List::DrainingStrong))
    );
    assert_eq!(
        entry(&lists, "https://old.reddit.com/r/DIY/comments/x"),
        Some(("reddit.com/r/diy".into(), List::NourishingMild))
    );
    assert_eq!(
        entry(&lists, "https://www.bbc.co.uk/bitesize/subjects"),
        Some(("bbc.co.uk/bitesize".into(), List::NourishingStrong))
    );
}

#[test]
fn paths_match_whole_segments_only() {
    let lists = lists();
    assert_eq!(
        entry(&lists, "https://reddit.com/r/diyaudio"),
        Some(("reddit.com".into(), List::DrainingMild))
    );
    assert_eq!(entry(&lists, "https://www.bbc.co.uk/sport"), None);
}

#[test]
fn lookalike_domains_and_other_schemes_are_unlisted() {
    let lists = lists();
    assert_eq!(entry(&lists, "https://nottiktok.com/"), None);
    assert_eq!(entry(&lists, "https://tiktok.com.example.net/"), None);
    assert_eq!(entry(&lists, "about:blank"), None);
    assert_eq!(entry(&lists, "glimmerwood://chrome/index.html"), None);
    assert_eq!(entry(&lists, "file:///home/tiktok.com"), None);
    assert_eq!(
        entry(&lists, "https://user@TikTok.com:443/@someone"),
        Some(("tiktok.com".into(), List::DrainingStrong))
    );
}

#[test]
fn the_user_can_add_move_and_remove_sites() {
    let user = r#"
        [removed]
        sites = ["gmail.com"]

        [draining-mild]
        sites = ["wikipedia.org"]

        [nourishing-strong]
        sites = ["lichess.org"]
    "#;
    let lists = lists()
        .with_user(&read(user).expect("reads"))
        .expect("user file applies");
    assert_eq!(entry(&lists, "https://gmail.com/"), None);
    assert_eq!(
        entry(&lists, "https://en.wikipedia.org"),
        Some(("wikipedia.org".into(), List::DrainingMild))
    );
    assert_eq!(
        entry(&lists, "https://lichess.org"),
        Some(("lichess.org".into(), List::NourishingStrong))
    );
    // Everything else is untouched.
    assert_eq!(
        entry(&lists, "https://tiktok.com"),
        Some(("tiktok.com".into(), List::DrainingStrong))
    );
}

#[test]
fn mistakes_in_the_entries_are_reported_not_guessed_at() {
    let dup = SEED.replace(
        r#"sites = ["gmail.com", "gov.uk"]"#,
        r#"sites = ["gmail.com", "tiktok.com"]"#,
    );
    assert_eq!(
        Entries::seed(&read(&dup).unwrap()).unwrap_err(),
        "tiktok.com is on both [draining-strong] and [ordinary]"
    );
    let scheme = SEED.replace("\"gov.uk\"", "\"https://gov.uk\"");
    assert_eq!(
        Entries::seed(&read(&scheme).unwrap()).unwrap_err(),
        "[ordinary] \"https://gov.uk\": leave out the scheme"
    );
    let www = SEED.replace("\"gov.uk\"", "\"www.gov.uk\"");
    assert!(Entries::seed(&read(&www).unwrap()).is_err());
    let no_care = SEED.replace("[care]\n    sites = [\"crisis.example\"]\n", "");
    assert_eq!(Entries::seed(&read(&no_care).unwrap()).unwrap_err(), "missing [care]");
    let weighed_private = SEED.replace("[private]\n", "[private]\nweight = 0.0\n");
    assert_eq!(
        Entries::seed(&read(&weighed_private).unwrap()).unwrap_err(),
        "[private] takes no weight"
    );
    let both = read("[removed]\nsites = [\"a.com\"]\n[ordinary]\nsites = [\"a.com\"]").unwrap();
    assert_eq!(
        lists().with_user(&both).unwrap_err(),
        "a.com is both on a list and removed in your list"
    );
    let unlisted = read("[unlisted]\nweight = 0.3").unwrap();
    assert_eq!(lists().with_user(&unlisted).unwrap_err(), "[unlisted] takes no weight");
    let twice = read("[ordinary]\nsites = [\"a.com\"]\n[news]\nsites = [\"a.com\"]").unwrap();
    assert_eq!(
        lists().with_user(&twice).unwrap_err(),
        "a.com is on both [news] and [ordinary] in your list"
    );
}

#[test]
fn entries_are_bare_lowercase_domains() {
    assert_eq!(check_entry("bbc.co.uk/news"), Ok(()));
    assert_eq!(check_entry(""), Err("empty"));
    assert_eq!(check_entry("BBC.co.uk"), Err("lowercase, no spaces"));
    assert_eq!(check_entry("bbc.co.uk/"), Err("no trailing slash"));
    assert_eq!(check_entry("localhost"), Err("not a domain"));
    assert_eq!(check_entry(".uk"), Err("not a domain"));
}

#[test]
fn addresses_split_into_host_and_path() {
    assert_eq!(
        split_address("https://M.YouTube.com:443/Shorts/x?y"),
        Some(("m.youtube.com".into(), "/shorts/x".into()))
    );
    assert_eq!(split_address("https://example.org."), Some(("example.org".into(), "".into())));
    assert_eq!(split_address("ftp://example.org/"), None);
    assert_eq!(split_address("https:///path"), None);
}

#[test]
fn entries_count_by_list_and_move_between_them() {
    let mut lists = lists();
    assert_eq!(lists.count(List::DrainingMild), 3);
    assert_eq!(lists.insert("reddit.com", List::Ordinary), Some(List::DrainingMild));
    assert_eq!(lists.count(List::DrainingMild), 2);
    assert_eq!(lists.get("reddit.com"), Some(List::Ordinary));
    lists.remove("reddit.com");
    assert_eq!(lists.get("reddit.com"), None);
    assert_eq!(
        lists.lookup_site("news.bbc.co.uk/news"),
        Some(("bbc.co.uk/news".into(), List::DrainingMild))
    );
}
