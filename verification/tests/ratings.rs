use glimmerwood_core::companion::{looked_up_site, settings_view};
use glimmerwood_core::newsboat::Feed;
use glimmerwood_core::protocol::NewsKind;
use glimmerwood_core::settings::Settings;
use glimmerwood_core::protocol::Rating;
use glimmerwood_core::ratings::{list_of, rating_named, rating_of, site_rating, Action};
use glimmerwood_core::reputation::{user_entries, Entries, List, ListFile, Table};

const SEED: &str = r#"
    [draining-strong]
    weight = -1.0
    sites = ["feed.example"]
    [draining-mild]
    weight = -0.4
    sites = ["bbc.co.uk"]
    [news]
    weight = -0.4
    sites = ["paper.example"]
    [ordinary]
    weight = 0.0
    sites = ["bank.example"]
    [nourishing-mild]
    weight = 0.5
    sites = ["wiki.example"]
    [nourishing-strong]
    weight = 1.0
    sites = ["books.example"]
    [private]
    sites = ["adult.example"]
    [unlisted]
    sites = ["mail.bank.example"]
    [care]
    sites = ["crisis.example"]
"#;

const LISTS: [List; 9] = [
    List::DrainingStrong,
    List::DrainingMild,
    List::News,
    List::Ordinary,
    List::NourishingMild,
    List::NourishingStrong,
    List::Private,
    List::Unlisted,
    List::Care,
];

fn sites(value: &toml::Value) -> Result<Vec<String>, String> {
    match value {
        toml::Value::Array(items) => items
            .iter()
            .map(|v| v.as_str().map(str::to_owned).ok_or("a site is text".to_string()))
            .collect(),
        _ => Err("sites is a list".into()),
    }
}

/// The file read as the shell reads it: TOML, every table the lists know,
/// nothing else.
fn read(text: &str) -> Result<ListFile, String> {
    let mut table: toml::Table = text.parse().map_err(|e: toml::de::Error| e.to_string())?;
    let mut tables = Vec::new();
    for list in LISTS {
        let found = match table.remove(list.key()) {
            Some(toml::Value::Table(t)) => {
                let mut has_weight = false;
                let mut found_sites = Vec::new();
                for (key, value) in t {
                    match key.as_str() {
                        "weight" => has_weight = true,
                        "sites" => found_sites = sites(&value)?,
                        other => return Err(format!("unknown field `{other}`")),
                    }
                }
                Some(Table {
                    has_weight,
                    sites: found_sites,
                })
            }
            Some(_) => return Err(format!("[{}] is a table", list.key())),
            None => None,
        };
        tables.push((list, found));
    }
    let removed = match table.remove("removed") {
        Some(toml::Value::Table(t)) => Some(match t.get("sites") {
            Some(value) => sites(value)?,
            None => Vec::new(),
        }),
        Some(_) => return Err("[removed] is a table".into()),
        None => None,
    };
    if let Some(other) = table.keys().next() {
        return Err(format!("unknown field `{other}`"));
    }
    Ok(ListFile { tables, removed })
}

/// Percent-decoding for the tests; the app uses GLib's.
fn unescape(text: &str) -> Option<String> {
    Some(text.replace("%2F", "/").replace("%3A", ":"))
}

#[test]
fn every_rating_is_a_list_and_back() {
    for list in LISTS {
        assert_eq!(list_of(rating_of(Some(list))), list);
    }
    assert_eq!(rating_of(None), Rating::Unrated);
    assert_eq!(rating_named("restores_a_lot"), Some(Rating::RestoresALot));
    assert_eq!(rating_named("shiny"), None);
}

#[test]
fn settings_show_how_a_site_counts_and_whose_rating_that_is() {
    let seed = Entries::seed(&read(SEED).expect("reads")).expect("fixture");
    let user =
        "[nourishing-strong]\nsites = [\"bbc.co.uk\"]\n[removed]\nsites = [\"feed.example\"]";
    let file = read(user).expect("reads");
    let lists = seed.with_user(&file).expect("applies");
    let yours = user_entries(&file).expect("parses");

    let bbc = site_rating(&lists, &seed, &yours, "bbc.co.uk");
    assert_eq!(bbc.rating, Rating::RestoresALot);
    assert_eq!(bbc.matched, "bbc.co.uk");
    assert_eq!(bbc.yours, Some(Rating::RestoresALot));
    assert_eq!(bbc.seed, Some(Rating::DrainsALittle));

    let part = site_rating(&lists, &seed, &yours, "news.bbc.co.uk");
    assert_eq!(
        (part.rating, part.matched.as_str()),
        (Rating::RestoresALot, "bbc.co.uk")
    );
    assert_eq!((part.yours, part.seed), (None, None));

    let removed = site_rating(&lists, &seed, &yours, "feed.example");
    assert_eq!(removed.rating, Rating::Unrated);
    assert_eq!(removed.matched, "");
    assert_eq!(removed.yours, Some(Rating::Unrated));
    assert_eq!(removed.seed, Some(Rating::DrainsALot));

    let carve_out = site_rating(&lists, &seed, &yours, "mail.bank.example");
    assert_eq!(
        (carve_out.rating, carve_out.seed),
        (Rating::Unrated, Some(Rating::Unrated))
    );
}

#[test]
fn settings_links_say_what_they_do() {
    assert_eq!(
        Action::parse("rate/drains_a_little/reddit.com%2Fr%2Fdiy", unescape),
        Some(Action::Rate {
            site: "reddit.com/r/diy".into(),
            rating: Some(Rating::DrainsALittle),
        })
    );
    assert_eq!(
        Action::parse("rate/glimmerwood/bbc.co.uk", unescape),
        Some(Action::Rate {
            site: "bbc.co.uk".into(),
            rating: None,
        })
    );
    assert_eq!(
        Action::parse("look-up/", unescape),
        Some(Action::LookUp(String::new()))
    );
    assert_eq!(Action::parse("ask/off", unescape), Some(Action::Ask(false)));
    assert_eq!(
        Action::parse("night/22%3A30/06%3A00", unescape),
        Some(Action::Night {
            starts: "22:30".into(),
            ends: "06:00".into(),
        })
    );
    assert_eq!(
        Action::parse("newsboat/remove", unescape),
        Some(Action::Newsboat { add: false })
    );
    for bad in [
        "rate/shiny/a.com",
        "rate/neither/",
        "ask/maybe",
        "format/disk",
        "night/22:00",
        "newsboat/",
    ] {
        assert_eq!(Action::parse(bad, unescape), None, "{bad}");
    }
}

#[test]
fn a_part_that_cant_be_unescaped_asks_for_nothing() {
    let refuse = |_: &str| None;
    assert_eq!(Action::parse("look-up/x", refuse), None);
    assert_eq!(Action::parse("ask/on", refuse), Some(Action::Ask(true)));
}

#[test]
fn every_rating_has_a_name_it_is_found_by() {
    for rating in [
        Rating::DrainsALot,
        Rating::DrainsALittle,
        Rating::Neither,
        Rating::RestoresALittle,
        Rating::RestoresALot,
        Rating::News,
        Rating::Private,
        Rating::Unrated,
        Rating::Care,
    ] {
        assert_eq!(rating_named(rating.name()), Some(rating));
    }
    assert_eq!(Rating::DrainsALittle.name(), "drains_a_little");
}

#[test]
fn the_settings_page_shows_each_rating_a_look_up_and_the_good_news() {

    let seed = Entries::seed(&read(SEED).expect("reads")).expect("fixture");
    let file = read("[nourishing-strong]\nsites = [\"bbc.co.uk\"]").expect("reads");
    let lists = seed.with_user(&file).expect("applies");
    let settings = Settings {
        ask_about_new_places: true,
        night_starts: "23:00".into(),
        night_ends: "06:00".into(),
    };
    let feeds = vec![
        Feed {
            site: "good.example".into(),
            url: "https://good.example/feed".into(),
            name: "Good".into(),
            kind: NewsKind::Light,
        },
        Feed {
            site: "awe.example".into(),
            url: "https://awe.example/feed".into(),
            name: "Awe".into(),
            kind: NewsKind::Awe,
        },
    ];
    let page = settings_view(
        &lists,
        &seed,
        &Ok(file),
        " https://www.News.BBC.co.uk/today ",
        &settings,
        &feeds,
        "https://awe.example/feed \"~Awe\"\n",
        "~/.config/glimmerwood/reputation.toml",
        Some("~/.newsboat/urls"),
        "",
    );
    assert_eq!(page.ratings.len(), 1);
    assert_eq!(page.ratings[0].site, "bbc.co.uk");
    assert_eq!(page.ratings[0].yours, Some(Rating::RestoresALot));
    assert_eq!(page.ratings_problem, "");
    assert_eq!(page.lookup.len(), 2);
    assert_eq!(page.lookup[0].site, "news.bbc.co.uk");
    assert_eq!(page.lookup[0].matched, "bbc.co.uk");
    assert_eq!(page.lookup[1].site, "bbc.co.uk");
    assert_eq!(page.lookup_failed, "");
    assert!(page.ask);
    assert_eq!(page.night_starts, "23:00");
    assert_eq!(page.night_start_choices[0].value, "20:00");
    assert_eq!(page.night_start_choices[0].label, "8pm");
    assert_eq!(page.night_end_choices.last().map(|c| c.label.as_str()), Some("8am"));
    assert_eq!(page.newsboat_file, "~/.newsboat/urls");
    assert_eq!(
        page.good_news.iter().map(|n| (n.name.as_str(), n.added)).collect::<Vec<_>>(),
        vec![("Good", false), ("Awe", true)]
    );

    let broken = settings_view(
        &seed, &seed, &Err("expected `=`".into()), "  nonsense ", &settings, &feeds, "", "f", None, "",
    );
    assert_eq!(broken.ratings.len(), 0);
    assert_eq!(broken.ratings_problem, "expected `=`");
    assert_eq!(broken.lookup.len(), 0);
    assert_eq!(broken.lookup_failed, "nonsense");
    assert_eq!(broken.newsboat_file, "");

    let clash = read("[news]\nsites = [\"books.example\"]\n[care]\nsites = [\"books.example\"]")
        .expect("reads");
    let clashed = settings_view(&seed, &seed, &Ok(clash), "", &settings, &feeds, "", "f", None, "");
    assert_eq!(clashed.ratings.len(), 2);
    assert!(!clashed.ratings_problem.is_empty());

    let malformed = read("[news]\nsites = [\"https://paper.example\"]").expect("reads");
    let refused = settings_view(&seed, &seed, &Ok(malformed), "", &settings, &feeds, "", "f", None, "");
    assert_eq!(refused.ratings.len(), 0);
    assert!(refused.ratings_problem.contains("leave out the scheme"));
}

#[test]
fn a_look_up_names_an_entry_or_the_site_of_an_address() {
    assert_eq!(looked_up_site("  Example.org "), Some("example.org".to_string()));
    assert_eq!(looked_up_site("https://www.news.example.com/x"), Some("news.example.com".to_string()));
    assert_eq!(looked_up_site("example.org/reading"), Some("example.org/reading".to_string()));
    assert_eq!(looked_up_site("hello"), None);
    assert_eq!(looked_up_site(""), None);
}
