use glimmerwood_core::dose::Times;
use glimmerwood_core::settings::{night_choices, NightFile, Settings, SettingsFile, NIGHT_ENDS, NIGHT_STARTS};

fn bundled() -> Times {
    Times::new("05:00", "23:00", "05:00").expect("the bundled times")
}

/// The file read as the shell reads it: TOML, nothing it doesn't know.
fn read(text: &str) -> Result<SettingsFile, String> {
    let table: toml::Table = text.parse().map_err(|e: toml::de::Error| e.to_string())?;
    let mut file = SettingsFile::default();
    for (key, value) in table {
        match (key.as_str(), value) {
            ("ask-about-new-places", toml::Value::Boolean(b)) => file.ask_about_new_places = Some(b),
            ("night", toml::Value::Table(night)) => {
                let mut n = NightFile::default();
                for (key, value) in night {
                    match (key.as_str(), value) {
                        ("starts", toml::Value::String(s)) => n.starts = Some(s),
                        ("ends", toml::Value::String(s)) => n.ends = Some(s),
                        (other, _) => return Err(format!("unknown field `{other}`")),
                    }
                }
                file.night = Some(n);
            }
            (other, _) => return Err(format!("unknown field `{other}`")),
        }
    }
    Ok(file)
}

fn parse(text: &str, rates: &Times) -> Result<Settings, String> {
    Settings::parse(&read(text)?, rates)
}

#[test]
fn missing_settings_keep_their_defaults() {
    let rates = bundled();
    let settings = parse("", &rates).expect("empty is fine");
    assert_eq!(settings, Settings::defaults(&rates));
    assert!(settings.ask_about_new_places);
    assert_eq!(
        (settings.night_starts.as_str(), settings.night_ends.as_str()),
        ("23:00", "05:00")
    );
    let settings = parse("[night]\nstarts = \"22:30\"", &rates).expect("partial is fine");
    assert_eq!(settings.night_starts, "22:30");
    assert_eq!(settings.night_ends, "05:00");
}

#[test]
fn settings_survive_being_written_and_read_back() {
    let rates = bundled();
    let mut settings = Settings::defaults(&rates);
    settings.ask_about_new_places = false;
    settings.set_night("00:30", "07:30").expect("allowed");
    assert_eq!(parse(&settings.to_toml(), &rates), Ok(settings));
}

#[test]
fn the_night_moves_only_within_its_choices() {
    let mut settings = Settings::defaults(&bundled());
    assert!(settings.set_night("19:30", "05:00").is_err());
    assert!(settings.set_night("23:15", "05:00").is_err());
    assert!(settings.set_night("23:00", "09:00").is_err());
    assert!(parse("[night]\nstarts = \"12:00\"", &bundled()).is_err());
    assert!(parse("shiny = true", &bundled()).is_err());
    assert_eq!(
        night_choices(NIGHT_STARTS),
        [
            "20:00", "20:30", "21:00", "21:30", "22:00", "22:30", "23:00", "23:30", "00:00",
            "00:30", "01:00"
        ]
    );
    assert_eq!(night_choices(NIGHT_ENDS).len(), 9);
}

#[test]
fn a_night_out_of_range_says_where_it_may_be() {
    let mut settings = Settings::defaults(&bundled());
    assert_eq!(
        settings.set_night("19:30", "05:00"),
        Err("the night starts between 20:00 and 01:00, on the hour or half past".to_string())
    );
    assert_eq!(
        settings.set_night("23:00", "09:00"),
        Err("the night ends between 04:00 and 08:00, on the hour or half past".to_string())
    );
    assert_eq!(settings.night_starts, "23:00");
}

#[test]
fn the_file_says_what_it_is() {
    let settings = Settings::defaults(&bundled());
    assert_eq!(
        settings.to_toml(),
        "# Glimmerwood's settings, changed from its Settings page (Ctrl+comma).\n\
         # Editing by hand works too; Glimmerwood reads them when it starts.\n\
         \n\
         ask-about-new-places = true\n\
         \n\
         # When the wisp winds down, in half hours: starting from 20:00 to 01:00\n\
         # and ending from 04:00 to 08:00.\n\
         [night]\n\
         starts = \"23:00\"\n\
         ends = \"05:00\"\n"
    );
}
