//! The companion's own small rules: where the user is from, how counts and
//! clock times are said, when to wake, what Home has met and what the garden
//! still has to record.

use vstd::prelude::*;

use crate::diary::{plant_kind, plant_kind_spec};
use crate::dose::{in_range, Factor, FactorKind, Mode, Moment, Phase, Trend};
use crate::home::{topic_from_key, topic_key, Topic};
use crate::bookmarks::Bookmark;
use crate::home::{About, Greeting, PartOfDay};
use crate::nav::{host_of, host_of_spec};
use crate::places::PlaceCard;
use crate::newsboat::{present, present_spec, Feed};
use crate::protocol::{
    CaptionKind, CaptionLine, CaptionLineView, DayPart, HomeAbout, HomeBookmark, HomeExplain,
    HomePlace, HomePlant, NewsFeed, SiteRating, TimeChoice, WispMode, WispPhase, WispTrend,
};
use crate::ratings::{site_rating, site_rating_matches, yours_view};
use crate::reputation::{
    check_entry, entry_problem, removed_view, tables_view, unique, user_entries, user_entries_spec,
    with_user_spec, Entries, List, ListFile,
};
use crate::settings::{
    choices, half_hours, hm_minutes, lemma_night_ranges, night_choices, readable_range, Settings,
    NIGHT_ENDS, NIGHT_STARTS,
};
use crate::store::{GardenDay, RETENTION_DAYS};
use crate::text::{
    ascii_alpha, chars_of, decimal, decimal_of, first_from, int_value, is_ascii_alpha,
    lemma_first_from_is, lower, lowered, parse_i64, parse_u32, push_all, push_str, same,
    slice_of, trim, trimmed, split_once, split_once_in, string_of, two_digits, two_digits_of, uint_value, upper,
    uppered,
};

verus! {

pub open spec fn is_not_alpha_at(s: Seq<char>) -> spec_fn(int) -> bool {
    |i: int| !is_ascii_alpha(s[i])
}

/// The letters a string starts with.
pub open spec fn leading_letters(s: Seq<char>) -> Seq<char> {
    let i = first_from(s.len() as int, is_not_alpha_at(s), 0);
    if i == -1 {
        s
    } else {
        s.take(i)
    }
}

/// `en_GB.UTF-8` → `GB`: two letters after the first underscore.
pub open spec fn country_of(name: Seq<char>) -> Option<Seq<char>> {
    match split_once(name, "_"@) {
        Some((_, rest)) => {
            let country = leading_letters(rest);
            if country.len() == 2 {
                Some(upper(country))
            } else {
                None
            }
        },
        None => None,
    }
}

/// The country of the first locale that names one.
pub open spec fn country_from_locales_spec(names: Seq<Seq<char>>) -> Option<Seq<char>>
    decreases names.len(),
{
    if names.len() == 0 {
        None
    } else {
        match country_of(names[0]) {
            Some(c) => Some(c),
            None => country_from_locales_spec(names.drop_first()),
        }
    }
}

fn country_in(name: &str) -> (r: Option<Vec<char>>)
    ensures
        match r {
            Some(c) => country_of(name@) == Some(c@),
            None => country_of(name@) is None,
        },
{
    let v = chars_of(name);
    let (_, rest) = match split_once_in(&v, &chars_of("_")) {
        Some(parts) => parts,
        None => return None,
    };
    let ghost p = is_not_alpha_at(rest@);
    let mut i: usize = 0;
    while i < rest.len() && ascii_alpha(rest[i])
        invariant
            0 <= i <= rest@.len(),
            p == is_not_alpha_at(rest@),
            forall|j: int| 0 <= j < i ==> !#[trigger] p(j),
        decreases rest.len() - i,
    {
        i += 1;
    }
    proof {
        if i < rest@.len() {
            lemma_first_from_is(rest@.len() as int, p, 0, i as int);
        } else {
            lemma_first_from_is(rest@.len() as int, p, 0, -1);
        }
    }
    let country = slice_of(&rest, 0, i);
    assert(country@ == leading_letters(rest@));
    if country.len() == 2 {
        Some(uppered(&country))
    } else {
        None
    }
}

pub open spec fn string_views(v: Seq<String>) -> Seq<Seq<char>> {
    v.map_values(|s: String| s@)
}

/// `en_GB.UTF-8` → `GB`: the country of the first language the user set.
/// Every platform names its locales this way; only the asking differs.
pub fn country_from_locales(names: &[String]) -> (r: Option<String>)
    ensures
        match r {
            Some(c) => country_from_locales_spec(string_views(names@)) == Some(c@),
            None => country_from_locales_spec(string_views(names@)) is None,
        },
{
    let mut i: usize = 0;
    assert(string_views(names@).skip(0) == string_views(names@));
    while i < names.len()
        invariant
            0 <= i <= names@.len(),
            country_from_locales_spec(string_views(names@)) == country_from_locales_spec(
                string_views(names@).skip(i as int),
            ),
        decreases names.len() - i,
    {
        let ghost rest = string_views(names@).skip(i as int);
        assert(rest[0] == names@[i as int]@);
        assert(rest.drop_first() == string_views(names@).skip(i + 1));
        match country_in(names[i].as_str()) {
            Some(c) => return Some(string_of(&c)),
            None => {},
        }
        i += 1;
    }
    assert(string_views(names@).skip(i as int).len() == 0);
    None
}

/// "1 feed", "12 feeds".
pub open spec fn feeds_counted_spec(n: nat) -> Seq<char> {
    if n == 1 {
        "1 feed"@
    } else {
        decimal(n) + " feeds"@
    }
}

pub fn feeds_counted(n: usize) -> (r: String)
    ensures
        r@ == feeds_counted_spec(n as nat),
{
    if n == 1 {
        "1 feed".to_owned()
    } else {
        let mut out = decimal_of(n as u64);
        push_str(&mut out, " feeds");
        string_of(&out)
    }
}

/// How a clock time is said: "23:00" → "11pm", "00:30" → "12:30am",
/// "00:00" → "midnight". An hour that can't be read counts as midnight's.
pub open spec fn clock_label_spec(time: Seq<char>) -> Seq<char> {
    let (h, m) = match split_once(time, ":"@) {
        Some((h, m)) => (h, m),
        None => (time, "00"@),
    };
    let hour = match uint_value(h) {
        Some(v) => if v <= u32::MAX {
            v
        } else {
            0
        },
        None => 0,
    };
    if hour == 0 && m == "00"@ {
        "midnight"@
    } else {
        let twelve = if hour % 12 == 0 {
            12
        } else {
            hour % 12
        };
        let half = if hour < 12 {
            "am"@
        } else {
            "pm"@
        };
        if m == "00"@ {
            decimal(twelve as nat) + half
        } else {
            decimal(twelve as nat) + ":"@ + m + half
        }
    }
}

pub fn clock_label(time: &str) -> (r: String)
    ensures
        r@ == clock_label_spec(time@),
{
    let v = chars_of(time);
    let (h, m) = match split_once_in(&v, &chars_of(":")) {
        Some(parts) => parts,
        None => (v, chars_of("00")),
    };
    let hour: u32 = match parse_u32(&h) {
        Some(n) => n,
        None => 0,
    };
    let zeros = chars_of("00");
    if hour == 0 && crate::text::same(&m, &zeros) {
        return "midnight".to_owned();
    }
    let twelve = if hour % 12 == 0 {
        12
    } else {
        hour % 12
    };
    let half = if hour < 12 {
        "am"
    } else {
        "pm"
    };
    let mut out = decimal_of(twelve as u64);
    if !crate::text::same(&m, &zeros) {
        push_str(&mut out, ":");
        push_all(&mut out, &m);
    }
    push_str(&mut out, half);
    string_of(&out)
}


// --- Home's buttons ----------------------------------------------------------------

/// The longest stretch that can be forgotten in one go. Beyond a couple of
/// hours it stops being "that wasn't the afternoon I meant to have" and
/// becomes a way to keep no history at all, which is what the week is for.
pub const MOST_MINUTES_FORGOTTEN: i64 = 120;

/// A button on Home, as the link it followed.
#[derive(Clone, Copy, Debug, PartialEq, Eq, Structural)]
pub enum HomeAction {
    /// `got-it/TOPIC`: the explanation was read.
    GotIt(Topic),
    /// `forget-bookmark/ID`.
    ForgetBookmark(i64),
    /// `open-download/ID`.
    OpenDownload(u32),
    /// `forget-since/MINUTES`: the pages, the finished downloads and the
    /// sites of the last few minutes, but never how the time felt.
    ForgetSince(i64),
}

pub open spec fn home_action_spec(action: Seq<char>) -> Option<HomeAction> {
    match split_once(action, "/"@) {
        None => None,
        Some((verb, rest)) => if verb == "got-it"@ {
            match topic_from_key(rest) {
                Some(t) => Some(HomeAction::GotIt(t)),
                None => None,
            }
        } else if verb == "forget-bookmark"@ {
            match int_value(rest) {
                Some(id) => if i64::MIN <= id <= i64::MAX {
                    Some(HomeAction::ForgetBookmark(id as i64))
                } else {
                    None
                },
                None => None,
            }
        } else if verb == "open-download"@ {
            match uint_value(rest) {
                Some(id) => if id <= u32::MAX {
                    Some(HomeAction::OpenDownload(id as u32))
                } else {
                    None
                },
                None => None,
            }
        } else if verb == "forget-since"@ {
            match int_value(rest) {
                Some(m) => if 1 <= m <= MOST_MINUTES_FORGOTTEN {
                    Some(HomeAction::ForgetSince(m as i64))
                } else {
                    None
                },
                None => None,
            }
        } else {
            None
        },
    }
}

impl HomeAction {
    /// `got-it/TOPIC`, `forget-bookmark/ID`, `open-download/ID` or
    /// `forget-since/MINUTES`; anything else asks for nothing.
    pub fn parse(action: &str) -> (r: Option<HomeAction>)
        ensures
            r == home_action_spec(action@),
    {
        let (verb, rest) = match split_once_in(&chars_of(action), &chars_of("/")) {
            Some(parts) => parts,
            None => return None,
        };
        if same(&verb, &chars_of("got-it")) {
            match Topic::from_key(string_of(&rest).as_str()) {
                Some(t) => Some(HomeAction::GotIt(t)),
                None => None,
            }
        } else if same(&verb, &chars_of("forget-bookmark")) {
            match parse_i64(&rest) {
                Some(id) => Some(HomeAction::ForgetBookmark(id)),
                None => None,
            }
        } else if same(&verb, &chars_of("open-download")) {
            match parse_u32(&rest) {
                Some(id) => Some(HomeAction::OpenDownload(id)),
                None => None,
            }
        } else if same(&verb, &chars_of("forget-since")) {
            match crate::text::small_int(&rest, 1000) {
                Some(m) => if 1 <= m && m <= MOST_MINUTES_FORGOTTEN {
                    Some(HomeAction::ForgetSince(m))
                } else {
                    None
                },
                None => None,
            }
        } else {
            None
        }
    }
}

// --- What the good news button says ------------------------------------------------

/// Said after good news goes into Newsboat's list: it fetches nothing until
/// asked, and `R` fetches every feed.
pub const READ_THEM: &'static str = "To read them, run newsboat in a terminal and press Shift+R.";

pub open spec fn added_message_spec(shown: Seq<char>, added: nat, already: nat) -> Seq<char> {
    if added == 0 {
        shown + " has every one of them already."@
    } else if already == 0 {
        "Added "@ + feeds_counted_spec(added) + " to "@ + shown + ". "@ + READ_THEM@
    } else {
        "Added "@ + feeds_counted_spec(added) + " to "@ + shown + "; it had "@ + decimal(already)
            + " already. "@ + READ_THEM@
    }
}

/// What adding the good news to Newsboat's list at `shown` did.
pub fn added_message(shown: &str, added: usize, already: usize) -> (r: String)
    ensures
        r@ == added_message_spec(shown@, added as nat, already as nat),
{
    let mut out: Vec<char>;
    if added == 0 {
        out = chars_of(shown);
        push_str(&mut out, " has every one of them already.");
    } else if already == 0 {
        out = chars_of("Added ");
        push_str(&mut out, feeds_counted(added).as_str());
        push_str(&mut out, " to ");
        push_str(&mut out, shown);
        push_str(&mut out, ". ");
        push_str(&mut out, READ_THEM);
    } else {
        out = chars_of("Added ");
        push_str(&mut out, feeds_counted(added).as_str());
        push_str(&mut out, " to ");
        push_str(&mut out, shown);
        push_str(&mut out, "; it had ");
        push_all(&mut out, &decimal_of(already as u64));
        push_str(&mut out, " already. ");
        push_str(&mut out, READ_THEM);
    }
    string_of(&out)
}

pub open spec fn removed_message_spec(shown: Seq<char>, removed: nat) -> Seq<char> {
    if removed == 0 {
        "There was nothing of Glimmerwood's in "@ + shown + " to take out."@
    } else {
        "Took "@ + feeds_counted_spec(removed) + " out of "@ + shown
            + ". Your own feeds are as they were."@
    }
}

/// What taking the good news out of Newsboat's list at `shown` did.
pub fn removed_message(shown: &str, removed: usize) -> (r: String)
    ensures
        r@ == removed_message_spec(shown@, removed as nat),
{
    let mut out: Vec<char>;
    if removed == 0 {
        out = chars_of("There was nothing of Glimmerwood's in ");
        push_str(&mut out, shown);
        push_str(&mut out, " to take out.");
    } else {
        out = chars_of("Took ");
        push_str(&mut out, feeds_counted(removed).as_str());
        push_str(&mut out, " out of ");
        push_str(&mut out, shown);
        push_str(&mut out, ". Your own feeds are as they were.");
    }
    string_of(&out)
}

// --- Care ------------------------------------------------------------------------

pub open spec fn has_samaritans(country: Option<Seq<char>>) -> bool {
    match country {
        Some(c) => c == "GB"@ || c == "IE"@ || c == "IM"@ || c == "JE"@ || c == "GG"@,
        None => false,
    }
}

/// Whether the care note can name the Samaritans: they answer in the UK,
/// Ireland and the islands.
pub fn samaritans(country: Option<&str>) -> (r: bool)
    ensures
        r == has_samaritans(match country {
            Some(c) => Some(c@),
            None => None,
        }),
{
    match country {
        Some(c) => {
            let c = chars_of(c);
            same(&c, &chars_of("GB")) || same(&c, &chars_of("IE")) || same(&c, &chars_of("IM"))
                || same(&c, &chars_of("JE")) || same(&c, &chars_of("GG"))
        },
        None => false,
    }
}

// --- When to wake ------------------------------------------------------------------

/// How often a moving wisp is refreshed while someone is there to see it,
/// and while they aren't. The wisp eases between updates on its own, and
/// the dose moves at most 1.5% a minute, so twice a second only cost CPU.
pub const PRESENT_REFRESH_MS: i64 = 1_000;

pub const AWAY_REFRESH_MS: i64 = 5_000;

/// Coming back after this long away gets a visible welcome, lasting this
/// long.
pub const WELCOME_AFTER_MS: i64 = 7_200_000;

pub const WELCOME_MS: i64 = 90_000;

pub open spec fn min_int(a: int, b: int) -> int {
    if a <= b {
        a
    } else {
        b
    }
}

/// The next thing that can matter: the engine's next change, the next
/// refresh of a moving wisp, the end of a welcome, a question falling due,
/// and the next minute of history.
pub open spec fn next_wake(
    now: int,
    engine_next: int,
    trend: Trend,
    mode: Mode,
    welcome_until: Option<i64>,
    asker_due: Option<Moment>,
) -> int {
    let a = if trend != Trend::Steady {
        min_int(engine_next, now + if mode == Mode::Away {
            AWAY_REFRESH_MS as int
        } else {
            PRESENT_REFRESH_MS as int
        })
    } else {
        engine_next
    };
    let b = match welcome_until {
        Some(u) => if u > now {
            min_int(a, u as int)
        } else {
            a
        },
        None => a,
    };
    let c = match asker_due {
        Some(d) => min_int(b, d.ms as int),
        None => b,
    };
    min_int(c, (now / 60_000 + 1) * 60_000)
}

/// How long to sleep: until the next thing that can matter, but at least
/// 20 ms and at most a minute.
pub fn wake_delay(
    now: Moment,
    engine_next: i64,
    trend: Trend,
    mode: Mode,
    welcome_until: Option<i64>,
    asker_due: Option<Moment>,
) -> (r: u64)
    requires
        in_range(now),
    ensures
        ({
            let d = next_wake(now.ms as int, engine_next as int, trend, mode, welcome_until, asker_due)
                - now.ms;
            r == (if d < 20 {
                20
            } else if d > 60_000 {
                60_000
            } else {
                d
            })
        }),
{
    let mut next: i64 = engine_next;
    if trend != Trend::Steady {
        let every: i64 = if mode == Mode::Away {
            AWAY_REFRESH_MS
        } else {
            PRESENT_REFRESH_MS
        };
        if now.ms + every < next {
            next = now.ms + every;
        }
    }
    if let Some(u) = welcome_until {
        if u > now.ms && u < next {
            next = u;
        }
    }
    if let Some(d) = asker_due {
        if d.ms < next {
            next = d.ms;
        }
    }
    let minute = (crate::dose::div_floor(now.ms, 60_000) + 1) * 60_000;
    if minute < next {
        next = minute;
    }
    let d = next as i128 - now.ms as i128;
    if d < 20 {
        20
    } else if d > 60_000 {
        60_000
    } else {
        d as u64
    }
}

/// Until when to welcome the user back, having been away since `since`:
/// only after a long time away.
pub fn welcome_until(since: Moment, now: Moment) -> (r: Option<i64>)
    requires
        in_range(since),
        in_range(now),
    ensures
        r == (if now.ms - since.ms >= WELCOME_AFTER_MS {
            Some((now.ms + WELCOME_MS) as i64)
        } else {
            None::<i64>
        }),
{
    if now.ms - since.ms >= WELCOME_AFTER_MS {
        Some(now.ms + WELCOME_MS)
    } else {
        None
    }
}

/// Seconds after local midnight, as the lab's title reads the clock.
pub open spec fn lab_seconds(at: Moment) -> int {
    let s = if at.ms >= 0 {
        at.ms / 1000
    } else {
        -((-at.ms) / 1000)
    };
    (s + at.utc_offset_s) % 86_400
}

pub open spec fn lab_title_spec(at: Moment) -> Seq<char> {
    "Feel lab · "@ + two_digits((lab_seconds(at) / 3600) as nat) + ":"@ + two_digits(
        (lab_seconds(at) / 60 % 60) as nat,
    )
}

/// The window's title while the feel lab plays: its clock.
pub fn lab_title(at: Moment) -> (r: String)
    ensures
        r@ == lab_title_spec(at),
{
    let s: i64 = at.ms / 1000;
    assert(s == if at.ms >= 0 {
        at.ms / 1000
    } else {
        -((-at.ms) / 1000)
    });
    let local = crate::dose::rem_floor(s + at.utc_offset_s as i64, 86_400);
    let mut out = chars_of("Feel lab · ");
    push_all(&mut out, &two_digits_of((local / 3600) as u64));
    push_str(&mut out, ":");
    push_all(&mut out, &two_digits_of((local / 60 % 60) as u64));
    string_of(&out)
}

// --- Home --------------------------------------------------------------------

/// What Home explains once met that is happening now: the wisp wearing on a
/// draining site, being here at night, and being on a private site, except
/// a care site, where the wisp stays close. `private` is being present on a
/// private site.
pub open spec fn met_now_spec(mode: Mode, phase: Phase, present: bool, night: bool, private: bool, care: bool) -> Seq<Topic> {
    let draining = if mode == Mode::Draining && phase != Phase::Rested {
        seq![Topic::Draining]
    } else {
        seq![]
    };
    let at_night = if present && night {
        seq![Topic::Night]
    } else {
        seq![]
    };
    let privacy = if !care && private {
        seq![Topic::Privacy]
    } else {
        seq![]
    };
    draining + at_night + privacy
}

pub fn met_now(mode: Mode, phase: Phase, present: bool, night: bool, private: bool, care: bool) -> (r: Vec<Topic>)
    ensures
        r@ == met_now_spec(mode, phase, present, night, private, care),
{
    let mut out: Vec<Topic> = Vec::new();
    if mode == Mode::Draining && phase != Phase::Rested {
        out.push(Topic::Draining);
    }
    if present && night {
        out.push(Topic::Night);
    }
    if !care && private {
        out.push(Topic::Privacy);
    }
    assert(out@ == met_now_spec(mode, phase, present, night, private, care));
    out
}

/// The garden's days, oldest first: each day that grew something, with its
/// fireflies.
pub open spec fn home_plants_spec(garden: Seq<GardenDay>) -> Seq<HomePlant>
    decreases garden.len(),
{
    if garden.len() == 0 {
        seq![]
    } else {
        let before = home_plants_spec(garden.drop_last());
        let g = garden.last();
        match g.plant {
            Some(p) => before.push(HomePlant { kind: plant_kind_spec(p), fireflies: g.fireflies }),
            None => before,
        }
    }
}

pub fn home_plants(garden: &Vec<GardenDay>) -> (r: Vec<HomePlant>)
    ensures
        r@ == home_plants_spec(garden@),
{
    let mut out: Vec<HomePlant> = Vec::new();
    let mut i: usize = 0;
    while i < garden.len()
        invariant
            0 <= i <= garden@.len(),
            out@ == home_plants_spec(garden@.take(i as int)),
        decreases garden.len() - i,
    {
        assert(garden@.take(i + 1).drop_last() == garden@.take(i as int));
        let g = garden[i];
        if let Some(p) = g.plant {
            out.push(HomePlant { kind: plant_kind(p), fireflies: g.fireflies });
        }
        i += 1;
    }
    assert(garden@.take(garden@.len() as int) == garden@);
    out
}

/// Whether the garden's last recorded day is yesterday, and it grew.
pub fn garden_grew_yesterday(garden: &Vec<GardenDay>, today: i64) -> (r: bool)
    requires
        today > i64::MIN,
    ensures
        r == (garden@.len() > 0 && garden@.last().day == today - 1 && garden@.last().plant is Some),
{
    match garden.last() {
        Some(d) => d.day == today - 1 && d.plant.is_some(),
        None => false,
    }
}

/// The finished days the garden has still to record, as the days from the
/// first (included) to the second (not): from the day after the last one
/// recorded, or the first day with any history, but no further back than
/// history is kept, up to today. None at all when the first is not before
/// today.
pub fn garden_due(last_recorded: Option<i64>, first_day: i64, today: i64) -> (r: (i64, i64))
    requires
        match last_recorded {
            Some(d) => d < i64::MAX,
            None => true,
        },
        today >= i64::MIN + RETENTION_DAYS,
    ensures
        ({
            let from = match last_recorded {
                Some(d) => d + 1,
                None => first_day as int,
            };
            let oldest = today - (RETENTION_DAYS - 1);
            r.0 == if from > oldest {
                from
            } else {
                oldest
            }
        }),
        r.1 == today,
{
    let from = match last_recorded {
        Some(d) => d + 1,
        None => first_day,
    };
    let oldest = today - (RETENTION_DAYS - 1);
    (if from > oldest {
        from
    } else {
        oldest
    }, today)
}

// --- The wisp's message ----------------------------------------------------------

/// Which way a list entry leans the dose: the sign of its weight.
#[derive(Clone, Copy, Debug, PartialEq, Eq, Structural)]
pub enum Lean {
    Wearing,
    Ordinary,
    Restoring,
}

/// Where the user is, as the wisp says it: away, on a list entry, on a site
/// on no list, or on a private one.
#[derive(Clone, Debug, PartialEq, Eq)]
pub enum Presence {
    Away,
    Listed { entry: String, lean: Lean },
    Unlisted,
    Private,
}

/// The caption's line about now. A private site is never named, nor a care
/// site, which the wisp stays close on; a site on no list is named by its
/// host `site`; a list entry by the entry. Lines about now carry no bars.
pub open spec fn now_line_spec(p: Presence, site: Seq<char>, care: bool) -> CaptionLineView {
    let line = |kind: CaptionKind, label: Seq<char>| CaptionLineView { kind, label, bars: 0, heard: false };
    match p {
        Presence::Away => line(CaptionKind::Away, Seq::empty()),
        Presence::Listed { entry, lean } => match lean {
            Lean::Wearing => line(CaptionKind::Wearing, entry@),
            Lean::Restoring => line(CaptionKind::Restoring, entry@),
            Lean::Ordinary => line(CaptionKind::OrdinarySites, entry@),
        },
        Presence::Unlisted => line(CaptionKind::Holding, site),
        Presence::Private => if care {
            line(CaptionKind::Care, Seq::empty())
        } else {
            line(CaptionKind::Private, Seq::empty())
        },
    }
}

pub fn now_line(p: &Presence, site: &str, care: bool) -> (r: CaptionLine)
    ensures
        r@ == now_line_spec(*p, site@, care),
{
    let (kind, label) = match p {
        Presence::Away => (CaptionKind::Away, String::new()),
        Presence::Listed { entry, lean } => match lean {
            Lean::Wearing => (CaptionKind::Wearing, entry.clone()),
            Lean::Restoring => (CaptionKind::Restoring, entry.clone()),
            Lean::Ordinary => (CaptionKind::OrdinarySites, entry.clone()),
        },
        Presence::Unlisted => (CaptionKind::Holding, site.to_owned()),
        Presence::Private => if care {
            (CaptionKind::Care, String::new())
        } else {
            (CaptionKind::Private, String::new())
        },
    };
    CaptionLine { kind, label, bars: 0, heard: false }
}

/// The wisp turns away for privacy on a private site, but not on a care
/// site, where it stays close.
pub fn private_flag(p: &Presence, care: bool) -> (r: bool)
    ensures
        r == (!care && *p is Private),
{
    !care && matches!(p, Presence::Private)
}

/// A caption line for what moved the dose: the entry it was on and how
/// strongly, and whether it was only heard. Clutter is no line: it is
/// counted as the untouched tabs.
pub open spec fn caption_line_spec(f: Factor) -> Option<CaptionLineView> {
    let bars = f.bars as u32;
    match f.what {
        FactorKind::Wearing { entry, heard } => Some(
            CaptionLineView { kind: CaptionKind::Wearing, label: entry@, bars, heard },
        ),
        FactorKind::Restoring { entry, heard } => Some(
            CaptionLineView { kind: CaptionKind::Restoring, label: entry@, bars, heard },
        ),
        FactorKind::OrdinarySites => Some(
            CaptionLineView { kind: CaptionKind::OrdinarySites, label: Seq::empty(), bars, heard: false },
        ),
        FactorKind::Away => Some(
            CaptionLineView { kind: CaptionKind::Away, label: Seq::empty(), bars, heard: false },
        ),
        FactorKind::Clutter { .. } => None,
    }
}

/// The caption's lines, strongest first as the factors come.
pub open spec fn caption_lines_spec(fs: Seq<Factor>) -> Seq<CaptionLineView>
    decreases fs.len(),
{
    if fs.len() == 0 {
        seq![]
    } else {
        let before = caption_lines_spec(fs.drop_last());
        match caption_line_spec(fs.last()) {
            Some(l) => before.push(l),
            None => before,
        }
    }
}

pub open spec fn line_views(ls: Seq<CaptionLine>) -> Seq<CaptionLineView> {
    ls.map_values(|l: CaptionLine| l@)
}

pub fn caption_lines(fs: &Vec<Factor>) -> (r: Vec<CaptionLine>)
    ensures
        line_views(r@) == caption_lines_spec(fs@),
{
    let mut out: Vec<CaptionLine> = Vec::new();
    let mut i: usize = 0;
    while i < fs.len()
        invariant
            0 <= i <= fs@.len(),
            line_views(out@) == caption_lines_spec(fs@.take(i as int)),
        decreases fs.len() - i,
    {
        assert(fs@.take(i + 1).drop_last() == fs@.take(i as int));
        let ghost before = out@;
        let bars = fs[i].bars as u32;
        match &fs[i].what {
            FactorKind::Wearing { entry, heard } => {
                out.push(CaptionLine { kind: CaptionKind::Wearing, label: entry.clone(), bars, heard: *heard });
            },
            FactorKind::Restoring { entry, heard } => {
                out.push(CaptionLine { kind: CaptionKind::Restoring, label: entry.clone(), bars, heard: *heard });
            },
            FactorKind::OrdinarySites => {
                out.push(CaptionLine { kind: CaptionKind::OrdinarySites, label: String::new(), bars, heard: false });
            },
            FactorKind::Away => {
                out.push(CaptionLine { kind: CaptionKind::Away, label: String::new(), bars, heard: false });
            },
            FactorKind::Clutter { .. } => {},
        }
        assert(line_views(out@) == caption_lines_spec(fs@.take(i + 1))) by {
            if out@.len() > before.len() {
                assert(line_views(out@) == line_views(before).push(out@.last()@));
            }
        }
        i += 1;
    }
    assert(fs@.take(fs@.len() as int) == fs@);
    out
}

/// How many untouched tabs slowed the recovery: the last clutter factor's
/// count, or none.
pub open spec fn untouched_spec(fs: Seq<Factor>) -> u32
    decreases fs.len(),
{
    if fs.len() == 0 {
        0
    } else {
        match fs.last().what {
            FactorKind::Clutter { tabs } => tabs,
            _ => untouched_spec(fs.drop_last()),
        }
    }
}

pub fn untouched_tabs(fs: &Vec<Factor>) -> (r: u32)
    ensures
        r == untouched_spec(fs@),
{
    let mut i: usize = fs.len();
    assert(fs@.take(i as int) == fs@);
    while i > 0
        invariant
            0 <= i <= fs@.len(),
            untouched_spec(fs@) == untouched_spec(fs@.take(i as int)),
        decreases i,
    {
        assert(fs@.take(i as int).drop_last() == fs@.take(i - 1));
        if let FactorKind::Clutter { tabs } = &fs[i - 1].what {
            return *tabs;
        }
        i -= 1;
    }
    0
}

pub open spec fn wisp_mode_spec(mode: Mode) -> WispMode {
    match mode {
        Mode::Away => WispMode::Away,
        Mode::Draining => WispMode::Draining,
        Mode::Resting => WispMode::Resting,
        Mode::Nourishing => WispMode::Nourishing,
        Mode::Holding => WispMode::Holding,
    }
}

pub open spec fn wisp_trend_spec(trend: Trend) -> WispTrend {
    match trend {
        Trend::Rising => WispTrend::Rising,
        Trend::Falling => WispTrend::Falling,
        Trend::Steady => WispTrend::Steady,
    }
}

/// Everything the wisp is drawn from but the dose itself: its phase, mode
/// and trend, whether it is night, whether it turns away for privacy,
/// whether it welcomes the user back, the line about now, the caption, and
/// the tabs counted but never named.
#[derive(Clone, Debug, PartialEq, Eq)]
pub struct WispMessage {
    pub phase: WispPhase,
    pub mode: WispMode,
    pub trend: WispTrend,
    pub night: bool,
    pub private: bool,
    pub welcome: bool,
    pub now: CaptionLine,
    pub caption: Vec<CaptionLine>,
    pub untouched_tabs: u32,
    pub other_tabs: u32,
}

/// The message the wisp is drawn from, from the engine's state and where
/// the user is; `site` is the host on screen, named only when it is on no
/// list.
pub fn wisp_message(
    phase: Phase,
    mode: Mode,
    trend: Trend,
    night: bool,
    presence: &Presence,
    site: &str,
    care: bool,
    welcome: bool,
    factors: &Vec<Factor>,
    other_tabs: u32,
) -> (r: WispMessage)
    ensures
        r.phase == crate::diary::wisp_phase_spec(phase),
        r.mode == wisp_mode_spec(mode),
        r.trend == wisp_trend_spec(trend),
        r.night == night,
        r.private == (!care && *presence is Private),
        r.welcome == welcome,
        r.now@ == now_line_spec(*presence, site@, care),
        line_views(r.caption@) == caption_lines_spec(factors@),
        r.untouched_tabs == untouched_spec(factors@),
        r.other_tabs == other_tabs,
{
    WispMessage {
        phase: crate::diary::wisp_phase(phase),
        mode: match mode {
            Mode::Away => WispMode::Away,
            Mode::Draining => WispMode::Draining,
            Mode::Resting => WispMode::Resting,
            Mode::Nourishing => WispMode::Nourishing,
            Mode::Holding => WispMode::Holding,
        },
        trend: match trend {
            Trend::Rising => WispTrend::Rising,
            Trend::Falling => WispTrend::Falling,
            Trend::Steady => WispTrend::Steady,
        },
        night,
        private: private_flag(presence, care),
        welcome,
        now: now_line(presence, site, care),
        caption: caption_lines(factors),
        untouched_tabs: untouched_tabs(factors),
        other_tabs,
    }
}

/// A private site is never named: neither the line about now nor the
/// privacy it asks for says which site it is, whatever site is on screen.
pub proof fn private_sites_are_never_named(site: Seq<char>, care: bool)
    ensures
        now_line_spec(Presence::Private, site, care).label.len() == 0,
        now_line_spec(Presence::Private, site, care).kind == (if care {
            CaptionKind::Care
        } else {
            CaptionKind::Private
        }),
{
}

/// The line about now leans as the entry does, and says it as the caption
/// would: on a listed entry it is labelled with the entry, it is `Wearing`
/// exactly for a wearing lean, `Restoring` exactly for a restoring one, and
/// ordinary sites otherwise, and its kind is the kind the caption gives a
/// factor of the same lean on the same entry.
pub proof fn the_line_about_now_leans_as_the_entry(entry: String, lean: Lean, site: Seq<char>, care: bool, bars: u8)
    ensures
        ({
            let l = now_line_spec(Presence::Listed { entry, lean }, site, care);
            &&& l.label == entry@
            &&& l.bars == 0
            &&& !l.heard
            &&& (l.kind == CaptionKind::Wearing) == (lean == Lean::Wearing)
            &&& (l.kind == CaptionKind::Restoring) == (lean == Lean::Restoring)
            &&& (l.kind == CaptionKind::OrdinarySites) == (lean == Lean::Ordinary)
            &&& lean == Lean::Wearing ==> l.kind == caption_line_spec(
                Factor { what: FactorKind::Wearing { entry, heard: false }, bars },
            ).unwrap().kind
            &&& lean == Lean::Restoring ==> l.kind == caption_line_spec(
                Factor { what: FactorKind::Restoring { entry, heard: false }, bars },
            ).unwrap().kind
            &&& lean == Lean::Ordinary ==> l.kind == caption_line_spec(
                Factor { what: FactorKind::OrdinarySites, bars },
            ).unwrap().kind
        }),
{
}

/// Off the lists, the line about now names only what it may: a site on no
/// list by its host, as something that holds the wisp steady; time away as
/// away, naming nothing. Neither carries bars or is only heard.
pub proof fn the_line_about_now_names_only_a_site_on_no_list(site: Seq<char>, care: bool)
    ensures
        now_line_spec(Presence::Unlisted, site, care) == (CaptionLineView {
            kind: CaptionKind::Holding,
            label: site,
            bars: 0,
            heard: false,
        }),
        now_line_spec(Presence::Away, site, care) == (CaptionLineView {
            kind: CaptionKind::Away,
            label: Seq::<char>::empty(),
            bars: 0,
            heard: false,
        }),
{
}

// --- Home ------------------------------------------------------------------------

/// Whether the good places picked before still hold: they were picked for
/// this stretch of the day, this part of it, and the same places of the
/// user's own (as the shell lists them, sorted).
pub fn places_still_hold(
    memo: &Option<(i64, PartOfDay, Vec<String>)>,
    stretch: i64,
    part: PartOfDay,
    own: &Vec<String>,
) -> (r: bool)
    ensures
        r == match memo {
            Some(m) => m.0 == stretch && m.1 == part && string_views(m.2@) == string_views(own@),
            None => false,
        },
{
    match memo {
        None => false,
        Some(m) => {
            if m.0 != stretch || m.1 != part {
                return false;
            }
            let same = same_strings(&m.2, own);
            same
        },
    }
}

fn same_strings(a: &Vec<String>, b: &Vec<String>) -> (r: bool)
    ensures
        r == (string_views(a@) == string_views(b@)),
{
    if a.len() != b.len() {
        assert(string_views(a@).len() != string_views(b@).len());
        return false;
    }
    let mut i: usize = 0;
    while i < a.len()
        invariant
            a@.len() == b@.len(),
            0 <= i <= a@.len(),
            forall|j: int| 0 <= j < i ==> a@[j]@ == b@[j]@,
        decreases a.len() - i,
    {
        if !same(&chars_of(a[i].as_str()), &chars_of(b[i].as_str())) {
            assert(string_views(a@)[i as int] != string_views(b@)[i as int]);
            return false;
        }
        i += 1;
    }
    assert(string_views(a@) == string_views(b@));
    true
}

pub open spec fn day_part_spec(part: PartOfDay) -> DayPart {
    match part {
        PartOfDay::Morning => DayPart::Morning,
        PartOfDay::Day => DayPart::Day,
        PartOfDay::Evening => DayPart::Evening,
        PartOfDay::Night => DayPart::Night,
    }
}

/// Everything Home shows that is decided rather than read or measured: the
/// greeting, the introduction while it is up, what is explained, the part
/// of the day, the good places, the bookmarks with their sites, the garden
/// and where it puts things. The pages of the week, the downloads and the
/// wisp's history are added by the shell.
#[derive(Clone, Debug, PartialEq, Eq)]
pub struct HomeView {
    pub title: String,
    pub line: String,
    pub about: Option<HomeAbout>,
    pub explain: Option<HomeExplain>,
    pub part: DayPart,
    pub places: Vec<HomePlace>,
    pub bookmarks: Vec<HomeBookmark>,
    pub plants: Vec<HomePlant>,
    pub seed: u32,
}

fn copy_strings(v: &Vec<String>) -> (r: Vec<String>)
    ensures
        string_views(r@) == string_views(v@),
{
    let mut out: Vec<String> = Vec::new();
    let mut i: usize = 0;
    while i < v.len()
        invariant
            0 <= i <= v@.len(),
            out@.len() == i,
            forall|j: int| 0 <= j < i ==> (#[trigger] out@[j])@ == v@[j]@,
        decreases v.len() - i,
    {
        out.push(v[i].clone());
        i += 1;
    }
    assert(string_views(out@) == string_views(v@));
    out
}

pub fn home_view(
    greeting: &Greeting,
    about: &About,
    part: PartOfDay,
    places: &Vec<PlaceCard>,
    bookmarks: &Vec<Bookmark>,
    garden: &Vec<GardenDay>,
    seed: u32,
) -> (r: HomeView)
    ensures
        r.title@ == greeting.title@,
        r.line@ == greeting.line@,
        match r.about {
            Some(a) => greeting.about && a.title@ == about.title@ && string_views(a.paragraphs@)
                == string_views(about.paragraphs@) && a.done@ == about.done@,
            None => !greeting.about,
        },
        match (r.explain, greeting.explain) {
            (Some(e), Some((topic, text))) => e.topic@ == topic_key(topic) && e.text@ == text@,
            (None, None) => true,
            _ => false,
        },
        r.part == day_part_spec(part),
        r.places@.len() == places@.len(),
        forall|i: int|
            0 <= i < places@.len() ==> {
                let p = #[trigger] r.places@[i];
                &&& p.name@ == places@[i].name@
                &&& p.line@ == places@[i].line@
                &&& p.url@ == places@[i].url@
                &&& p.yours == places@[i].yours
            },
        r.bookmarks@.len() == bookmarks@.len(),
        forall|i: int|
            0 <= i < bookmarks@.len() ==> {
                let b = #[trigger] r.bookmarks@[i];
                &&& b.id == bookmarks@[i].id
                &&& b.title@ == bookmarks@[i].title@
                &&& b.url@ == bookmarks@[i].url@
                &&& b.host@ == host_of_spec(bookmarks@[i].url@)
            },
        r.plants@ == home_plants_spec(garden@),
        r.seed == seed,
{
    let about_view = if greeting.about {
        Some(HomeAbout {
            title: about.title.clone(),
            paragraphs: copy_strings(&about.paragraphs),
            done: about.done.clone(),
        })
    } else {
        None
    };
    let explain = match &greeting.explain {
        Some((topic, text)) => Some(HomeExplain { topic: topic.key().to_owned(), text: text.clone() }),
        None => None,
    };
    let mut shown: Vec<HomePlace> = Vec::new();
    let mut i: usize = 0;
    while i < places.len()
        invariant
            0 <= i <= places@.len(),
            shown@.len() == i,
            forall|j: int|
                0 <= j < i ==> {
                    let p = #[trigger] shown@[j];
                    &&& p.name@ == places@[j].name@
                    &&& p.line@ == places@[j].line@
                    &&& p.url@ == places@[j].url@
                    &&& p.yours == places@[j].yours
                },
        decreases places.len() - i,
    {
        let c = &places[i];
        shown.push(HomePlace { name: c.name.clone(), line: c.line.clone(), url: c.url.clone(), yours: c.yours });
        i += 1;
    }
    let mut marks: Vec<HomeBookmark> = Vec::new();
    let mut k: usize = 0;
    while k < bookmarks.len()
        invariant
            0 <= k <= bookmarks@.len(),
            marks@.len() == k,
            forall|j: int|
                0 <= j < k ==> {
                    let b = #[trigger] marks@[j];
                    &&& b.id == bookmarks@[j].id
                    &&& b.title@ == bookmarks@[j].title@
                    &&& b.url@ == bookmarks@[j].url@
                    &&& b.host@ == host_of_spec(bookmarks@[j].url@)
                },
        decreases bookmarks.len() - k,
    {
        let b = &bookmarks[k];
        marks.push(HomeBookmark {
            id: b.id,
            title: b.title.clone(),
            url: b.url.clone(),
            host: host_of(b.url.as_str()),
        });
        k += 1;
    }
    HomeView {
        title: greeting.title.clone(),
        line: greeting.line.clone(),
        about: about_view,
        explain,
        part: match part {
            PartOfDay::Morning => DayPart::Morning,
            PartOfDay::Day => DayPart::Day,
            PartOfDay::Evening => DayPart::Evening,
            PartOfDay::Night => DayPart::Night,
        },
        places: shown,
        bookmarks: marks,
        plants: home_plants(garden),
        seed,
    }
}

// --- Settings --------------------------------------------------------------------

/// The site a look-up names: the text, trimmed and lowercased, when it is an
/// entry as the lists hold them; else the host of it read as an address,
/// when that is one; else none.
pub open spec fn looked_up_site_spec(text: Seq<char>) -> Option<Seq<char>> {
    let t = lower(trim(text));
    if entry_problem(t) is None {
        Some(t)
    } else {
        let h = host_of_spec(t);
        if entry_problem(h) is None {
            Some(h)
        } else {
            None
        }
    }
}

pub fn looked_up_site(text: &str) -> (r: Option<String>)
    ensures
        match r {
            Some(s) => looked_up_site_spec(text@) == Some(s@),
            None => looked_up_site_spec(text@) is None,
        },
{
    let t = string_of(&lowered(&trimmed(&chars_of(text))));
    if check_entry(t.as_str()).is_ok() {
        return Some(t);
    }
    let h = host_of(t.as_str());
    if check_entry(h.as_str()).is_ok() {
        Some(h)
    } else {
        None
    }
}

/// What the user's own file gives Settings: its entries, and what is wrong
/// with it. A file that cannot be read into entries shows none; one whose
/// entries clash with the seed still shows them, with the problem.
pub open spec fn user_side(
    seed: Seq<(Seq<char>, List)>,
    user: Result<ListFile, String>,
) -> (Seq<(Seq<char>, Option<List>)>, Seq<char>) {
    match user {
        Err(m) => (seq![], m@),
        Ok(f) => match user_entries_spec(tables_view(f.tables@), removed_view(f.removed)) {
            Err(m) => (seq![], m),
            Ok(es) => match with_user_spec(seed, tables_view(f.tables@), removed_view(f.removed)) {
                Ok(_) => (es, Seq::<char>::empty()),
                Err(m) => (es, m),
            },
        },
    }
}

/// The choices a range of the night offers, each with how it is said.
pub open spec fn time_choices_match(r: Seq<TimeChoice>, values: Seq<Seq<char>>) -> bool {
    &&& r.len() == values.len()
    &&& forall|i: int|
        0 <= i < values.len() ==> (#[trigger] r[i]).value@ == values[i] && r[i].label@
            == clock_label_spec(values[i])
}

/// The ratings shown for a look-up: the site's own, and the entry's it falls
/// under when that is another.
pub open spec fn lookup_matches(
    r: Seq<SiteRating>,
    lists: Seq<(Seq<char>, List)>,
    seed: Seq<(Seq<char>, List)>,
    yours: Seq<(Seq<char>, Option<List>)>,
    site: Seq<char>,
) -> bool {
    &&& r.len() >= 1
    &&& site_rating_matches(r[0], lists, seed, yours, site)
    &&& if r[0].matched@.len() > 0 && r[0].matched@ != site {
        r.len() == 2 && site_rating_matches(r[1], lists, seed, yours, r[0].matched@)
    } else {
        r.len() == 1
    }
}

/// Everything the Settings page shows.
#[derive(Clone, Debug, PartialEq, Eq)]
pub struct SettingsView {
    pub lookup: Vec<SiteRating>,
    pub lookup_failed: String,
    pub ratings: Vec<SiteRating>,
    pub ratings_file: String,
    pub ratings_problem: String,
    pub ask: bool,
    pub night_starts: String,
    pub night_ends: String,
    pub night_start_choices: Vec<TimeChoice>,
    pub night_end_choices: Vec<TimeChoice>,
    pub newsboat_file: String,
    pub good_news: Vec<NewsFeed>,
    pub newsboat_done: String,
}

fn time_choices(range: (&str, &str)) -> (r: Vec<TimeChoice>)
    requires
        readable_range(range.0@, range.1@),
    ensures
        time_choices_match(
            r@,
            half_hours(hm_minutes(range.0@).unwrap(), hm_minutes(range.1@).unwrap()),
        ),
{
    let values = night_choices(range);
    let ghost vs = half_hours(hm_minutes(range.0@).unwrap(), hm_minutes(range.1@).unwrap());
    let mut out: Vec<TimeChoice> = Vec::new();
    let mut i: usize = 0;
    while i < values.len()
        invariant
            values@.map_values(|s: String| s@) == vs,
            0 <= i <= values@.len(),
            out@.len() == i,
            forall|j: int|
                0 <= j < i ==> (#[trigger] out@[j]).value@ == vs[j] && out@[j].label@
                    == clock_label_spec(vs[j]),
        decreases values.len() - i,
    {
        assert(values@[i as int]@ == vs[i as int]);
        let label = clock_label(values[i].as_str());
        out.push(TimeChoice { label, value: values[i].clone() });
        i += 1;
    }
    out
}

fn rate_all(
    lists: &Entries,
    seed: &Entries,
    yours: &Vec<(String, Option<List>)>,
) -> (r: Vec<SiteRating>)
    ensures
        r@.len() == yours@.len(),
        forall|i: int|
            0 <= i < yours@.len() ==> site_rating_matches(
                #[trigger] r@[i],
                lists@,
                seed@,
                yours_view(yours@),
                yours@[i].0@,
            ),
{
    let mut out: Vec<SiteRating> = Vec::new();
    let mut i: usize = 0;
    while i < yours.len()
        invariant
            0 <= i <= yours@.len(),
            out@.len() == i,
            forall|j: int|
                0 <= j < i ==> site_rating_matches(
                    #[trigger] out@[j],
                    lists@,
                    seed@,
                    yours_view(yours@),
                    yours@[j].0@,
                ),
        decreases yours.len() - i,
    {
        out.push(site_rating(lists, seed, yours, yours[i].0.as_str()));
        i += 1;
    }
    out
}

fn news_feeds(feeds: &Vec<Feed>, text: &str) -> (r: Vec<NewsFeed>)
    ensures
        r@.len() == feeds@.len(),
        forall|i: int|
            0 <= i < feeds@.len() ==> {
                let n = #[trigger] r@[i];
                &&& n.name@ == feeds@[i].name@
                &&& n.site@ == feeds@[i].site@
                &&& n.kind == feeds@[i].kind
                &&& n.added == present_spec(text@, feeds@)[i]
            },
{
    let added = present(text, feeds.as_slice());
    let mut out: Vec<NewsFeed> = Vec::new();
    let mut i: usize = 0;
    while i < feeds.len()
        invariant
            added@ == present_spec(text@, feeds@),
            0 <= i <= feeds@.len(),
            out@.len() == i,
            forall|j: int|
                0 <= j < i ==> {
                    let n = #[trigger] out@[j];
                    &&& n.name@ == feeds@[j].name@
                    &&& n.site@ == feeds@[j].site@
                    &&& n.kind == feeds@[j].kind
                    &&& n.added == present_spec(text@, feeds@)[j]
                },
        decreases feeds.len() - i,
    {
        let f = &feeds[i];
        out.push(NewsFeed { name: f.name.clone(), site: f.site.clone(), kind: f.kind, added: added[i] });
        i += 1;
    }
    out
}

/// The Settings page, from the lists in use (`lists`, with the user's file
/// applied) and the seed, the user's file as the shell read it, the text
/// being looked up, the settings, the good-news feeds with the text of
/// Newsboat's list, where the two files are as the page shows them, and
/// what the last Newsboat button did.
pub fn settings_view(
    lists: &Entries,
    seed: &Entries,
    user: &Result<ListFile, String>,
    lookup: &str,
    settings: &Settings,
    feeds: &Vec<Feed>,
    feeds_text: &str,
    ratings_file: &str,
    newsboat_file: Option<&str>,
    newsboat_done: &str,
) -> (r: SettingsView)
    requires
        unique(seed@),
    ensures
        ({
            let (yours, problem) = user_side(seed@, *user);
            &&& r.ratings@.len() == yours.len()
            &&& forall|i: int|
                0 <= i < yours.len() ==> site_rating_matches(
                    #[trigger] r.ratings@[i],
                    lists@,
                    seed@,
                    yours,
                    yours[i].0,
                )
            &&& r.ratings_problem@ == problem
            &&& match looked_up_site_spec(lookup@) {
                Some(site) => r.lookup_failed@ == Seq::<char>::empty() && lookup_matches(
                    r.lookup@,
                    lists@,
                    seed@,
                    yours,
                    site,
                ),
                None => r.lookup_failed@ == trim(lookup@) && r.lookup@.len() == 0,
            }
        }),
        r.ratings_file@ == ratings_file@,
        r.ask == settings.ask_about_new_places,
        r.night_starts@ == settings.night_starts@,
        r.night_ends@ == settings.night_ends@,
        time_choices_match(r.night_start_choices@, choices(NIGHT_STARTS)),
        time_choices_match(r.night_end_choices@, choices(NIGHT_ENDS)),
        r.newsboat_file@ == match newsboat_file {
            Some(p) => p@,
            None => Seq::<char>::empty(),
        },
        r.good_news@.len() == feeds@.len(),
        forall|i: int|
            0 <= i < feeds@.len() ==> {
                let n = #[trigger] r.good_news@[i];
                &&& n.name@ == feeds@[i].name@
                &&& n.site@ == feeds@[i].site@
                &&& n.kind == feeds@[i].kind
                &&& n.added == present_spec(feeds_text@, feeds@)[i]
            },
        r.newsboat_done@ == newsboat_done@,
{
    let (yours, problem): (Vec<(String, Option<List>)>, String) = match user {
        Err(m) => (Vec::new(), m.clone()),
        Ok(f) => match user_entries(f) {
            Err(m) => (Vec::new(), m),
            Ok(es) => match seed.with_user(f) {
                Ok(_) => (es, String::new()),
                Err(m) => (es, m),
            },
        },
    };
    proof {
        assert(yours_view(yours@) == user_side(seed@, *user).0);
        assert(problem@ == user_side(seed@, *user).1);
    }
    let ratings = rate_all(lists, seed, &yours);
    let (lookup_ratings, lookup_failed) = match looked_up_site(lookup) {
        Some(site) => {
            let first = site_rating(lists, seed, &yours, site.as_str());
            let mut shown: Vec<SiteRating> = Vec::new();
            let matched = chars_of(first.matched.as_str());
            let whole = matched.len() > 0 && !same(&matched, &chars_of(site.as_str()));
            let second = if whole {
                Some(site_rating(lists, seed, &yours, first.matched.as_str()))
            } else {
                None
            };
            shown.push(first);
            match second {
                Some(s) => shown.push(s),
                None => {},
            }
            (shown, String::new())
        },
        None => (Vec::new(), string_of(&trimmed(&chars_of(lookup)))),
    };
    proof {
        lemma_night_ranges();
    }
    SettingsView {
        lookup: lookup_ratings,
        lookup_failed,
        ratings,
        ratings_file: ratings_file.to_owned(),
        ratings_problem: problem,
        ask: settings.ask_about_new_places,
        night_starts: settings.night_starts.clone(),
        night_ends: settings.night_ends.clone(),
        night_start_choices: time_choices(NIGHT_STARTS),
        night_end_choices: time_choices(NIGHT_ENDS),
        newsboat_file: match newsboat_file {
            Some(p) => p.to_owned(),
            None => String::new(),
        },
        good_news: news_feeds(feeds, feeds_text),
        newsboat_done: newsboat_done.to_owned(),
    }
}

// --- Paths as Settings shows them ------------------------------------------------

/// What `Path::strip_prefix` leaves of `path` once `base` is taken off, as
/// text; none where `base` is not a leading part of `path`, compared whole
/// component by whole component.
pub uninterp spec fn path_rest(path: Seq<char>, base: Seq<char>) -> Option<Seq<char>>;

/// `Path::strip_prefix` on two paths given as text, the rest back as text.
/// Stated here: the result is `path_rest` of the two. How components are
/// split and compared is left unsaid.
#[verifier::external_body]
fn strip_path_prefix(path: &str, base: &str) -> (r: Option<String>)
    ensures
        match r {
            Some(rest) => path_rest(path@, base@) == Some(rest@),
            None => path_rest(path@, base@) is None,
        },
{
    match std::path::Path::new(path).strip_prefix(base) {
        Ok(rest) => Some(rest.to_string_lossy().into_owned()),
        Err(_) => None,
    }
}

/// `path` with the home directory written as `~`, given what is left of it
/// once the home directory is taken off, where it is under it.
pub open spec fn tidied_spec(path: Seq<char>, rest: Option<Seq<char>>) -> Seq<char> {
    match rest {
        Some(r) => "~/"@ + r,
        None => path,
    }
}

pub open spec fn rest_view(rest: Option<String>) -> Option<Seq<char>> {
    match rest {
        Some(r) => Some(r@),
        None => None,
    }
}

pub fn tidied(path: &str, rest: &Option<String>) -> (r: String)
    ensures
        r@ == tidied_spec(path@, rest_view(*rest)),
{
    match rest {
        Some(r) => {
            let mut out = chars_of("~/");
            push_str(&mut out, r.as_str());
            proof {
                reveal_strlit("~/");
            }
            string_of(&out)
        },
        None => path.to_owned(),
    }
}

/// A path with the home directory `home` written as `~`.
pub fn tidy_path(path: &str, home: &str) -> (r: String)
    ensures
        r@ == tidied_spec(path@, path_rest(path@, home@)),
{
    let rest = strip_path_prefix(path, home);
    tidied(path, &rest)
}

} // verus!
