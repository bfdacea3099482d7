//! What the user chose on the Settings page, kept in `settings.toml` in the
//! config directory beside their reputation file.
//!
//! Reading the file into its parts, and reading and saving it, are the
//! shell's; what the parts mean, which nights are allowed and what is
//! written back are decided here.

use vstd::prelude::*;

use crate::dose::Times;
use crate::text::{
    chars_of, is_ascii_digit, lemma_first_from_is, is_match_at, find, parse_u32, push_all,
    push_str, same, split_once, split_once_in, string_of, two_digits, two_digits_of, uint_value,
};

verus! {

/// The half hours the night may start in, and end in.
pub const NIGHT_STARTS: (&'static str, &'static str) = ("20:00", "01:00");

pub const NIGHT_ENDS: (&'static str, &'static str) = ("04:00", "08:00");

#[derive(Clone, Debug, PartialEq, Eq)]
pub struct Settings {
    /// The wisp asks how sites it hasn't met leave the user.
    pub ask_about_new_places: bool,
    pub night_starts: String,
    pub night_ends: String,
}

impl View for Settings {
    type V = (bool, Seq<char>, Seq<char>);

    open spec fn view(&self) -> (bool, Seq<char>, Seq<char>) {
        (self.ask_about_new_places, self.night_starts@, self.night_ends@)
    }
}

/// The `[night]` table of the file, as the shell read it.
#[derive(Clone, Debug, Default, PartialEq, Eq)]
pub struct NightFile {
    pub starts: Option<String>,
    pub ends: Option<String>,
}

/// The file, as the shell read it: what it sets, and nothing for what it
/// leaves out.
#[derive(Clone, Debug, Default, PartialEq, Eq)]
pub struct SettingsFile {
    pub ask_about_new_places: Option<bool>,
    pub night: Option<NightFile>,
}

// --- The choices -----------------------------------------------------------------------

/// Minutes after midnight for "HH:MM", hours and minutes as `u32::from_str`
/// reads them.
pub open spec fn hm_minutes(t: Seq<char>) -> Option<int> {
    match split_once(t, ":"@) {
        Some((h, m)) => match (uint_value(h), uint_value(m)) {
            (Some(h), Some(m)) => Some(h * 60 + m),
            _ => None,
        },
        None => None,
    }
}

/// A time of day as the choices write it: "HH:MM".
pub open spec fn clock_text(t: int) -> Seq<char> {
    two_digits((t / 60) as nat) + ":"@ + two_digits((t % 60) as nat)
}

/// Every half hour from `from` to `to` minutes, going past midnight if need be.
pub open spec fn half_hours(from: int, to: int) -> Seq<Seq<char>> {
    let span = (to + 1440 - from) % 1440int;
    Seq::new((span / 30 + 1) as nat, |i: int| clock_text((from + i * 30) % 1440int))
}

/// Times that `night_choices` can read: both "HH:MM", small enough that the
/// arithmetic stays within `u32`, the start no later than a day after the end.
pub open spec fn readable_range(from: Seq<char>, to: Seq<char>) -> bool {
    &&& hm_minutes(from) is Some
    &&& hm_minutes(to) is Some
    &&& hm_minutes(from).unwrap() <= u32::MAX - 2 * 24 * 60
    &&& hm_minutes(to).unwrap() <= u32::MAX - 2 * 24 * 60
    &&& hm_minutes(from).unwrap() <= hm_minutes(to).unwrap() + 24 * 60
}

pub open spec fn choices(range: (&'static str, &'static str)) -> Seq<Seq<char>> {
    half_hours(hm_minutes(range.0@).unwrap(), hm_minutes(range.1@).unwrap())
}

fn minutes(t: &str) -> (r: u32)
    requires
        hm_minutes(t@) is Some,
        hm_minutes(t@).unwrap() <= u32::MAX,
    ensures
        r == hm_minutes(t@).unwrap(),
{
    let (h, m) = split_once_in(&chars_of(t), &chars_of(":")).unwrap();
    proof {
        crate::text::lemma_uint_nonneg(h@);
        crate::text::lemma_uint_nonneg(m@);
    }
    let h = parse_u32(&h).unwrap();
    let m = parse_u32(&m).unwrap();
    h * 60 + m
}

fn clock_text_of(t: u32) -> (r: String)
    requires
        t < 24 * 60,
    ensures
        r@ == clock_text(t as int),
{
    let mut out = two_digits_of((t / 60) as u64);
    push_str(&mut out, ":");
    push_all(&mut out, &two_digits_of((t % 60) as u64));
    string_of(&out)
}

/// Every half hour from `from` to `to`, going past midnight if need be.
pub fn night_choices(range: (&str, &str)) -> (r: Vec<String>)
    requires
        readable_range(range.0@, range.1@),
    ensures
        r@.map_values(|s: String| s@) == half_hours(
            hm_minutes(range.0@).unwrap(),
            hm_minutes(range.1@).unwrap(),
        ),
{
    let (from, to) = range;
    let start = minutes(from);
    let end = minutes(to);
    let span = (end + 24 * 60 - start) % (24 * 60);
    let ghost want = half_hours(start as int, end as int);
    let mut r: Vec<String> = Vec::new();
    let mut i: u32 = 0;
    while i <= span / 30
        invariant
            span < 24 * 60,
            start <= u32::MAX - 2 * 24 * 60,
            want == half_hours(start as int, end as int),
            span == (end + 1440 - start) % 1440int,
            i <= span / 30 + 1,
            r@.len() == i,
            forall|j: int| 0 <= j < i ==> #[trigger] r@[j]@ == want[j],
        decreases span / 30 + 1 - i,
    {
        let t = (start + i * 30) % (24 * 60);
        let s = clock_text_of(t);
        r.push(s);
        i += 1;
    }
    assert(r@.map_values(|s: String| s@) =~= want);
    r
}

/// "HH:MM" with digits where the digits go reads as its minutes.
pub proof fn lemma_hhmm(s: Seq<char>)
    requires
        s.len() == 5,
        is_ascii_digit(s[0]),
        is_ascii_digit(s[1]),
        s[2] == ':',
        is_ascii_digit(s[3]),
        is_ascii_digit(s[4]),
    ensures
        hm_minutes(s) == Some(
            ((s[0] as int - 48) * 10 + (s[1] as int - 48)) * 60 + (s[3] as int - 48) * 10 + (
            s[4] as int - 48),
        ),
{
    reveal_strlit(":");
    let colon = ":"@;
    assert(colon.len() == 1 && colon[0] == ':');
    let p = is_match_at(s, colon);
    assert(!p(0)) by {
        assert(s.subrange(0, 1)[0] == s[0]);
    }
    assert(!p(1)) by {
        assert(s.subrange(1, 2)[0] == s[1]);
    }
    assert(p(2)) by {
        assert(s.subrange(2, 3) =~= colon);
    }
    lemma_first_from_is(s.len() as int, p, 0, 2);
    assert(find(s, colon) == 2);
    let h = s.take(2);
    let m = s.skip(3);
    reveal_with_fuel(crate::text::digits_value, 3);
    assert(h.drop_last() =~= seq![s[0]]);
    assert(m.drop_last() =~= seq![s[3]]);
    assert(seq![s[0]].drop_last() =~= Seq::<char>::empty());
    assert(seq![s[3]].drop_last() =~= Seq::<char>::empty());
    assert(uint_value(h) == Some((s[0] as int - 48) * 10 + (s[1] as int - 48)));
    assert(uint_value(m) == Some((s[3] as int - 48) * 10 + (s[4] as int - 48)));
}

/// The two ranges the night can be moved within, as the code reads them.
pub proof fn lemma_night_ranges()
    ensures
        hm_minutes(NIGHT_STARTS.0@) == Some(1200int),
        hm_minutes(NIGHT_STARTS.1@) == Some(60int),
        hm_minutes(NIGHT_ENDS.0@) == Some(240int),
        hm_minutes(NIGHT_ENDS.1@) == Some(480int),
        readable_range(NIGHT_STARTS.0@, NIGHT_STARTS.1@),
        readable_range(NIGHT_ENDS.0@, NIGHT_ENDS.1@),
{
    reveal_strlit("20:00");
    reveal_strlit("01:00");
    reveal_strlit("04:00");
    reveal_strlit("08:00");
    lemma_hhmm("20:00"@);
    lemma_hhmm("01:00"@);
    lemma_hhmm("04:00"@);
    lemma_hhmm("08:00"@);
}

fn among(choices: &Vec<String>, t: &str) -> (r: bool)
    ensures
        r == choices@.map_values(|s: String| s@).contains(t@),
{
    let ghost cs = choices@.map_values(|s: String| s@);
    let tv = chars_of(t);
    let mut i: usize = 0;
    while i < choices.len()
        invariant
            0 <= i <= choices@.len(),
            cs == choices@.map_values(|s: String| s@),
            tv@ == t@,
            forall|j: int| 0 <= j < i ==> cs[j] != t@,
        decreases choices.len() - i,
    {
        assert(cs[i as int] == choices@[i as int]@);
        if same(&chars_of(choices[i].as_str()), &tv) {
            assert(cs[i as int] == t@);
            return true;
        }
        i += 1;
    }
    false
}

pub open spec fn starts_message() -> Seq<char> {
    "the night "@ + "starts"@ + " between "@ + NIGHT_STARTS.0@ + " and "@ + NIGHT_STARTS.1@
        + ", on the hour or half past"@
}

pub open spec fn ends_message() -> Seq<char> {
    "the night "@ + "ends"@ + " between "@ + NIGHT_ENDS.0@ + " and "@ + NIGHT_ENDS.1@
        + ", on the hour or half past"@
}

/// What moving the night to `starts` and `ends` gives: the error, if either
/// is not among its choices.
pub open spec fn night_problem(starts: Seq<char>, ends: Seq<char>) -> Option<Seq<char>> {
    if !choices(NIGHT_STARTS).contains(starts) {
        Some(starts_message())
    } else if !choices(NIGHT_ENDS).contains(ends) {
        Some(ends_message())
    } else {
        None
    }
}

fn between_message(what: &str, range: (&str, &str)) -> (r: String)
    ensures
        r@ == "the night "@ + what@ + " between "@ + range.0@ + " and "@ + range.1@
            + ", on the hour or half past"@,
{
    let mut out = chars_of("the night ");
    push_str(&mut out, what);
    push_str(&mut out, " between ");
    push_str(&mut out, range.0);
    push_str(&mut out, " and ");
    push_str(&mut out, range.1);
    push_str(&mut out, ", on the hour or half past");
    string_of(&out)
}

/// What the file says, on top of what nothing chosen would be.
pub open spec fn parse_spec(file: SettingsFile, night: (Seq<char>, Seq<char>)) -> Result<(bool, Seq<char>, Seq<char>), Seq<char>> {
    let ask = match file.ask_about_new_places {
        Some(a) => a,
        None => true,
    };
    let (starts, ends) = match file.night {
        Some(n) => (
            match n.starts {
                Some(s) => s@,
                None => night.0,
            },
            match n.ends {
                Some(e) => e@,
                None => night.1,
            },
        ),
        None => night,
    };
    match night_problem(starts, ends) {
        Some(m) => Err(m),
        None => Ok((ask, starts, ends)),
    }
}

/// What the file says about `starts = …` and `ends = …` under `[night]`.
pub open spec fn bool_text(b: bool) -> Seq<char> {
    if b {
        "true"@
    } else {
        "false"@
    }
}

/// The file as Glimmerwood writes it.
pub open spec fn toml_spec(s: (bool, Seq<char>, Seq<char>)) -> Seq<char> {
    "# Glimmerwood's settings, changed from its Settings page (Ctrl+comma).\n"@
        + "# Editing by hand works too; Glimmerwood reads them when it starts.\n"@ + "\n"@
        + "ask-about-new-places = "@ + bool_text(s.0) + "\n"@ + "\n"@
        + "# When the wisp winds down, in half hours: starting from "@ + NIGHT_STARTS.0@ + " to "@
        + NIGHT_STARTS.1@ + "\n"@ + "# and ending from "@ + NIGHT_ENDS.0@ + " to "@
        + NIGHT_ENDS.1@ + ".\n"@ + "[night]\n"@ + "starts = \""@ + s.1 + "\"\n"@ + "ends = \""@
        + s.2 + "\"\n"@
}

impl Settings {
    /// Nothing chosen yet: the rates' night, and the wisp asks.
    pub fn defaults(times: &Times) -> (r: Settings)
        ensures
            r@ == (true, times@.1, times@.2),
    {
        Settings {
            ask_about_new_places: true,
            night_starts: times.night_starts_at().to_owned(),
            night_ends: times.night_ends_at().to_owned(),
        }
    }

    /// Anything the file leaves out keeps its default. A mistake is
    /// reported, not guessed at.
    pub fn parse(file: &SettingsFile, times: &Times) -> (r: Result<Settings, String>)
        ensures
            match r {
                Ok(s) => parse_spec(*file, (times@.1, times@.2)) == Ok::<
                    (bool, Seq<char>, Seq<char>),
                    Seq<char>,
                >(s@),
                Err(m) => parse_spec(*file, (times@.1, times@.2)) == Err::<
                    (bool, Seq<char>, Seq<char>),
                    Seq<char>,
                >(m@),
            },
    {
        let mut settings = Settings::defaults(times);
        if let Some(ask) = file.ask_about_new_places {
            settings.ask_about_new_places = ask;
        }
        if let Some(night) = &file.night {
            if let Some(s) = &night.starts {
                settings.night_starts = s.clone();
            }
            if let Some(e) = &night.ends {
                settings.night_ends = e.clone();
            }
        }
        let starts = settings.night_starts.clone();
        let ends = settings.night_ends.clone();
        match settings.set_night(starts.as_str(), ends.as_str()) {
            Ok(()) => Ok(settings),
            Err(m) => Err(m),
        }
    }

    /// The file, with what each setting does and what it may be.
    pub fn to_toml(&self) -> (r: String)
        ensures
            r@ == toml_spec(self@),
    {
        let mut out = chars_of(
            "# Glimmerwood's settings, changed from its Settings page (Ctrl+comma).\n",
        );
        push_str(&mut out, "# Editing by hand works too; Glimmerwood reads them when it starts.\n");
        push_str(&mut out, "\n");
        push_str(&mut out, "ask-about-new-places = ");
        push_str(
            &mut out,
            if self.ask_about_new_places {
                "true"
            } else {
                "false"
            },
        );
        push_str(&mut out, "\n");
        push_str(&mut out, "\n");
        push_str(&mut out, "# When the wisp winds down, in half hours: starting from ");
        push_str(&mut out, NIGHT_STARTS.0);
        push_str(&mut out, " to ");
        push_str(&mut out, NIGHT_STARTS.1);
        push_str(&mut out, "\n");
        push_str(&mut out, "# and ending from ");
        push_str(&mut out, NIGHT_ENDS.0);
        push_str(&mut out, " to ");
        push_str(&mut out, NIGHT_ENDS.1);
        push_str(&mut out, ".\n");
        push_str(&mut out, "[night]\n");
        push_str(&mut out, "starts = \"");
        push_str(&mut out, self.night_starts.as_str());
        push_str(&mut out, "\"\n");
        push_str(&mut out, "ends = \"");
        push_str(&mut out, self.night_ends.as_str());
        push_str(&mut out, "\"\n");
        string_of(&out)
    }

    /// Move the night, if both times are among the choices.
    pub fn set_night(&mut self, starts: &str, ends: &str) -> (r: Result<(), String>)
        ensures
            match night_problem(starts@, ends@) {
                Some(m) => r == Err::<(), String>(r->Err_0) && r->Err_0@ == m && final(self)@ == old(
                    self,
                )@,
                None => r is Ok && final(self)@ == (old(self)@.0, starts@, ends@),
            },
    {
        proof {
            lemma_night_ranges();
        }
        if !among(&night_choices(NIGHT_STARTS), starts) {
            return Err(between_message("starts", NIGHT_STARTS));
        }
        if !among(&night_choices(NIGHT_ENDS), ends) {
            return Err(between_message("ends", NIGHT_ENDS));
        }
        self.night_starts = starts.to_owned();
        self.night_ends = ends.to_owned();
        Ok(())
    }
}

} // verus!
