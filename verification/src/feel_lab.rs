//! The feel lab: a scripted day played fast, to judge how the wisp moves
//! without living through a day of browsing. The script is read here, and
//! which of its lines are due by a moment of the lab's day; the lab's clock,
//! which runs at a speed, and the weights, which are numbers with fractions,
//! are the shell's.

use vstd::prelude::*;

use crate::dose::{clock_seconds, in_range, rem_floor, Moment};
use crate::text::{
    chars_of, debug_str, debug_text, decimal, decimal_of, lines, lines_of, push_all, push_str,
    same, small_int, split_once_in, starts, starts_with, string_of, trim, trimmed, views,
    white_split, white_words_of,
};

verus! {

/// Minutes after midnight for "HH:MM", within a day.
pub fn minute_of(hhmm: &str) -> (r: Option<i64>)
    ensures
        match clock_seconds(hhmm@) {
            Some(s) => r == Some((s / 60) as i64),
            None => r is None,
        },
{
    let v = chars_of(hhmm);
    match split_once_in(&v, &chars_of(":")) {
        Some((h, m)) => match (small_int(&h, 100), small_int(&m, 100)) {
            (Some(h), Some(m)) => {
                if 0 <= h && h < 24 && 0 <= m && m < 60 {
                    Some(h * 60 + m)
                } else {
                    None
                }
            },
            _ => None,
        },
        None => None,
    }
}

/// Local midnight of the day `now` falls on, in Unix milliseconds.
pub open spec fn midnight_spec(now: Moment) -> int {
    let local = now.ms + now.utc_offset_s * 1000;
    local - local % 86_400_000 - now.utc_offset_s * 1000
}

/// Local midnight of the day `now` falls on, in Unix milliseconds: where
/// the lab's day is laid out from.
pub fn midnight_ms(now: Moment) -> (r: i64)
    requires
        in_range(now),
    ensures
        r == midnight_spec(now),
{
    let offset_ms = now.utc_offset_s as i64 * 1000;
    let local = now.ms + offset_ms;
    local - rem_floor(local, 86_400_000) - offset_ms
}

// --- The script ----------------------------------------------------------------

/// A line of the script that says something, as words: its number (from 1)
/// and its text as written.
#[derive(Clone, Debug)]
pub struct ScriptWords {
    pub number: usize,
    pub raw: String,
    pub words: Vec<String>,
}

pub open spec fn texts(v: Seq<String>) -> Seq<Seq<char>> {
    v.map_values(|w: String| w@)
}

/// The lines that say something, trimmed and split at white space: every
/// line but blank ones and comments.
pub open spec fn script_words_spec(ls: Seq<Seq<char>>) -> Seq<(int, Seq<char>, Seq<Seq<char>>)>
    decreases ls.len(),
{
    if ls.len() == 0 {
        seq![]
    } else {
        let before = script_words_spec(ls.drop_last());
        let t = trim(ls.last());
        if t.len() == 0 || starts_with(t, "#"@) {
            before
        } else {
            before.push((ls.len() as int, ls.last(), white_split(t)))
        }
    }
}

pub open spec fn words_view(w: ScriptWords) -> (int, Seq<char>, Seq<Seq<char>>) {
    (w.number as int, w.raw@, texts(w.words@))
}

fn strings_of(v: Vec<Vec<char>>) -> (r: Vec<String>)
    ensures
        texts(r@) == views(v@),
{
    let mut out: Vec<String> = Vec::new();
    let mut i: usize = 0;
    while i < v.len()
        invariant
            0 <= i <= v@.len(),
            out@.len() == i,
            forall|j: int| 0 <= j < i ==> (#[trigger] out@[j])@ == v@[j]@,
        decreases v.len() - i,
    {
        out.push(string_of(&v[i]));
        i += 1;
    }
    assert(texts(out@) == views(v@));
    out
}

/// The script's lines that say something, as words.
pub fn script_words(script: &str) -> (r: Vec<ScriptWords>)
    ensures
        r@.map_values(|w: ScriptWords| words_view(w)) == script_words_spec(lines(script@)),
{
    let ls = lines_of(&chars_of(script));
    let hash = chars_of("#");
    let mut out: Vec<ScriptWords> = Vec::new();
    let mut i: usize = 0;
    while i < ls.len()
        invariant
            0 <= i <= ls@.len(),
            views(ls@) == lines(script@),
            hash@ == "#"@,
            out@.map_values(|w: ScriptWords| words_view(w)) == script_words_spec(views(ls@).take(i as int)),
        decreases ls.len() - i,
    {
        let ghost before = out@;
        assert(views(ls@).take(i + 1).drop_last() == views(ls@).take(i as int));
        assert(views(ls@).take(i + 1).last() == ls@[i as int]@);
        let t = trimmed(&ls[i]);
        if t.len() == 0 || starts(&t, &hash) {
        } else {
            let line = ScriptWords {
                number: i + 1,
                raw: string_of(&ls[i]),
                words: strings_of(white_words_of(&t)),
            };
            out.push(line);
            assert(out@.map_values(|w: ScriptWords| words_view(w)) == before.map_values(
                |w: ScriptWords| words_view(w),
            ).push(words_view(line)));
        }
        i += 1;
    }
    assert(views(ls@).take(ls@.len() as int) == views(ls@));
    out
}

/// What a line of the script has the user doing.
#[derive(Clone, Copy, Debug, PartialEq, Eq, Structural)]
pub enum What {
    Draining,
    News,
    Nourishing,
    Ordinary,
    Unlisted,
    Private,
    Away,
    End,
}

/// A line of the script read: from what minute of the day, what the user
/// is doing, the weight as the script writes it (empty where there is
/// none), and the list entry (empty where there is none).
#[derive(Clone, Debug)]
pub struct ScriptLine {
    pub minute: i64,
    pub what: What,
    pub weight: String,
    pub entry: String,
}

pub open spec fn line_view(l: ScriptLine) -> (int, What, Seq<char>, Seq<char>) {
    (l.minute as int, l.what, l.weight@, l.entry@)
}

/// What the words after the time say, or why they say nothing. `numbers`
/// says of each word whether it reads as a number.
pub open spec fn what_of(words: Seq<Seq<char>>, numbers: Seq<bool>) -> Result<(What, Seq<char>, Seq<char>), Seq<char>> {
    let rest = words.skip(1);
    let e = Seq::<char>::empty();
    if rest.len() == 3 && (rest[0] == "draining"@ || rest[0] == "nourishing"@) {
        if numbers[2] {
            Ok((if rest[0] == "draining"@ { What::Draining } else { What::Nourishing }, rest[1], rest[2]))
        } else {
            Err("weight is not a number"@)
        }
    } else if rest.len() == 2 && rest[0] == "news"@ {
        Ok((What::News, e, rest[1]))
    } else if rest.len() == 2 && rest[0] == "ordinary"@ {
        Ok((What::Ordinary, e, rest[1]))
    } else if rest.len() == 1 && rest[0] == "unlisted"@ {
        Ok((What::Unlisted, e, e))
    } else if rest.len() == 1 && rest[0] == "private"@ {
        Ok((What::Private, e, e))
    } else if rest.len() == 1 && rest[0] == "away"@ {
        Ok((What::Away, e, e))
    } else if rest.len() == 1 && rest[0] == "end"@ {
        Ok((What::End, e, e))
    } else {
        Err("unknown activity"@)
    }
}

/// What a mistake on line `n` says.
pub open spec fn bad_line(n: int, why: Seq<char>, raw: Seq<char>) -> Seq<char> {
    "feel lab line "@ + decimal(n as nat) + ": "@ + why + ": "@ + debug_text(raw)
}

/// The script read line by line, stopping at the first mistake: a line
/// must start with a time, say something known, and not go back in time.
pub open spec fn parse_spec(
    sw: Seq<(int, Seq<char>, Seq<Seq<char>>)>,
    numbers: Seq<Seq<bool>>,
) -> Result<Seq<(int, What, Seq<char>, Seq<char>)>, Seq<char>>
    decreases sw.len(),
{
    if sw.len() == 0 {
        Ok(seq![])
    } else {
        match parse_spec(sw.drop_last(), numbers) {
            Err(e) => Err(e),
            Ok(done) => {
                let (n, raw, words) = sw.last();
                if words.len() == 0 || clock_seconds(words[0]) is None {
                    Err(bad_line(n, "no HH:MM"@, raw))
                } else {
                    let minute = clock_seconds(words[0]).unwrap() / 60;
                    match what_of(words, numbers[sw.len() - 1]) {
                        Err(why) => Err(bad_line(n, why, raw)),
                        Ok((what, weight, entry)) => if done.len() > 0 && done.last().0 > minute {
                            Err(bad_line(n, "lines must be in time order"@, raw))
                        } else {
                            Ok(done.push((minute, what, weight, entry)))
                        },
                    }
                }
            },
        }
    }
}

fn is(word: &String, lit: &str) -> (r: bool)
    ensures
        r == (word@ == lit@),
{
    same(&chars_of(word.as_str()), &chars_of(lit))
}

fn bad(n: usize, why: &str, raw: &String) -> (r: String)
    ensures
        r@ == bad_line(n as int, why@, raw@),
{
    let mut out: Vec<char> = Vec::new();
    push_str(&mut out, "feel lab line ");
    let digits = decimal_of(n as u64);
    push_all(&mut out, &digits);
    push_str(&mut out, ": ");
    push_str(&mut out, why);
    push_str(&mut out, ": ");
    let shown = debug_str(raw.as_str());
    push_str(&mut out, shown.as_str());
    string_of(&out)
}

fn what_in(words: &Vec<String>, numbers: &Vec<bool>) -> (r: Result<(What, String, String), String>)
    requires
        numbers@.len() == words@.len(),
        words@.len() >= 1,
    ensures
        match (r, what_of(texts(words@), numbers@)) {
            (Ok((w, a, b)), Ok((v, c, d))) => w == v && a@ == c && b@ == d,
            (Err(e), Err(f)) => e@ == f,
            _ => false,
        },
{
    let ghost rest = texts(words@).skip(1);
    let n = words.len();
    assert(rest.len() == n - 1);
    assert forall|i: int| 0 <= i < n - 1 implies #[trigger] rest[i] == words@[i + 1]@ by {}
    if n == 4 && (is(&words[1], "draining") || is(&words[1], "nourishing")) {
        if numbers[2] {
            let what = if is(&words[1], "draining") {
                What::Draining
            } else {
                What::Nourishing
            };
            return Ok((what, words[2].clone(), words[3].clone()));
        } else {
            return Err("weight is not a number".to_owned());
        }
    }
    if n == 3 && is(&words[1], "news") {
        return Ok((What::News, String::new(), words[2].clone()));
    }
    if n == 3 && is(&words[1], "ordinary") {
        return Ok((What::Ordinary, String::new(), words[2].clone()));
    }
    if n == 2 {
        if is(&words[1], "unlisted") {
            return Ok((What::Unlisted, String::new(), String::new()));
        }
        if is(&words[1], "private") {
            return Ok((What::Private, String::new(), String::new()));
        }
        if is(&words[1], "away") {
            return Ok((What::Away, String::new(), String::new()));
        }
        if is(&words[1], "end") {
            return Ok((What::End, String::new(), String::new()));
        }
    }
    Err("unknown activity".to_owned())
}

/// Once a line is wrong, reading on changes nothing.
proof fn lemma_parse_stops(
    sw: Seq<(int, Seq<char>, Seq<Seq<char>>)>,
    numbers: Seq<Seq<bool>>,
    k: int,
    m: int,
)
    requires
        0 <= k <= m <= sw.len(),
        parse_spec(sw.take(k), numbers) is Err,
    ensures
        parse_spec(sw.take(m), numbers) == parse_spec(sw.take(k), numbers),
    decreases m - k,
{
    if m > k {
        lemma_parse_stops(sw, numbers, k, m - 1);
        assert(sw.take(m).drop_last() == sw.take(m - 1));
    }
}

pub open spec fn script_view(sw: Seq<ScriptWords>) -> Seq<(int, Seq<char>, Seq<Seq<char>>)> {
    sw.map_values(|w: ScriptWords| words_view(w))
}

pub open spec fn numbers_view(numbers: Seq<Vec<bool>>) -> Seq<Seq<bool>> {
    numbers.map_values(|v: Vec<bool>| v@)
}

pub open spec fn lines_view(ls: Seq<ScriptLine>) -> Seq<(int, What, Seq<char>, Seq<char>)> {
    ls.map_values(|l: ScriptLine| line_view(l))
}

/// The script read from its words, given whether each word reads as a
/// number: its lines in order, or what is wrong with the first line that
/// is wrong.
pub fn parse_script(sw: &Vec<ScriptWords>, numbers: &Vec<Vec<bool>>) -> (r: Result<Vec<ScriptLine>, String>)
    requires
        numbers@.len() == sw@.len(),
        forall|i: int| 0 <= i < sw@.len() ==> (#[trigger] numbers@[i])@.len() == sw@[i].words@.len(),
    ensures
        match (r, parse_spec(script_view(sw@), numbers_view(numbers@))) {
            (Ok(ls), Ok(ps)) => lines_view(ls@) == ps,
            (Err(e), Err(f)) => e@ == f,
            _ => false,
        },
{
    let ghost all = script_view(sw@);
    let ghost nv = numbers_view(numbers@);
    let mut out: Vec<ScriptLine> = Vec::new();
    let mut i: usize = 0;
    assert(all.take(0) == Seq::<(int, Seq<char>, Seq<Seq<char>>)>::empty());
    assert(lines_view(out@) == Seq::<(int, What, Seq<char>, Seq<char>)>::empty());
    while i < sw.len()
        invariant
            numbers@.len() == sw@.len(),
            forall|i: int| 0 <= i < sw@.len() ==> (#[trigger] numbers@[i])@.len() == sw@[i].words@.len(),
            all == script_view(sw@),
            nv == numbers_view(numbers@),
            0 <= i <= sw@.len(),
            parse_spec(all.take(i as int), nv) == Ok::<Seq<(int, What, Seq<char>, Seq<char>)>, Seq<char>>(lines_view(out@)),
        decreases sw.len() - i,
    {
        let ghost prefix = all.take(i + 1);
        assert(prefix.drop_last() == all.take(i as int));
        assert(prefix.last() == words_view(sw@[i as int]));
        assert(nv[i as int] == numbers@[i as int]@);
        let w = &sw[i];
        if w.words.len() == 0 {
            let e = bad(w.number, "no HH:MM", &w.raw);
            proof {
                lemma_parse_stops(all, nv, i + 1, all.len() as int);
                assert(all.take(all.len() as int) == all);
            }
            return Err(e);
        }
        assert(texts(w.words@)[0] == w.words@[0]@);
        let minute = match minute_of(w.words[0].as_str()) {
            Some(m) => m,
            None => {
                let e = bad(w.number, "no HH:MM", &w.raw);
                proof {
                    lemma_parse_stops(all, nv, i + 1, all.len() as int);
                    assert(all.take(all.len() as int) == all);
                }
                return Err(e);
            },
        };
        match what_in(&w.words, &numbers[i]) {
            Err(why) => {
                let e = bad(w.number, why.as_str(), &w.raw);
                proof {
                    lemma_parse_stops(all, nv, i + 1, all.len() as int);
                    assert(all.take(all.len() as int) == all);
                }
                return Err(e);
            },
            Ok((what, weight, entry)) => {
                let n = out.len();
                if n > 0 && out[n - 1].minute > minute {
                    let e = bad(w.number, "lines must be in time order", &w.raw);
                    proof {
                        lemma_parse_stops(all, nv, i + 1, all.len() as int);
                        assert(all.take(all.len() as int) == all);
                    }
                    return Err(e);
                }
                let ghost before = out@;
                let line = ScriptLine { minute, what, weight, entry };
                out.push(line);
                assert(lines_view(out@) == lines_view(before).push(line_view(line)));
            },
        }
        i += 1;
    }
    assert(all.take(all.len() as int) == all);
    Ok(out)
}

// --- Playing it ------------------------------------------------------------------

/// A scripted change that is due: when, until when its presence lasts (the
/// next line, or a day on for the last), and which line it is.
#[derive(Clone, Copy, Debug, PartialEq, Eq, Structural)]
pub struct Due {
    pub at: Moment,
    pub until: Moment,
    pub line: usize,
}

/// A minute of the lab's day as a moment.
pub open spec fn at_minute(midnight: int, offset: i32, minute: int) -> Moment {
    Moment { ms: (midnight + minute * 60_000) as i64, utc_offset_s: offset }
}

/// The first line from `from` on that is still to come at `now_ms`, or the
/// number of lines when none is.
pub open spec fn first_ahead(minutes: Seq<i64>, midnight: int, from: int, now_ms: int) -> int
    decreases minutes.len() - from,
{
    if from >= minutes.len() {
        minutes.len() as int
    } else if midnight + minutes[from] * 60_000 > now_ms {
        from
    } else {
        first_ahead(minutes, midnight, from + 1, now_ms)
    }
}

pub open spec fn due_at(minutes: Seq<i64>, midnight: int, offset: i32, k: int) -> Due {
    let at = at_minute(midnight, offset, minutes[k] as int);
    Due {
        at,
        until: if k + 1 < minutes.len() {
            at_minute(midnight, offset, minutes[k + 1] as int)
        } else {
            Moment { ms: (at.ms + 86_400_000) as i64, utc_offset_s: offset }
        },
        line: k as usize,
    }
}

/// The lines due by `lab_now`, from line `applied` on, laid out on the day
/// that starts at `midnight_ms`: each with when its presence ends. Also the
/// first line still to come.
pub fn due(minutes: &Vec<i64>, applied: usize, midnight_ms: i64, offset: i32, lab_now: Moment) -> (r: (Vec<Due>, usize))
    requires
        applied <= minutes@.len(),
        -1_000_000_000_000_000_000 <= midnight_ms <= 1_000_000_000_000_000_000,
        forall|i: int| 0 <= i < minutes@.len() ==> 0 <= #[trigger] minutes@[i] < 1440,
    ensures
        r.1 == first_ahead(minutes@, midnight_ms as int, applied as int, lab_now.ms as int),
        r.0@.len() == r.1 - applied,
        forall|j: int| 0 <= j < r.0@.len() ==> #[trigger] r.0@[j] == due_at(minutes@, midnight_ms as int, offset, applied + j),
{
    let mut out: Vec<Due> = Vec::new();
    let mut k: usize = applied;
    while k < minutes.len() && midnight_ms + minutes[k] * 60_000 <= lab_now.ms
        invariant
            applied <= k <= minutes@.len(),
            -1_000_000_000_000_000_000 <= midnight_ms <= 1_000_000_000_000_000_000,
            forall|i: int| 0 <= i < minutes@.len() ==> 0 <= #[trigger] minutes@[i] < 1440,
            first_ahead(minutes@, midnight_ms as int, applied as int, lab_now.ms as int) == first_ahead(
                minutes@,
                midnight_ms as int,
                k as int,
                lab_now.ms as int,
            ),
            out@.len() == k - applied,
            forall|j: int| 0 <= j < out@.len() ==> #[trigger] out@[j] == due_at(minutes@, midnight_ms as int, offset, applied + j),
        decreases minutes.len() - k,
    {
        let at = Moment { ms: midnight_ms + minutes[k] * 60_000, utc_offset_s: offset };
        let until = if k + 1 < minutes.len() {
            Moment { ms: midnight_ms + minutes[k + 1] * 60_000, utc_offset_s: offset }
        } else {
            Moment { ms: at.ms + 86_400_000, utc_offset_s: offset }
        };
        out.push(Due { at, until, line: k });
        k += 1;
    }
    (out, k)
}

} // verus!
