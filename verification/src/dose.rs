//! The dose engine's clock: moments, days and the night.
//!
//! It only ever learns the time from the moments it is given. A moment is Unix
//! milliseconds plus the local offset from UTC in effect, so the engine can
//! find the day's start without reading the system clock or time zone.

use vstd::prelude::*;

use crate::text::{
    chars_of, debug_str, debug_text, int_value, push_str, small_int, split_once, split_once_in,
    string_of,
};

verus! {

pub const DAY_S: i64 = 86_400;

/// A point in time: Unix milliseconds plus the local UTC offset in effect.
#[derive(Clone, Copy, Debug, PartialEq, Eq, Structural)]
pub struct Moment {
    pub ms: i64,
    pub utc_offset_s: i32,
}

/// Moments this far from 1970 can be moved by a few days without leaving
/// the range of `i64`: about thirty million years either way.
pub open spec fn in_range(at: Moment) -> bool {
    -1_000_000_000_000_000_000 <= at.ms <= 1_000_000_000_000_000_000
}

/// Local seconds since the epoch.
pub open spec fn local_seconds(at: Moment) -> int {
    at.ms as int / 1000 + at.utc_offset_s as int
}

pub fn div_floor(a: i64, b: i64) -> (q: i64)
    requires
        b > 0,
    ensures
        q == a as int / b as int,
{
    proof {
        assert(a as int / b as int <= a as int || a < 0) by (nonlinear_arith)
            requires
                b > 0,
        ;
        assert(a < 0 ==> a as int / b as int >= a as int) by (nonlinear_arith)
            requires
                b > 0,
        ;
        assert(a >= 0 ==> a as int / b as int >= 0) by (nonlinear_arith)
            requires
                b > 0,
        ;
        assert(a < 0 ==> a as int / b as int <= 0) by (nonlinear_arith)
            requires
                b > 0,
        ;
    }
    a.checked_div_euclid(b).unwrap()
}

pub fn rem_floor(a: i64, b: i64) -> (r: i64)
    requires
        b > 0,
    ensures
        r == a as int % b as int,
        0 <= r < b,
{
    a.checked_rem_euclid(b).unwrap()
}

impl Moment {
    pub fn local_s(self) -> (r: i64)
        ensures
            r == local_seconds(self),
    {
        div_floor(self.ms, 1000) + self.utc_offset_s as i64
    }
}

#[derive(Clone, Copy, Debug, PartialEq, Eq, Structural)]
pub enum Phase {
    Rested,
    Engaged,
    Clouded,
    Drained,
}

/// What the dose is doing right now, by the kind of place.
#[derive(Clone, Copy, Debug, PartialEq, Eq, Structural)]
pub enum Mode {
    Away,
    Draining,
    Resting,
    Nourishing,
    Holding,
}

#[derive(Clone, Copy, Debug, PartialEq, Eq, Structural)]
pub enum Trend {
    Rising,
    Falling,
    Steady,
}

/// One line of the hover caption.
#[derive(Clone, Debug, PartialEq)]
pub struct Factor {
    pub what: FactorKind,
    /// 1 to 3, by share of the movement; 0 for clutter, which moves nothing
    /// itself.
    pub bars: u8,
}

#[derive(Clone, Debug, PartialEq)]
pub enum FactorKind {
    /// `heard`: a tab playing sound, not the page on screen.
    Wearing { entry: String, heard: bool },
    Restoring { entry: String, heard: bool },
    OrdinarySites,
    Away,
    /// Untouched tabs slowed the recovery above.
    Clutter { tabs: u32 },
}

/// How long input keeps the user present.
#[derive(Clone, Copy, Debug, PartialEq, Eq, Structural)]
pub struct Presence {
    pub input_seconds: u32,
}

// --- Clock times ----------------------------------------------------------------

/// Seconds after local midnight for "HH:MM": hours and minutes as
/// `str::parse` reads them, within a day.
pub open spec fn clock_seconds(text: Seq<char>) -> Option<int> {
    match split_once(text, ":"@) {
        Some((h, m)) => match (int_value(h), int_value(m)) {
            (Some(h), Some(m)) => if 0 <= h < 24 && 0 <= m < 60 {
                Some(h * 3600 + m * 60)
            } else {
                None
            },
            _ => None,
        },
        None => None,
    }
}

/// The words for a time that isn't "HH:MM": its name, the text as Rust's
/// `Debug` writes a string, and "is not HH:MM".
pub open spec fn bad_clock_message(name: Seq<char>, text: Seq<char>) -> Seq<char> {
    name + " "@ + debug_text(text) + " is not HH:MM"@
}

fn bad_clock(name: &str, text: &str) -> (r: String)
    ensures
        r@ == bad_clock_message(name@, text@),
{
    let mut out = chars_of(name);
    push_str(&mut out, " ");
    push_str(&mut out, debug_str(text).as_str());
    push_str(&mut out, " is not HH:MM");
    string_of(&out)
}

pub fn clock_s(text: &str, name: &str) -> (r: Result<i64, String>)
    ensures
        match r {
            Ok(s) => clock_seconds(text@) == Some(s as int),
            Err(e) => clock_seconds(text@) is None && e@ == bad_clock_message(name@, text@),
        },
{
    let v = chars_of(text);
    match split_once_in(&v, &chars_of(":")) {
        Some((h, m)) => match (small_int(&h, 100), small_int(&m, 100)) {
            (Some(h), Some(m)) => {
                if 0 <= h && h < 24 && 0 <= m && m < 60 {
                    Ok(h * 3600 + m * 60)
                } else {
                    Err(bad_clock(name, text))
                }
            },
            _ => Err(bad_clock(name, text)),
        },
        None => Err(bad_clock(name, text)),
    }
}

/// The times of day the dose follows: when a day starts, and the night
/// window. All three are "HH:MM".
#[derive(Clone, Debug)]
pub struct Times {
    day_starts_at: String,
    night_starts_at: String,
    night_ends_at: String,
}

impl View for Times {
    type V = (Seq<char>, Seq<char>, Seq<char>);

    closed spec fn view(&self) -> (Seq<char>, Seq<char>, Seq<char>) {
        (self.day_starts_at@, self.night_starts_at@, self.night_ends_at@)
    }
}

pub open spec fn secs(t: Seq<char>) -> int {
    clock_seconds(t).unwrap()
}

impl Times {
    pub open spec fn wf(&self) -> bool {
        &&& clock_seconds(self@.0) is Some
        &&& clock_seconds(self@.1) is Some
        &&& clock_seconds(self@.2) is Some
    }

    pub open spec fn day_start_secs(&self) -> int {
        secs(self@.0)
    }

    pub open spec fn night_start_secs(&self) -> int {
        secs(self@.1)
    }

    pub open spec fn night_end_secs(&self) -> int {
        secs(self@.2)
    }

    /// The day's start and the night, each read and checked.
    pub fn new(day_starts_at: &str, night_starts_at: &str, night_ends_at: &str) -> (r: Result<
        Times,
        String,
    >)
        ensures
            match r {
                Ok(t) => t.wf() && t@ == (day_starts_at@, night_starts_at@, night_ends_at@),
                Err(e) => if clock_seconds(day_starts_at@) is None {
                    e@ == bad_clock_message("day.starts_at"@, day_starts_at@)
                } else if clock_seconds(night_starts_at@) is None {
                    e@ == bad_clock_message("night.starts_at"@, night_starts_at@)
                } else {
                    clock_seconds(night_ends_at@) is None && e@ == bad_clock_message(
                        "night.ends_at"@,
                        night_ends_at@,
                    )
                },
            },
    {
        clock_s(day_starts_at, "day.starts_at")?;
        clock_s(night_starts_at, "night.starts_at")?;
        clock_s(night_ends_at, "night.ends_at")?;
        Ok(
            Times {
                day_starts_at: day_starts_at.to_owned(),
                night_starts_at: night_starts_at.to_owned(),
                night_ends_at: night_ends_at.to_owned(),
            },
        )
    }

    pub fn day_starts_at(&self) -> (r: &str)
        ensures
            r@ == self@.0,
    {
        self.day_starts_at.as_str()
    }

    pub fn night_starts_at(&self) -> (r: &str)
        ensures
            r@ == self@.1,
    {
        self.night_starts_at.as_str()
    }

    pub fn night_ends_at(&self) -> (r: &str)
        ensures
            r@ == self@.2,
    {
        self.night_ends_at.as_str()
    }

    /// Move the night window. Both times are "HH:MM" and must differ.
    pub fn set_night(&mut self, starts_at: &str, ends_at: &str) -> (r: Result<(), String>)
        ensures
            match r {
                Ok(()) => clock_seconds(starts_at@) is Some && clock_seconds(ends_at@) is Some
                    && secs(starts_at@) != secs(ends_at@) && final(self)@ == (
                    old(self)@.0,
                    starts_at@,
                    ends_at@,
                ),
                Err(e) => final(self)@ == old(self)@ && if clock_seconds(starts_at@) is None {
                    e@ == bad_clock_message("the night's start"@, starts_at@)
                } else if clock_seconds(ends_at@) is None {
                    e@ == bad_clock_message("the night's end"@, ends_at@)
                } else {
                    secs(starts_at@) == secs(ends_at@)
                        && e@ == "the night can't start and end at the same time"@
                },
            },
            old(self).wf() ==> final(self).wf(),
    {
        let start = clock_s(starts_at, "the night's start")?;
        let end = clock_s(ends_at, "the night's end")?;
        if start == end {
            return Err("the night can't start and end at the same time".to_owned());
        }
        self.night_starts_at = starts_at.to_owned();
        self.night_ends_at = ends_at.to_owned();
        Ok(())
    }

    fn seconds_of(text: &String) -> (r: i64)
        requires
            clock_seconds(text@) is Some,
        ensures
            r == secs(text@),
            0 <= r < DAY_S,
    {
        match clock_s(text.as_str(), "") {
            Ok(s) => {
                proof {
                    lemma_clock_in_day(text@);
                }
                s
            },
            Err(_) => 0,
        }
    }

    fn day_start_s(&self) -> (r: i64)
        requires
            self.wf(),
        ensures
            r == self.day_start_secs(),
            0 <= r < DAY_S,
    {
        Times::seconds_of(&self.day_starts_at)
    }

    /// When a day begins, in minutes after midnight.
    pub fn day_start_minute(&self) -> (r: u32)
        requires
            self.wf(),
        ensures
            r == self.day_start_secs() / 60,
    {
        (self.day_start_s() / 60) as u32
    }

    /// Minutes from the start of `at`'s day (not midnight) to `at`.
    pub fn minute_of_day(&self, at: Moment) -> (r: u32)
        requires
            self.wf(),
        ensures
            r == ((local_seconds(at) - self.day_start_secs()) % DAY_S as int) / 60,
    {
        (rem_floor(at.local_s() - self.day_start_s(), DAY_S) / 60) as u32
    }

    /// The night window as minutes from the start of the day: where it
    /// starts, and where it ends (after the start, and possibly past the
    /// day's end).
    pub fn night_minutes(&self) -> (r: (u32, u32))
        requires
            self.wf(),
        ensures
            ({
                let from = ((self.night_start_secs() - self.day_start_secs()) % DAY_S as int)
                    / 60;
                let until = ((self.night_end_secs() - self.day_start_secs()) % DAY_S as int) / 60;
                r.0 == from && r.1 == if until <= from {
                    until + 1440
                } else {
                    until
                }
            }),
    {
        let start = Times::seconds_of(&self.night_starts_at);
        let end = Times::seconds_of(&self.night_ends_at);
        let day = self.day_start_s();
        let from = rem_floor(start - day, DAY_S) / 60;
        let mut until = rem_floor(end - day, DAY_S) / 60;
        if until <= from {
            until += DAY_S / 60;
        }
        (from as u32, until as u32)
    }

    /// Whether `at` falls in the night window.
    pub fn is_night(&self, at: Moment) -> (r: bool)
        requires
            self.wf(),
        ensures
            r == night_at(self.night_start_secs(), self.night_end_secs(), local_seconds(at)),
    {
        let start = Times::seconds_of(&self.night_starts_at);
        let end = Times::seconds_of(&self.night_ends_at);
        let t = rem_floor(at.local_s(), DAY_S);
        if start <= end {
            start <= t && t < end
        } else {
            t >= start || t < end
        }
    }

    /// The next moment the night starts or ends, after `at`.
    pub fn next_night_change(&self, at: Moment) -> (r: Moment)
        requires
            self.wf(),
            in_range(at),
        ensures
            r.utc_offset_s == at.utc_offset_s,
            r.ms == (next_change_local(
                self.night_start_secs(),
                self.night_end_secs(),
                local_seconds(at),
            ) - at.utc_offset_s) * 1000,
    {
        let start = Times::seconds_of(&self.night_starts_at);
        let end = Times::seconds_of(&self.night_ends_at);
        let local = at.local_s();
        let midnight = local - rem_floor(local, DAY_S);
        let mut next = midnight + 2 * DAY_S;
        let candidates = [midnight + start, midnight + start + DAY_S, midnight + end, midnight + end
            + DAY_S];
        let mut i: usize = 0;
        while i < 4
            invariant
                0 <= i <= 4,
                candidates@ == seq![
                    (midnight + start) as i64,
                    (midnight + start + DAY_S) as i64,
                    (midnight + end) as i64,
                    (midnight + end + DAY_S) as i64,
                ],
                midnight == local - local as int % DAY_S as int,
                local == local_seconds(at),
                start == secs(self@.1),
                end == secs(self@.2),
                0 <= start < DAY_S,
                0 <= end < DAY_S,
                next == earliest_after(candidates@.take(i as int), local as int, midnight + 2
                    * DAY_S),
                midnight <= next <= midnight + 2 * DAY_S,
            decreases 4 - i,
        {
            assert(candidates@.take(i + 1).drop_last() == candidates@.take(i as int));
            let t = candidates[i];
            if t > local && t < next {
                next = t;
            }
            i += 1;
        }
        assert(candidates@.take(4) == candidates@);
        Moment { ms: (next - at.utc_offset_s as i64) * 1000, utc_offset_s: at.utc_offset_s }
    }
}

pub proof fn lemma_clock_in_day(t: Seq<char>)
    requires
        clock_seconds(t) is Some,
    ensures
        0 <= secs(t) < DAY_S,
{
}

/// Whether local time `local` (seconds) falls in the night from `start` to
/// `end` (seconds after midnight), which may cross midnight.
pub open spec fn night_at(start: int, end: int, local: int) -> bool {
    let t = local % DAY_S as int;
    if start <= end {
        start <= t < end
    } else {
        t >= start || t < end
    }
}

/// The earliest of `ts` later than `after`, or `none` if none is earlier
/// than it.
pub open spec fn earliest_after(ts: Seq<i64>, after: int, none: int) -> int
    decreases ts.len(),
{
    if ts.len() == 0 {
        none
    } else {
        let rest = earliest_after(ts.drop_last(), after, none);
        if ts.last() > after && ts.last() < rest {
            ts.last() as int
        } else {
            rest
        }
    }
}

/// The next local second, after `local`, at which the night starts or ends:
/// the earliest of today's and tomorrow's starts and ends that is later.
pub open spec fn next_change_local(start: int, end: int, local: int) -> int {
    let midnight = local - local % DAY_S as int;
    earliest_after(
        seq![
            (midnight + start) as i64,
            (midnight + start + DAY_S) as i64,
            (midnight + end) as i64,
            (midnight + end + DAY_S) as i64,
        ],
        local,
        midnight + 2 * DAY_S,
    )
}

/// Days are numbered from the local day start, not midnight.
pub open spec fn day_number(times: Times, at: Moment) -> int {
    (local_seconds(at) - times.day_start_secs()) / DAY_S as int
}

pub fn day_of(times: &Times, at: Moment) -> (r: i64)
    requires
        times.wf(),
    ensures
        r == day_number(*times, at),
{
    div_floor(at.local_s() - times.day_start_s(), DAY_S)
}

/// When the day after `at`'s begins.
pub fn next_day_start(times: &Times, at: Moment) -> (r: Moment)
    requires
        times.wf(),
        in_range(at),
    ensures
        r.utc_offset_s == at.utc_offset_s,
        r.ms == ((day_number(*times, at) + 1) * DAY_S + times.day_start_secs()
            - at.utc_offset_s) * 1000,
{
    let day = day_of(times, at);
    proof {
        assert(day_number(*times, at) <= local_seconds(at) / 86400 + 1) by (nonlinear_arith)
            requires
                day_number(*times, at) == (local_seconds(at) - times.day_start_secs()) / 86400,
                0 <= times.day_start_secs() < 86400,
        ;
        assert(day_number(*times, at) >= local_seconds(at) / 86400 - 1) by (nonlinear_arith)
            requires
                day_number(*times, at) == (local_seconds(at) - times.day_start_secs()) / 86400,
                0 <= times.day_start_secs() < 86400,
        ;
    }
    let boundary = (day + 1) * DAY_S + times.day_start_s();
    Moment { ms: (boundary - at.utc_offset_s as i64) * 1000, utc_offset_s: at.utc_offset_s }
}


/// The night holds until its next change and turns there: from local second
/// `local` until `next_change_local`, it is night throughout or day
/// throughout, and at that second, if the night is any length at all, it
/// has turned.
pub proof fn night_holds_until_it_changes(start: int, end: int, local: int)
    requires
        0 <= start < DAY_S,
        0 <= end < DAY_S,
        -1_000_000_000_000_000 <= local <= 1_000_000_000_000_000,
    ensures
        next_change_local(start, end, local) > local,
        forall|t: int|
            local <= t < next_change_local(start, end, local) ==> night_at(start, end, t)
                == night_at(start, end, local),
        start != end ==> night_at(start, end, next_change_local(start, end, local)) != night_at(
            start,
            end,
            local,
        ),
{
    let d = DAY_S as int;
    let q = local / d;
    let r = local % d;
    let m = local - r;
    assert(local == q * d + r && 0 <= r < d) by {
        vstd::arithmetic::div_mod::lemma_fundamental_div_mod(local, d);
    }
    assert(m == q * d);
    let n = next_change_local(start, end, local);
    // Within today and tomorrow, the time of day is the offset from midnight.
    assert forall|x: int| 0 <= x < d implies #[trigger] ((m + x) % d) == x by {
        vstd::arithmetic::div_mod::lemma_fundamental_div_mod_converse(m + x, d, q, x);
    }
    assert forall|x: int| 0 <= x < d implies #[trigger] ((m + d + x) % d) == x by {
        vstd::arithmetic::div_mod::lemma_fundamental_div_mod_converse(m + d + x, d, q + 1, x);
    }
    let ts = seq![
        (m + start) as i64,
        (m + start + d) as i64,
        (m + end) as i64,
        (m + end + d) as i64,
    ];
    assert(ts.drop_last().drop_last().drop_last().drop_last() =~= Seq::<i64>::empty());
    assert(ts.drop_last().drop_last().drop_last() =~= seq![(m + start) as i64]);
    assert(ts.drop_last().drop_last() =~= seq![(m + start) as i64, (m + start + d) as i64]);
    assert(ts.drop_last() =~= seq![
        (m + start) as i64,
        (m + start + d) as i64,
        (m + end) as i64,
    ]);
    assert(n == earliest_after(ts, local, m + 2 * d));
    assert(ts[0] == m + start && ts[1] == m + start + d && ts[2] == m + end && ts[3] == m + end + d);
    reveal_with_fuel(earliest_after, 5);
    // The next change is the first start or end after now.
    if r < start {
        if r < end && end < start {
            assert(n == m + end);
        } else {
            assert(n == m + start);
        }
    } else if r < end {
        assert(n == m + end);
    } else {
        if end < start {
            assert(n == m + end + d);
        } else {
            assert(n == m + start + d);
        }
    }
    assert forall|t: int| local <= t < n implies night_at(start, end, t) == night_at(
        start,
        end,
        local,
    ) by {
        if t < m + d {
            assert(t % d == t - m) by {
                assert((m + (t - m)) % d == t - m);
            }
        } else {
            assert(t % d == t - m - d) by {
                assert((m + d + (t - m - d)) % d == t - m - d);
            }
        }
    }
    if n < m + d {
        assert(n % d == n - m) by {
            assert((m + (n - m)) % d == n - m);
        }
    } else {
        assert(n % d == n - m - d) by {
            assert((m + d + (n - m - d)) % d == n - m - d);
        }
    }
}

/// The next day starts after `at`, and is the day after `at`'s.
pub proof fn the_next_day_starts_next(times: Times, at: Moment)
    requires
        times.wf(),
        in_range(at),
    ensures
        ({
            let next = ((day_number(times, at) + 1) * DAY_S + times.day_start_secs()
                - at.utc_offset_s) * 1000;
            &&& next > at.ms
            &&& day_number(times, Moment { ms: next as i64, utc_offset_s: at.utc_offset_s })
                == day_number(times, at) + 1
        }),
{
    let d = DAY_S as int;
    let ds = times.day_start_secs();
    lemma_clock_in_day(times@.0);
    let x = local_seconds(at) - ds;
    let k = day_number(times, at);
    assert(x == k * d + x % d && 0 <= x % d < d) by {
        vstd::arithmetic::div_mod::lemma_fundamental_div_mod(x, d);
    }
    let next = ((k + 1) * d + ds - at.utc_offset_s) * 1000;
    assert(at.ms as int / 1000 * 1000 <= at.ms < at.ms as int / 1000 * 1000 + 1000) by {
        vstd::arithmetic::div_mod::lemma_fundamental_div_mod(at.ms as int, 1000);
    }
    assert(next > at.ms);
    assert(next / 1000 == (k + 1) * d + ds - at.utc_offset_s) by {
        vstd::arithmetic::div_mod::lemma_fundamental_div_mod_converse(
            next,
            1000,
            (k + 1) * d + ds - at.utc_offset_s,
            0,
        );
    }
    assert(((k + 1) * d) / d == k + 1) by {
        vstd::arithmetic::div_mod::lemma_fundamental_div_mod_converse((k + 1) * d, d, k + 1, 0);
    }
}

/// How long the night lasts: from its start forward to its end, past
/// midnight if need be.
pub open spec fn night_length(start: int, end: int) -> int {
    if start <= end {
        end - start
    } else {
        end + DAY_S - start
    }
}

/// The night runs from its start for its length and no longer: counting
/// seconds from the moment the night starts, on any day, the first
/// `night_length` of them are night and the rest of the day is not. A
/// window of no length is never night.
pub proof fn the_night_runs_from_its_start_to_its_end(start: int, end: int, day: int, k: int)
    requires
        0 <= start < DAY_S,
        0 <= end < DAY_S,
        0 <= k < DAY_S,
    ensures
        night_at(start, end, day * DAY_S + start + k) == (k < night_length(start, end)),
{
    let d = DAY_S as int;
    let x = start + k;
    assert(day * d == d * day) by (nonlinear_arith);
    vstd::arithmetic::div_mod::lemma_mod_multiples_vanish(day, x, d);
    if x < d {
        vstd::arithmetic::div_mod::lemma_small_mod(x as nat, d as nat);
    } else {
        vstd::arithmetic::div_mod::lemma_mod_multiples_vanish(1, x - d, d);
        vstd::arithmetic::div_mod::lemma_small_mod((x - d) as nat, d as nat);
    }
}

} // verus!
