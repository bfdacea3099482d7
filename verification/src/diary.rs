//! The wisp's history on Home: today's line, the last seven days, the weeks
//! before them, and the list entries that moved it this week, counted from
//! the recorded minutes, with the calendar it is labelled by.

use vstd::prelude::*;

use crate::dose::{
    day_number, day_of, div_floor, local_seconds, rem_floor, Mode, Moment, Phase, Times,
    DAY_S,
};
use crate::home::Plant;
use crate::protocol::{DiarySite, PlantKind, TimeKind, WispPhase};
use crate::store::GardenDay;
use crate::text::{chars_of, decimal, decimal_of, push_str, same, string_of};

verus! {

/// Weeks shown before the last seven days.
pub const WEEKS_BEFORE: i64 = 4;

/// How many days of history the diary looks at, counting today.
pub const DAYS: i64 = 35;

/// Time away isn't counted. A tab only heard while away counts where it
/// moved the dose, as the engine's mode says.
pub open spec fn kind_spec(mode: Mode) -> Option<TimeKind> {
    match mode {
        Mode::Away => None,
        Mode::Draining => Some(TimeKind::Wearing),
        Mode::Nourishing => Some(TimeKind::Restoring),
        Mode::Resting | Mode::Holding => Some(TimeKind::Everyday),
    }
}

pub fn kind(mode: Mode) -> (r: Option<TimeKind>)
    ensures
        r == kind_spec(mode),
{
    match mode {
        Mode::Away => None,
        Mode::Draining => Some(TimeKind::Wearing),
        Mode::Nourishing => Some(TimeKind::Restoring),
        Mode::Resting | Mode::Holding => Some(TimeKind::Everyday),
    }
}

pub open spec fn plant_kind_spec(plant: Plant) -> PlantKind {
    match plant {
        Plant::Moss => PlantKind::Moss,
        Plant::Fern => PlantKind::Fern,
        Plant::Flower => PlantKind::Flower,
    }
}

pub fn plant_kind(plant: Plant) -> (r: PlantKind)
    ensures
        r == plant_kind_spec(plant),
{
    match plant {
        Plant::Moss => PlantKind::Moss,
        Plant::Fern => PlantKind::Fern,
        Plant::Flower => PlantKind::Flower,
    }
}

pub open spec fn wisp_phase_spec(phase: Phase) -> WispPhase {
    match phase {
        Phase::Rested => WispPhase::Rested,
        Phase::Engaged => WispPhase::Engaged,
        Phase::Clouded => WispPhase::Clouded,
        Phase::Drained => WispPhase::Drained,
    }
}

pub fn wisp_phase(phase: Phase) -> (r: WispPhase)
    ensures
        r == wisp_phase_spec(phase),
{
    match phase {
        Phase::Rested => WispPhase::Rested,
        Phase::Engaged => WispPhase::Engaged,
        Phase::Clouded => WispPhase::Clouded,
        Phase::Drained => WispPhase::Drained,
    }
}

/// Day numbers count local days from 1 January 1970, a Thursday.
pub open spec fn weekday_name(i: int) -> Seq<char> {
    if i == 0 {
        "Thu"@
    } else if i == 1 {
        "Fri"@
    } else if i == 2 {
        "Sat"@
    } else if i == 3 {
        "Sun"@
    } else if i == 4 {
        "Mon"@
    } else if i == 5 {
        "Tue"@
    } else {
        "Wed"@
    }
}

pub fn weekday(day: i64) -> (r: &'static str)
    ensures
        r@ == weekday_name(day as int % 7),
{
    let i = rem_floor(day, 7);
    if i == 0 {
        "Thu"
    } else if i == 1 {
        "Fri"
    } else if i == 2 {
        "Sat"
    } else if i == 3 {
        "Sun"
    } else if i == 4 {
        "Mon"
    } else if i == 5 {
        "Tue"
    } else {
        "Wed"
    }
}

pub open spec fn month_name(m: int) -> Seq<char> {
    if m == 1 {
        "Jan"@
    } else if m == 2 {
        "Feb"@
    } else if m == 3 {
        "Mar"@
    } else if m == 4 {
        "Apr"@
    } else if m == 5 {
        "May"@
    } else if m == 6 {
        "Jun"@
    } else if m == 7 {
        "Jul"@
    } else if m == 8 {
        "Aug"@
    } else if m == 9 {
        "Sep"@
    } else if m == 10 {
        "Oct"@
    } else if m == 11 {
        "Nov"@
    } else {
        "Dec"@
    }
}

fn month_str(m: u32) -> (r: &'static str)
    ensures
        r@ == month_name(m as int),
{
    if m == 1 {
        "Jan"
    } else if m == 2 {
        "Feb"
    } else if m == 3 {
        "Mar"
    } else if m == 4 {
        "Apr"
    } else if m == 5 {
        "May"
    } else if m == 6 {
        "Jun"
    } else if m == 7 {
        "Jul"
    } else if m == 8 {
        "Aug"
    } else if m == 9 {
        "Sep"
    } else if m == 10 {
        "Oct"
    } else if m == 11 {
        "Nov"
    } else {
        "Dec"
    }
}

/// Howard Hinnant's `civil_from_days`: year, month and day of a count of
/// days since 1970-01-01.
pub open spec fn civil_spec(days: int) -> (int, int, int) {
    let z = days + 719_468;
    let era = z / 146_097;
    let doe = z % 146_097;
    let yoe = (doe - doe / 1460 + doe / 36_524 - doe / 146_096) / 365;
    let doy = doe - (365 * yoe + yoe / 4 - yoe / 100);
    let mp = (5 * doy + 2) / 153;
    let d = doy - (153 * mp + 2) / 5 + 1;
    let m = if mp < 10 {
        mp + 3
    } else {
        mp - 9
    };
    let y = yoe + era * 400 + if m <= 2 {
        1int
    } else {
        0
    };
    (y, m, d)
}

/// Days before and after 1970 that a year of `i64` can hold.
pub open spec fn civil_range(days: int) -> bool {
    -1_000_000_000_000 <= days <= 1_000_000_000_000
}

/// The steps of the calendar stay within their ranges: a day of the era
/// below 146097, a year of the era below 400, a day of the year below 366
/// and a month index below 12.
proof fn lemma_civil_bounds(doe: int)
    requires
        0 <= doe < 146_097,
    ensures
        0 <= (doe - doe / 1460 + doe / 36_524 - doe / 146_096) / 365 < 400,
        ({
            let yoe = (doe - doe / 1460 + doe / 36_524 - doe / 146_096) / 365;
            let doy = doe - (365 * yoe + yoe / 4 - yoe / 100);
            0 <= doy < 366
        }),
{
    assert(0 <= (doe - doe / 1460 + doe / 36_524 - doe / 146_096) / 365 < 400) by (nonlinear_arith)
        requires
            0 <= doe < 146_097,
    ;
    let yoe = (doe - doe / 1460 + doe / 36_524 - doe / 146_096) / 365;
    assert(0 <= doe - (365 * yoe + yoe / 4 - yoe / 100) < 366) by (nonlinear_arith)
        requires
            0 <= doe < 146_097,
            yoe == (doe - doe / 1460 + doe / 36_524 - doe / 146_096) / 365,
    ;
}

pub fn civil(days: i64) -> (r: (i64, u32, u32))
    requires
        civil_range(days as int),
    ensures
        (r.0 as int, r.1 as int, r.2 as int) == civil_spec(days as int),
{
    let z = days + 719_468;
    let era = div_floor(z, 146_097);
    let doe = rem_floor(z, 146_097);
    proof {
        lemma_civil_bounds(doe as int);
    }
    let yoe = (doe - doe / 1460 + doe / 36_524 - doe / 146_096) / 365;
    let doy = doe - (365 * yoe + yoe / 4 - yoe / 100);
    let mp = (5 * doy + 2) / 153;
    let d = (doy - (153 * mp + 2) / 5 + 1) as u32;
    let m = if mp < 10 {
        mp + 3
    } else {
        mp - 9
    } as u32;
    proof {
        assert(era as int * 400 <= 1_000_000_000_000) by (nonlinear_arith)
            requires
                era as int == (days + 719_468) / 146_097,
                civil_range(days as int),
        ;
        assert(era as int * 400 >= -1_000_000_000_000) by (nonlinear_arith)
            requires
                era as int == (days + 719_468) / 146_097,
                civil_range(days as int),
        ;
        assert(0 <= mp < 12) by (nonlinear_arith)
            requires
                mp == (5 * doy + 2) / 153,
                0 <= doy < 366,
        ;
        assert(1 <= doy - (153 * mp + 2) / 5 + 1 <= 31) by (nonlinear_arith)
            requires
                mp == (5 * doy + 2) / 153,
                0 <= doy < 366,
        ;
    }
    let y = yoe + era * 400 + if m <= 2 {
        1
    } else {
        0
    };
    (y, m, d)
}

/// "7–13 Sep", or "31 Aug – 6 Sep" across a month's end.
pub open spec fn date_range_spec(from: int, to: int) -> Seq<char> {
    let (_, m1, d1) = civil_spec(from);
    let (_, m2, d2) = civil_spec(to);
    if m1 == m2 {
        decimal(d1 as nat) + "–"@ + decimal(d2 as nat) + " "@ + month_name(m2)
    } else {
        decimal(d1 as nat) + " "@ + month_name(m1) + " – "@ + decimal(d2 as nat) + " "@
            + month_name(m2)
    }
}

pub fn date_range(from: i64, to: i64) -> (r: String)
    requires
        civil_range(from as int),
        civil_range(to as int),
    ensures
        r@ == date_range_spec(from as int, to as int),
{
    let (_, m1, d1) = civil(from);
    let (_, m2, d2) = civil(to);
    let mut out = decimal_of(d1 as u64);
    if m1 == m2 {
        push_str(&mut out, "–");
        let d = decimal_of(d2 as u64);
        crate::text::push_all(&mut out, &d);
        push_str(&mut out, " ");
        push_str(&mut out, month_str(m2));
    } else {
        push_str(&mut out, " ");
        push_str(&mut out, month_str(m1));
        push_str(&mut out, " – ");
        let d = decimal_of(d2 as u64);
        crate::text::push_all(&mut out, &d);
        push_str(&mut out, " ");
        push_str(&mut out, month_str(m2));
    }
    string_of(&out)
}


// --- What the recorded minutes add up to ----------------------------------

/// One recorded minute as the diary reads it: when it was, what the engine
/// was doing, and the list entry the user was on with the way that entry
/// leans (restoring for a positive weight, wearing for a negative one,
/// everyday for none).
#[derive(Clone, Debug)]
pub struct Recorded {
    pub at: Moment,
    pub mode: Mode,
    pub entry: Option<(String, TimeKind)>,
}

/// Minutes here by kind of time.
#[derive(Clone, Copy, Debug, PartialEq, Eq, Structural)]
pub struct Tally {
    pub restoring: u64,
    pub everyday: u64,
    pub wearing: u64,
}

/// Day numbers of moments stay far inside `i64`: a few hundred billion
/// either way.
pub open spec fn day_in_reach(day: int) -> bool {
    -200_000_000_000 <= day <= 200_000_000_000
}

pub proof fn lemma_day_in_reach(times: Times, at: Moment)
    requires
        times.wf(),
    ensures
        day_in_reach(day_number(times, at)),
{
    crate::dose::lemma_clock_in_day(times@.0);
    let x = local_seconds(at) - times.day_start_secs();
    assert(-10_000_000_000_000_000 <= x <= 10_000_000_000_000_000) by (nonlinear_arith)
        requires
            x == at.ms as int / 1000 + at.utc_offset_s as int - times.day_start_secs(),
            0 <= times.day_start_secs() < 86_400,
            -0x8000_0000_0000_0000 <= at.ms < 0x8000_0000_0000_0000,
            -0x8000_0000 <= at.utc_offset_s < 0x8000_0000,
    ;
    assert(day_in_reach(x / 86_400)) by (nonlinear_arith)
        requires
            -10_000_000_000_000_000 <= x <= 10_000_000_000_000_000,
    ;
}

/// The minutes of `s` on days `from` (inclusive) to `to` (exclusive) that
/// were time of kind `k`.
pub open spec fn minutes_of_kind(times: Times, s: Seq<Recorded>, from: int, to: int, k: TimeKind) -> nat
    decreases s.len(),
{
    if s.len() == 0 {
        0
    } else {
        let r = s.last();
        let d = day_number(times, r.at);
        minutes_of_kind(times, s.drop_last(), from, to, k) + if from <= d < to && kind_spec(r.mode)
            == Some(k) {
            1nat
        } else {
            0nat
        }
    }
}

pub open spec fn tally_of(times: Times, s: Seq<Recorded>, from: int, to: int) -> Tally {
    Tally {
        restoring: minutes_of_kind(times, s, from, to, TimeKind::Restoring) as u64,
        everyday: minutes_of_kind(times, s, from, to, TimeKind::Everyday) as u64,
        wearing: minutes_of_kind(times, s, from, to, TimeKind::Wearing) as u64,
    }
}

proof fn lemma_minutes_of_kind_bound(times: Times, s: Seq<Recorded>, from: int, to: int, k: TimeKind)
    ensures
        minutes_of_kind(times, s, from, to, k) <= s.len(),
    decreases s.len(),
{
    if s.len() > 0 {
        lemma_minutes_of_kind_bound(times, s.drop_last(), from, to, k);
    }
}

/// Time of each kind on days `from` to `to` (not included).
pub fn tally(times: &Times, samples: &Vec<Recorded>, from: i64, to: i64) -> (r: Tally)
    requires
        times.wf(),
    ensures
        r == tally_of(*times, samples@, from as int, to as int),
{
    let mut t = Tally { restoring: 0, everyday: 0, wearing: 0 };
    let mut i: usize = 0;
    while i < samples.len()
        invariant
            times.wf(),
            0 <= i <= samples@.len(),
            t.restoring == minutes_of_kind(*times, samples@.take(i as int), from as int, to as int, TimeKind::Restoring),
            t.everyday == minutes_of_kind(*times, samples@.take(i as int), from as int, to as int, TimeKind::Everyday),
            t.wearing == minutes_of_kind(*times, samples@.take(i as int), from as int, to as int, TimeKind::Wearing),
        decreases samples.len() - i,
    {
        let ghost before = samples@.take(i as int);
        let ghost after = samples@.take(i + 1);
        assert(after.drop_last() == before);
        proof {
            lemma_minutes_of_kind_bound(*times, before, from as int, to as int, TimeKind::Restoring);
            lemma_minutes_of_kind_bound(*times, before, from as int, to as int, TimeKind::Everyday);
            lemma_minutes_of_kind_bound(*times, before, from as int, to as int, TimeKind::Wearing);
        }
        let d = day_of(times, samples[i].at);
        if from <= d && d < to {
            match kind(samples[i].mode) {
                Some(TimeKind::Restoring) => t.restoring = t.restoring + 1,
                Some(TimeKind::Everyday) => t.everyday = t.everyday + 1,
                Some(TimeKind::Wearing) => t.wearing = t.wearing + 1,
                None => {},
            }
        }
        i += 1;
    }
    assert(samples@.take(samples@.len() as int) == samples@);
    t
}

/// The day of the first recorded minute, or `today` with none.
pub fn first_day(times: &Times, samples: &Vec<Recorded>, today: i64) -> (r: i64)
    requires
        times.wf(),
    ensures
        r == if samples@.len() == 0 {
            today as int
        } else {
            day_number(*times, samples@[0].at)
        },
{
    if samples.len() == 0 {
        today
    } else {
        day_of(times, samples[0].at)
    }
}

/// What grew on `day`: the last garden entry for it that grew anything.
pub open spec fn plant_on(garden: Seq<GardenDay>, day: int) -> Option<PlantKind>
    decreases garden.len(),
{
    if garden.len() == 0 {
        None
    } else {
        let g = garden.last();
        if g.day == day && g.plant is Some {
            Some(plant_kind_spec(g.plant.unwrap()))
        } else {
            plant_on(garden.drop_last(), day)
        }
    }
}

pub fn plant_of(garden: &Vec<GardenDay>, day: i64) -> (r: Option<PlantKind>)
    ensures
        r == plant_on(garden@, day as int),
{
    let mut i: usize = garden.len();
    assert(garden@.take(i as int) == garden@);
    while i > 0
        invariant
            0 <= i <= garden@.len(),
            plant_on(garden@, day as int) == plant_on(garden@.take(i as int), day as int),
        decreases i,
    {
        let g = garden[i - 1];
        let ghost upto = garden@.take(i as int);
        assert(upto.drop_last() == garden@.take(i - 1));
        if g.day == day {
            if let Some(p) = g.plant {
                return Some(plant_kind(p));
            }
        }
        i -= 1;
    }
    None
}

/// The plants grown over `n` days from `from`, in order.
pub open spec fn plants_in(garden: Seq<GardenDay>, from: int, n: nat) -> Seq<PlantKind>
    decreases n,
{
    if n == 0 {
        seq![]
    } else {
        let before = plants_in(garden, from, (n - 1) as nat);
        match plant_on(garden, from + n - 1) {
            Some(p) => before.push(p),
            None => before,
        }
    }
}

pub fn plants_of(garden: &Vec<GardenDay>, from: i64, n: i64) -> (r: Vec<PlantKind>)
    requires
        0 <= n,
        from + n <= i64::MAX,
    ensures
        r@ == plants_in(garden@, from as int, n as nat),
{
    let mut out: Vec<PlantKind> = Vec::new();
    let mut i: i64 = 0;
    while i < n
        invariant
            0 <= i <= n,
            from + n <= i64::MAX,
            out@ == plants_in(garden@, from as int, i as nat),
        decreases n - i,
    {
        if let Some(p) = plant_of(garden, from + i) {
            out.push(p);
        }
        i += 1;
    }
    out
}

/// One of the last seven days: its name, whether history reaches it, its
/// time by kind, and what grew.
#[derive(Clone, Debug)]
pub struct DayRow {
    pub label: String,
    pub day: i64,
    pub known: bool,
    pub tally: Tally,
    pub plant: Option<PlantKind>,
}

pub open spec fn day_label(day: int, today: int) -> Seq<char> {
    if day == today {
        "Today"@
    } else {
        weekday_name(day % 7)
    }
}

/// The last seven days, oldest first, ending with today: each named, known
/// from the first day with history, with its time by kind and what grew.
pub open spec fn week_shows(times: Times, s: Seq<Recorded>, garden: Seq<GardenDay>, today: int, first: int, r: Seq<DayRow>) -> bool {
    &&& r.len() == 7
    &&& forall|i: int|
        0 <= i < 7 ==> {
            let d = today - 6 + i;
            &&& (#[trigger] r[i]).day == d
            &&& r[i].label@ == day_label(d, today)
            &&& r[i].known == (d >= first)
            &&& r[i].tally == tally_of(times, s, d, d + 1)
            &&& r[i].plant == plant_on(garden, d)
        }
}

/// The last seven days, oldest first, ending with today.
pub fn week(times: &Times, samples: &Vec<Recorded>, garden: &Vec<GardenDay>, today: i64, first: i64) -> (r: Vec<DayRow>)
    requires
        times.wf(),
        day_in_reach(today as int),
    ensures
        week_shows(*times, samples@, garden@, today as int, first as int, r@),
{
    let mut out: Vec<DayRow> = Vec::new();
    let mut i: i64 = 0;
    while i < 7
        invariant
            times.wf(),
            day_in_reach(today as int),
            0 <= i <= 7,
            out@.len() == i,
            forall|j: int|
                0 <= j < i ==> {
                    let d = today - 6 + j;
                    &&& (#[trigger] out@[j]).day == d
                    &&& out@[j].label@ == day_label(d, today as int)
                    &&& out@[j].known == (d >= first)
                    &&& out@[j].tally == tally_of(*times, samples@, d, d + 1)
                    &&& out@[j].plant == plant_on(garden@, d)
                },
        decreases 7 - i,
    {
        let d = today - 6 + i;
        let label = if d == today {
            "Today".to_owned()
        } else {
            weekday(d).to_owned()
        };
        let row = DayRow {
            label,
            day: d,
            known: d >= first,
            tally: tally(times, samples, d, d + 1),
            plant: plant_of(garden, d),
        };
        out.push(row);
        i += 1;
    }
    out
}

/// One of the weeks before the last seven days.
#[derive(Clone, Debug)]
pub struct WeekRow {
    pub label: String,
    pub from: i64,
    pub tally: Tally,
    pub plants: Vec<PlantKind>,
}

/// The first day of the `w`th week before the last seven days.
pub open spec fn week_from(today: int, w: int) -> int {
    today - 6 - 7 * w
}

/// The weeks before the last seven days, newest first: as many as reach
/// the first day with history, up to `WEEKS_BEFORE`, each with its dates,
/// its time by kind and what grew, day by day.
pub open spec fn earlier_shows(times: Times, s: Seq<Recorded>, garden: Seq<GardenDay>, today: int, first: int, r: Seq<WeekRow>) -> bool {
    &&& r.len() <= WEEKS_BEFORE
    &&& forall|w: int| 1 <= w <= WEEKS_BEFORE ==> (w <= r.len() <==> #[trigger] week_from(today, w) + 6 >= first)
    &&& forall|i: int|
        0 <= i < r.len() ==> {
            let from = week_from(today, i + 1);
            &&& (#[trigger] r[i]).from == from
            &&& r[i].label@ == date_range_spec(from, from + 6)
            &&& r[i].tally == tally_of(times, s, from, from + 7)
            &&& r[i].plants@ == plants_in(garden, from, 7)
        }
}

/// The weeks before the last seven days, newest first, as far back as
/// `WEEKS_BEFORE` and no further than the week that holds `first`.
pub fn earlier(times: &Times, samples: &Vec<Recorded>, garden: &Vec<GardenDay>, today: i64, first: i64) -> (r: Vec<WeekRow>)
    requires
        times.wf(),
        day_in_reach(today as int),
    ensures
        earlier_shows(*times, samples@, garden@, today as int, first as int, r@),
{
    let mut out: Vec<WeekRow> = Vec::new();
    let mut w: i64 = 1;
    while w <= WEEKS_BEFORE
        invariant
            times.wf(),
            day_in_reach(today as int),
            1 <= w <= WEEKS_BEFORE + 1,
            out@.len() == w - 1,
            forall|v: int| 1 <= v < w ==> week_from(today as int, v) + 6 >= first,
            forall|i: int|
                0 <= i < out@.len() ==> {
                    let from = week_from(today as int, i + 1);
                    &&& (#[trigger] out@[i]).from == from
                    &&& out@[i].label@ == date_range_spec(from, from + 6)
                    &&& out@[i].tally == tally_of(*times, samples@, from, from + 7)
                    &&& out@[i].plants@ == plants_in(garden@, from, 7)
                },
        ensures
            w <= WEEKS_BEFORE ==> week_from(today as int, w as int) + 6 < first,
        decreases WEEKS_BEFORE + 1 - w,
    {
        let from = today - 6 - 7 * w;
        if from + 6 < first {
            break;
        }
        let row = WeekRow {
            label: date_range(from, from + 6),
            from,
            tally: tally(times, samples, from, from + 7),
            plants: plants_of(garden, from, 7),
        };
        out.push(row);
        w += 1;
    }
    out
}

// --- Today's line ------------------------------------------------------------

/// Today's line keeps one point for every this many minutes.
pub const STEP_MINUTES: i64 = 5;

/// This long with nothing recorded, and the browser was closed: the line
/// breaks.
pub const GAP_MINUTES: i64 = 10;

/// A point of today's line: the minute of the day it ends at, whether the
/// line broke before it, and whose dose it shows: a recorded minute's, by
/// its place among the samples, or (`None`) the dose now.
#[derive(Clone, Copy, Debug, PartialEq, Eq, Structural)]
pub struct Step {
    pub minute: u32,
    pub gap: bool,
    pub sample: Option<usize>,
}

pub open spec fn absolute_minute(at: Moment) -> int {
    at.ms as int / 60_000
}

pub open spec fn minute_of_day_at(times: Times, at: Moment) -> int {
    ((local_seconds(at) - times.day_start_secs()) % DAY_S as int) / 60
}

/// The line after one more moment: minutes since 1970 (`absolute`), minute
/// of the day, and whose dose. It breaks when more than `GAP_MINUTES` passed
/// since the moment before (`last`); otherwise a moment in the same step as
/// the last point moves that point on.
pub open spec fn next_line(prev: Seq<Step>, last: Option<int>, absolute: int, minute: int, sample: Option<usize>) -> Seq<Step> {
    let gap = last is Some && absolute - last.unwrap() > GAP_MINUTES;
    if prev.len() > 0 && !gap && prev.last().minute as int / STEP_MINUTES as int == minute / STEP_MINUTES as int {
        prev.update(prev.len() - 1, Step { minute: minute as u32, gap: prev.last().gap, sample })
    } else {
        prev.push(Step { minute: minute as u32, gap, sample })
    }
}

/// The line through moments given as (minutes since 1970, minute of the
/// day, whose dose), in order.
pub open spec fn line_of(ev: Seq<(int, int, Option<usize>)>) -> Seq<Step>
    decreases ev.len(),
{
    if ev.len() == 0 {
        seq![]
    } else {
        let before = ev.drop_last();
        let e = ev.last();
        next_line(
            line_of(before),
            if before.len() == 0 {
                None
            } else {
                Some(before.last().0)
            },
            e.0,
            e.1,
            e.2,
        )
    }
}

/// The recorded minutes of `today` as moments of the line.
pub open spec fn line_events(times: Times, s: Seq<Recorded>, today: int) -> Seq<(int, int, Option<usize>)>
    decreases s.len(),
{
    if s.len() == 0 {
        seq![]
    } else {
        let before = line_events(times, s.drop_last(), today);
        let r = s.last();
        if day_number(times, r.at) == today {
            before.push((absolute_minute(r.at), minute_of_day_at(times, r.at), Some((s.len() - 1) as usize)))
        } else {
            before
        }
    }
}

fn add_point(
    points: &mut Vec<Step>,
    last: &mut Option<i64>,
    absolute: i64,
    minute: u32,
    sample: Option<usize>,
)
    requires
        -200_000_000_000_000 <= absolute <= 200_000_000_000_000,
        match *old(last) {
            Some(l) => -200_000_000_000_000 <= l <= 200_000_000_000_000,
            None => true,
        },
    ensures
        final(points)@ == next_line(
            old(points)@,
            match *old(last) {
                Some(l) => Some(l as int),
                None => None,
            },
            absolute as int,
            minute as int,
            sample,
        ),
        *final(last) == Some(absolute),
{
    let gap = match *last {
        Some(l) => absolute - l > GAP_MINUTES,
        None => false,
    };
    let n = points.len();
    if n > 0 && !gap && (points[n - 1].minute as i64) / STEP_MINUTES == (minute as i64) / STEP_MINUTES {
        let kept = points[n - 1].gap;
        points.set(n - 1, Step { minute, gap: kept, sample });
    } else {
        points.push(Step { minute, gap, sample });
    }
    *last = Some(absolute);
}

/// The dose through today, a point for every `STEP_MINUTES` (the last
/// recorded minute in each step), ending with the dose now.
pub fn today_line(times: &Times, samples: &Vec<Recorded>, today: i64, now: Moment) -> (r: Vec<Step>)
    requires
        times.wf(),
    ensures
        r@ == line_of(
            line_events(*times, samples@, today as int).push(
                (absolute_minute(now), minute_of_day_at(*times, now), None),
            ),
        ),
{
    let mut points: Vec<Step> = Vec::new();
    let mut last: Option<i64> = None;
    let mut i: usize = 0;
    while i < samples.len()
        invariant
            times.wf(),
            0 <= i <= samples@.len(),
            points@ == line_of(line_events(*times, samples@.take(i as int), today as int)),
            ({
                let ev = line_events(*times, samples@.take(i as int), today as int);
                &&& ev.len() == 0 ==> last is None
                &&& ev.len() > 0 ==> last == Some(ev.last().0 as i64)
                &&& ev.len() > 0 ==> -200_000_000_000_000 <= ev.last().0 <= 200_000_000_000_000
            }),
        decreases samples.len() - i,
    {
        let ghost before = samples@.take(i as int);
        let ghost after = samples@.take(i + 1);
        assert(after.drop_last() == before);
        let at = samples[i].at;
        if day_of(times, at) == today {
            let absolute = div_floor(at.ms, 60_000);
            assert(-200_000_000_000_000 <= absolute <= 200_000_000_000_000) by (nonlinear_arith)
                requires
                    absolute == at.ms as int / 60_000,
                    -0x8000_0000_0000_0000 <= at.ms < 0x8000_0000_0000_0000,
            ;
            let minute = times.minute_of_day(at);
            proof {
                let ev = line_events(*times, before, today as int);
                let e = (absolute as int, minute as int, Some(i));
                assert(line_events(*times, after, today as int) == ev.push(e));
                assert(ev.push(e).drop_last() == ev);
            }
            add_point(&mut points, &mut last, absolute, minute, Some(i));
        } else {
            assert(line_events(*times, after, today as int) == line_events(*times, before, today as int));
        }
        i += 1;
    }
    assert(samples@.take(samples@.len() as int) == samples@);
    let absolute = div_floor(now.ms, 60_000);
    assert(-200_000_000_000_000 <= absolute <= 200_000_000_000_000) by (nonlinear_arith)
        requires
            absolute == now.ms as int / 60_000,
            -0x8000_0000_0000_0000 <= now.ms < 0x8000_0000_0000_0000,
    ;
    let minute = times.minute_of_day(now);
    let ghost ev = line_events(*times, samples@, today as int);
    let ghost all = ev.push((absolute_minute(now), minute_of_day_at(*times, now), None));
    assert(all.drop_last() == ev);
    add_point(&mut points, &mut last, absolute, minute, None);
    points
}

// --- The entries that moved the wisp ------------------------------------------

/// Whether text `a` sorts before text `b`, character by character as Rust
/// orders strings.
pub open spec fn text_before(a: Seq<char>, b: Seq<char>) -> bool
    decreases a.len(),
{
    if a.len() == 0 {
        b.len() > 0
    } else if b.len() == 0 {
        false
    } else if a[0] != b[0] {
        (a[0] as int) < (b[0] as int)
    } else {
        text_before(a.drop_first(), b.drop_first())
    }
}

/// No text sorts before itself, and of two different texts exactly one
/// sorts first.
pub proof fn lemma_text_order(a: Seq<char>, b: Seq<char>)
    ensures
        !text_before(a, a),
        a != b ==> (text_before(a, b) != text_before(b, a)),
        a == b ==> !text_before(a, b),
    decreases a.len(),
{
    if a.len() > 0 {
        lemma_text_order(a.drop_first(), a.drop_first());
        if b.len() > 0 {
            lemma_text_order(a.drop_first(), b.drop_first());
            if a[0] == b[0] && a != b {
                assert(a.drop_first() != b.drop_first()) by {
                    if a.drop_first() == b.drop_first() {
                        assert(a =~= seq![a[0]] + a.drop_first());
                        assert(b =~= seq![b[0]] + b.drop_first());
                    }
                }
            }
        }
    } else if b.len() == 0 {
        assert(a =~= b);
    }
}

pub proof fn lemma_text_before_transitive(a: Seq<char>, b: Seq<char>, c: Seq<char>)
    requires
        text_before(a, b),
        text_before(b, c),
    ensures
        text_before(a, c),
    decreases a.len(),
{
    if a.len() > 0 && b.len() > 0 && c.len() > 0 && a[0] == b[0] && b[0] == c[0] {
        lemma_text_before_transitive(a.drop_first(), b.drop_first(), c.drop_first());
    }
}

proof fn lemma_text_before_skip(a: Seq<char>, b: Seq<char>, i: int)
    requires
        0 <= i <= a.len(),
        i <= b.len(),
        forall|j: int| 0 <= j < i ==> a[j] == b[j],
    ensures
        text_before(a, b) == text_before(a.skip(i), b.skip(i)),
    decreases i,
{
    if i > 0 {
        assert(a[0] == b[0]);
        lemma_text_before_skip(a.drop_first(), b.drop_first(), i - 1);
        assert(a.drop_first().skip(i - 1) =~= a.skip(i));
        assert(b.drop_first().skip(i - 1) =~= b.skip(i));
    } else {
        assert(a.skip(0) =~= a);
        assert(b.skip(0) =~= b);
    }
}

/// Whether `a` sorts before `b`.
pub fn before(a: &[char], b: &[char]) -> (r: bool)
    ensures
        r == text_before(a@, b@),
{
    let mut i: usize = 0;
    while i < a.len() && i < b.len() && a[i] == b[i]
        invariant
            0 <= i <= a@.len(),
            i <= b@.len(),
            forall|j: int| 0 <= j < i ==> a@[j] == b@[j],
        decreases a.len() - i,
    {
        i += 1;
    }
    proof {
        lemma_text_before_skip(a@, b@, i as int);
    }
    if i == a.len() {
        i < b.len()
    } else if i == b.len() {
        false
    } else {
        assert(a@.skip(i as int)[0] == a@[i as int]);
        assert(b@.skip(i as int)[0] == b@[i as int]);
        a[i] < b[i]
    }
}

/// Of two entries with `ma` and `mb` minutes, whether `a` is named first:
/// more time first, then in the order of their names.
pub open spec fn ranks_above(ma: int, a: Seq<char>, mb: int, b: Seq<char>) -> bool {
    ma > mb || (ma == mb && text_before(a, b))
}

pub proof fn lemma_ranks_order(ma: int, a: Seq<char>, mb: int, b: Seq<char>, mc: int, c: Seq<char>)
    ensures
        a != b ==> (ranks_above(ma, a, mb, b) != ranks_above(mb, b, ma, a)),
        !ranks_above(ma, a, ma, a),
        ranks_above(ma, a, mb, b) && ranks_above(mb, b, mc, c) ==> ranks_above(ma, a, mc, c),
{
    lemma_text_order(a, b);
    if ranks_above(ma, a, mb, b) && ranks_above(mb, b, mc, c) && ma == mb && mb == mc {
        lemma_text_before_transitive(a, b, c);
    }
}

fn ranks_above_exec(ma: u64, a: &[char], mb: u64, b: &[char]) -> (r: bool)
    ensures
        r == ranks_above(ma as int, a@, mb as int, b@),
{
    ma > mb || (ma == mb && before(a, b))
}

/// This many minutes in the week before an entry is named.
pub const SITE_MINUTES: u64 = 5;

/// Entries named for each kind.
pub const SITES_EACH: usize = 3;

/// Whether a recorded minute counts toward its entry: the user was there,
/// within the last seven days, on an entry that restores or wears.
pub open spec fn on_site(times: Times, r: Recorded, today: int) -> bool {
    &&& r.mode != Mode::Away
    &&& day_number(times, r.at) >= today - 6
    &&& r.entry is Some
    &&& r.entry.unwrap().1 != TimeKind::Everyday
}

/// The minutes of `s` that count toward entry `e` leaning `k`.
pub open spec fn site_minutes(times: Times, s: Seq<Recorded>, today: int, e: Seq<char>, k: TimeKind) -> nat
    decreases s.len(),
{
    if s.len() == 0 {
        0
    } else {
        let r = s.last();
        site_minutes(times, s.drop_last(), today, e, k) + if on_site(times, r, today)
            && r.entry.unwrap().0@ == e && r.entry.unwrap().1 == k {
            1nat
        } else {
            0nat
        }
    }
}

/// The most minutes of any entry, looking at the entries of the first `n`
/// recorded minutes.
pub open spec fn most_minutes(times: Times, s: Seq<Recorded>, today: int, n: nat) -> nat
    decreases n,
{
    if n == 0 {
        0
    } else {
        let before = most_minutes(times, s, today, (n - 1) as nat);
        let r = s[n - 1];
        if on_site(times, r, today) {
            let m = site_minutes(times, s, today, r.entry.unwrap().0@, r.entry.unwrap().1);
            if m > before {
                m
            } else {
                before
            }
        } else {
            before
        }
    }
}

proof fn lemma_site_minutes_bound(times: Times, s: Seq<Recorded>, today: int, e: Seq<char>, k: TimeKind)
    ensures
        site_minutes(times, s, today, e, k) <= s.len(),
    decreases s.len(),
{
    if s.len() > 0 {
        lemma_site_minutes_bound(times, s.drop_last(), today, e, k);
    }
}

/// A minute on an entry gives that entry at least a minute.
proof fn lemma_on_site_counts(times: Times, s: Seq<Recorded>, today: int, j: int)
    requires
        0 <= j < s.len(),
        on_site(times, s[j], today),
    ensures
        site_minutes(times, s, today, s[j].entry.unwrap().0@, s[j].entry.unwrap().1) >= 1,
    decreases s.len(),
{
    if j < s.len() - 1 {
        assert(s.drop_last()[j] == s[j]);
        lemma_on_site_counts(times, s.drop_last(), today, j);
    }
}

/// The entries met so far and their minutes: one row per entry and way it
/// leans.
struct SiteTotals {
    names: Vec<Vec<char>>,
    kinds: Vec<TimeKind>,
    counts: Vec<u64>,
}

impl SiteTotals {
    spec fn holds(&self, times: Times, p: Seq<Recorded>, today: int) -> bool {
        &&& self.names@.len() == self.kinds@.len()
        &&& self.names@.len() == self.counts@.len()
        &&& forall|a: int|
            0 <= a < self.names@.len() ==> #[trigger] self.counts@[a] == site_minutes(
                times,
                p,
                today,
                self.names@[a]@,
                self.kinds@[a],
            )
        &&& forall|a: int, b: int|
            0 <= a < b < self.names@.len() ==> !(#[trigger] self.names@[a]@ == #[trigger] self.names@[b]@
                && self.kinds@[a] == self.kinds@[b])
        &&& forall|e: Seq<char>, k: TimeKind|
            #[trigger] site_minutes(times, p, today, e, k) > 0 ==> exists|a: int|
                0 <= a < self.names@.len() && self.names@[a]@ == e && self.kinds@[a] == k
        &&& forall|a: int| 0 <= a < self.names@.len() ==> self.counts@[a] <= p.len()
    }
}

fn find_site(names: &Vec<Vec<char>>, kinds: &Vec<TimeKind>, e: &[char], k: TimeKind) -> (r: Option<usize>)
    requires
        names@.len() == kinds@.len(),
    ensures
        match r {
            Some(a) => a < names@.len() && names@[a as int]@ == e@ && kinds@[a as int] == k,
            None => forall|a: int| 0 <= a < names@.len() ==> !(names@[a]@ == e@ && kinds@[a] == k),
        },
{
    let mut i: usize = 0;
    while i < names.len()
        invariant
            names@.len() == kinds@.len(),
            0 <= i <= names@.len(),
            forall|a: int| 0 <= a < i ==> !(names@[a]@ == e@ && kinds@[a] == k),
        decreases names.len() - i,
    {
        if kinds[i] == k && same(&names[i], e) {
            return Some(i);
        }
        i += 1;
    }
    None
}

/// Whether a recorded minute counts toward its entry.
fn counts_on_site(times: &Times, r: &Recorded, today: i64) -> (b: bool)
    requires
        times.wf(),
        day_in_reach(today as int),
    ensures
        b == on_site(*times, *r, today as int),
{
    if r.mode == Mode::Away {
        return false;
    }
    if day_of(times, r.at) < today - 6 {
        return false;
    }
    match &r.entry {
        Some((_, k)) => *k != TimeKind::Everyday,
        None => false,
    }
}

fn site_totals(times: &Times, samples: &Vec<Recorded>, today: i64) -> (t: SiteTotals)
    requires
        times.wf(),
        day_in_reach(today as int),
    ensures
        t.holds(*times, samples@, today as int),
{
    let mut t = SiteTotals { names: Vec::new(), kinds: Vec::new(), counts: Vec::new() };
    let mut i: usize = 0;
    while i < samples.len()
        invariant
            times.wf(),
            day_in_reach(today as int),
            0 <= i <= samples@.len(),
            t.holds(*times, samples@.take(i as int), today as int),
        decreases samples.len() - i,
    {
        let ghost p = samples@.take(i as int);
        let ghost q = samples@.take(i + 1);
        let ghost r = samples@[i as int];
        assert(q.drop_last() == p);
        assert(q.last() == r);
        let counted = counts_on_site(times, &samples[i], today);
        if !counted {
            assert forall|e: Seq<char>, k: TimeKind|
                #![trigger site_minutes(*times, q, today as int, e, k)]
                site_minutes(*times, q, today as int, e, k) == site_minutes(*times, p, today as int, e, k) by {}
        } else {
            let (name, k) = match &samples[i].entry {
                Some((name, k)) => (name, *k),
                None => {
                    assert(false);
                    return t;
                },
            };
            let e = chars_of(name.as_str());
            let ghost old_t = t;
            assert forall|e2: Seq<char>, k2: TimeKind|
                #![trigger site_minutes(*times, q, today as int, e2, k2)]
                site_minutes(*times, q, today as int, e2, k2) == site_minutes(*times, p, today as int, e2, k2)
                    + if e2 == e@ && k2 == k { 1nat } else { 0nat } by {}
            proof {
                assert forall|a: int| 0 <= a < old_t.names@.len() implies #[trigger] old_t.counts@[a] <= p.len() by {}
            }
            match find_site(&t.names, &t.kinds, &e, k) {
                Some(a) => {
                    proof {
                        lemma_site_minutes_bound(*times, p, today as int, e@, k);
                    }
                    let c = t.counts[a] + 1;
                    t.counts.set(a, c);
                    proof {
                        assert forall|b: int| 0 <= b < t.names@.len() implies #[trigger] t.counts@[b]
                            == site_minutes(*times, q, today as int, t.names@[b]@, t.kinds@[b]) by {
                            if b != a {
                                if b < a {
                                    assert(!(old_t.names@[b]@ == old_t.names@[a as int]@ && old_t.kinds@[b] == old_t.kinds@[a as int]));
                                } else {
                                    assert(!(old_t.names@[a as int]@ == old_t.names@[b]@ && old_t.kinds@[a as int] == old_t.kinds@[b]));
                                }
                            }
                        }
                        assert forall|e2: Seq<char>, k2: TimeKind|
                            #[trigger] site_minutes(*times, q, today as int, e2, k2) > 0 implies exists|b: int|
                                0 <= b < t.names@.len() && t.names@[b]@ == e2 && t.kinds@[b] == k2 by {
                            if !(e2 == e@ && k2 == k) {
                                assert(site_minutes(*times, p, today as int, e2, k2) > 0);
                            } else {
                                assert(t.names@[a as int]@ == e2 && t.kinds@[a as int] == k2);
                            }
                        }
                    }
                },
                None => {
                    proof {
                        if site_minutes(*times, p, today as int, e@, k) > 0 {
                            let w = choose|a: int| 0 <= a < old_t.names@.len() && old_t.names@[a]@ == e@ && old_t.kinds@[a] == k;
                            assert(false);
                        }
                    }
                    t.names.push(e);
                    t.kinds.push(k);
                    t.counts.push(1);
                    proof {
                        let n = old_t.names@.len();
                        assert forall|b: int| 0 <= b < t.names@.len() implies #[trigger] t.counts@[b]
                            == site_minutes(*times, q, today as int, t.names@[b]@, t.kinds@[b]) by {
                            if b < n {
                                assert(t.names@[b] == old_t.names@[b]);
                                assert(!(old_t.names@[b]@ == e@ && old_t.kinds@[b] == k));
                            }
                        }
                        assert forall|a2: int, b: int|
                            0 <= a2 < b < t.names@.len() implies !(#[trigger] t.names@[a2]@ == #[trigger] t.names@[b]@
                                && t.kinds@[a2] == t.kinds@[b]) by {
                            assert(t.names@[a2] == old_t.names@[a2]);
                            if b < n {
                                assert(t.names@[b] == old_t.names@[b]);
                            }
                        }
                        assert forall|e2: Seq<char>, k2: TimeKind|
                            #[trigger] site_minutes(*times, q, today as int, e2, k2) > 0 implies exists|b: int|
                                0 <= b < t.names@.len() && t.names@[b]@ == e2 && t.kinds@[b] == k2 by {
                            if !(e2 == e@ && k2 == k) {
                                assert(site_minutes(*times, p, today as int, e2, k2) > 0);
                                let w = choose|a: int| 0 <= a < old_t.names@.len() && old_t.names@[a]@ == e2 && old_t.kinds@[a] == k2;
                                assert(t.names@[w] == old_t.names@[w]);
                                assert(t.kinds@[w] == old_t.kinds@[w]);
                                assert(0 <= w < t.names@.len() && t.names@[w]@ == e2 && t.kinds@[w] == k2);
                            } else {
                                assert(t.names@[n as int]@ == e2 && t.kinds@[n as int] == k2);
                            }
                        }
                    }
                },
            }
        }
        i += 1;
    }
    assert(samples@.take(samples@.len() as int) == samples@);
    t
}

impl SiteTotals {
    spec fn distinct(&self) -> bool {
        &&& self.names@.len() == self.kinds@.len()
        &&& self.names@.len() == self.counts@.len()
        &&& forall|a: int, b: int|
            0 <= a < b < self.names@.len() ==> !(#[trigger] self.names@[a]@ == #[trigger] self.names@[b]@
                && self.kinds@[a] == self.kinds@[b])
    }

    spec fn eligible(&self, k: TimeKind, a: int) -> bool {
        &&& 0 <= a < self.names@.len()
        &&& self.kinds@[a] == k
        &&& self.counts@[a] >= SITE_MINUTES
    }

    spec fn row_ranks(&self, a: int, b: int) -> bool {
        ranks_above(self.counts@[a] as int, self.names@[a]@, self.counts@[b] as int, self.names@[b]@)
    }

    proof fn lemma_rows_ordered(&self, k: TimeKind, a: int, b: int, c: int)
        requires
            self.distinct(),
            self.eligible(k, a),
            self.eligible(k, b),
            0 <= c < self.names@.len(),
        ensures
            a != b ==> (self.row_ranks(a, b) != self.row_ranks(b, a)),
            !self.row_ranks(a, a),
            self.row_ranks(a, b) && self.row_ranks(b, c) ==> self.row_ranks(a, c),
    {
        if a < b {
            assert(!(self.names@[a]@ == self.names@[b]@ && self.kinds@[a] == self.kinds@[b]));
        } else if b < a {
            assert(!(self.names@[b]@ == self.names@[a]@ && self.kinds@[b] == self.kinds@[a]));
        }
        lemma_ranks_order(
            self.counts@[a] as int,
            self.names@[a]@,
            self.counts@[b] as int,
            self.names@[b]@,
            self.counts@[c] as int,
            self.names@[c]@,
        );
    }
}

/// The rows named for kind `k`: up to `SITES_EACH` of those with at least
/// `SITE_MINUTES`, the first ranked above the rest.
fn pick(t: &SiteTotals, k: TimeKind) -> (r: Vec<usize>)
    requires
        t.distinct(),
    ensures
        r@.len() <= SITES_EACH,
        forall|i: int| 0 <= i < r@.len() ==> t.eligible(k, #[trigger] r@[i] as int),
        forall|i: int, j: int| 0 <= i < j < r@.len() ==> t.row_ranks(#[trigger] r@[i] as int, #[trigger] r@[j] as int),
        forall|a: int|
            t.eligible(k, a) && !r@.contains(a as usize) ==> r@.len() == SITES_EACH && t.row_ranks(
                r@.last() as int,
                a,
            ),
{
    let n = t.names.len();
    let mut chosen: Vec<usize> = Vec::new();
    while chosen.len() < SITES_EACH
        invariant
            t.distinct(),
            n == t.names@.len(),
            chosen@.len() <= SITES_EACH,
            forall|i: int| 0 <= i < chosen@.len() ==> t.eligible(k, #[trigger] chosen@[i] as int),
            forall|i: int, j: int|
                0 <= i < j < chosen@.len() ==> t.row_ranks(#[trigger] chosen@[i] as int, #[trigger] chosen@[j] as int),
            forall|a: int|
                t.eligible(k, a) && !chosen@.contains(a as usize) ==> chosen@.len() == 0 || t.row_ranks(
                    chosen@.last() as int,
                    a,
                ),
        ensures
            forall|a: int|
                t.eligible(k, a) && !chosen@.contains(a as usize) ==> chosen@.len() == SITES_EACH
                    && t.row_ranks(chosen@.last() as int, a),
        decreases SITES_EACH - chosen@.len(),
    {
        let ghost c = chosen@;
        let mut best: Option<usize> = None;
        let mut a: usize = 0;
        while a < n
            invariant
                t.distinct(),
                n == t.names@.len(),
                0 <= a <= n,
                c == chosen@,
                c.len() < SITES_EACH,
                forall|i: int| 0 <= i < c.len() ==> t.eligible(k, #[trigger] c[i] as int),
                match best {
                    Some(b) => {
                        &&& b < a
                        &&& t.eligible(k, b as int)
                        &&& (c.len() == 0 || t.row_ranks(c.last() as int, b as int))
                        &&& forall|x: int|
                            0 <= x < a && t.eligible(k, x) && (c.len() == 0 || t.row_ranks(
                                c.last() as int,
                                x,
                            )) ==> x == b || t.row_ranks(b as int, x)
                    },
                    None => forall|x: int|
                        0 <= x < a && t.eligible(k, x) ==> !(c.len() == 0 || t.row_ranks(
                            c.last() as int,
                            x,
                        )),
                },
            decreases n - a,
        {
            let eligible = t.kinds[a] == k && t.counts[a] >= SITE_MINUTES;
            let below = if chosen.len() == 0 {
                true
            } else {
                let last = chosen[chosen.len() - 1];
                ranks_above_exec(t.counts[last], &t.names[last], t.counts[a], &t.names[a])
            };
            if eligible && below {
                match best {
                    None => {
                        best = Some(a);
                    },
                    Some(b) => {
                        proof {
                            t.lemma_rows_ordered(k, a as int, b as int, a as int);
                        }
                        if ranks_above_exec(t.counts[a], &t.names[a], t.counts[b], &t.names[b]) {
                            proof {
                                assert forall|x: int|
                                    0 <= x < a + 1 && t.eligible(k, x) && (c.len() == 0 || t.row_ranks(
                                        c.last() as int,
                                        x,
                                    )) implies x == a || t.row_ranks(a as int, x) by {
                                    if x != a && x != b {
                                        t.lemma_rows_ordered(k, a as int, b as int, x);
                                    }
                                }
                            }
                            best = Some(a);
                        }
                    },
                }
            }
            a += 1;
        }
        match best {
            None => {
                return chosen;
            },
            Some(b) => {
                proof {
                    if c.len() > 0 {
                        let l = c.last() as int;
                        assert forall|i: int| 0 <= i < c.len() implies t.row_ranks(#[trigger] c[i] as int, b as int) by {
                            if i < c.len() - 1 {
                                t.lemma_rows_ordered(k, c[i] as int, l, b as int);
                            }
                        }
                        assert(!c.contains(b)) by {
                            if c.contains(b) {
                                let i = choose|i: int| 0 <= i < c.len() && c[i] == b;
                                t.lemma_rows_ordered(k, b as int, l, b as int);
                                if i < c.len() - 1 {
                                    assert(t.row_ranks(c[i] as int, l));
                                }
                            }
                        }
                    }
                }
                chosen.push(b);
                proof {
                    let c2 = chosen@;
                    assert(c2 == c.push(b));
                    assert forall|x: int|
                        t.eligible(k, x) && !c2.contains(x as usize) implies c2.len() == 0 || t.row_ranks(
                            c2.last() as int,
                            x,
                        ) by {
                        assert(!c.contains(x as usize)) by {
                            if c.contains(x as usize) {
                                let i = choose|i: int| 0 <= i < c.len() && c[i] == x as usize;
                                assert(c2[i] == x as usize);
                            }
                        }
                        assert(c2[c.len() as int] == b);
                        assert(x != b);
                    }
                    assert forall|i: int, j: int|
                        0 <= i < j < c2.len() implies t.row_ranks(#[trigger] c2[i] as int, #[trigger] c2[j] as int) by {
                        if j < c.len() {
                            assert(c2[i] == c[i] && c2[j] == c[j]);
                        } else {
                            assert(c2[i] == c[i]);
                        }
                    }
                }
            },
        }
    }
    chosen
}

/// The most minutes of any entry this week.
fn most_of(times: &Times, samples: &Vec<Recorded>, today: i64, t: &SiteTotals) -> (m: u64)
    requires
        times.wf(),
        day_in_reach(today as int),
        t.holds(*times, samples@, today as int),
    ensures
        m == most_minutes(*times, samples@, today as int, samples@.len()),
{
    let mut most: u64 = 0;
    let mut j: usize = 0;
    while j < samples.len()
        invariant
            times.wf(),
            day_in_reach(today as int),
            t.holds(*times, samples@, today as int),
            0 <= j <= samples@.len(),
            most == most_minutes(*times, samples@, today as int, j as nat),
        decreases samples.len() - j,
    {
        if counts_on_site(times, &samples[j], today) {
            let (name, k) = match &samples[j].entry {
                Some((name, k)) => (name, *k),
                None => {
                    assert(false);
                    return most;
                },
            };
            let e = chars_of(name.as_str());
            proof {
                lemma_on_site_counts(*times, samples@, today as int, j as int);
            }
            match find_site(&t.names, &t.kinds, &e, k) {
                Some(a) => {
                    if t.counts[a] > most {
                        most = t.counts[a];
                    }
                },
                None => {
                    proof {
                        assert(site_minutes(*times, samples@, today as int, e@, k) > 0);
                        let w = choose|a: int| 0 <= a < t.names@.len() && t.names@[a]@ == e@ && t.kinds@[a] == k;
                        assert(false);
                    }
                },
            }
        }
        j += 1;
    }
    most
}

/// `names` are the entries named for kind `k`, in the order shown: up to
/// `SITES_EACH` of those with at least `SITE_MINUTES` in the week, each
/// ranked above the ones after it and above every such entry left out.
pub open spec fn named(times: Times, s: Seq<Recorded>, today: int, k: TimeKind, names: Seq<Seq<char>>) -> bool {
    &&& names.len() <= SITES_EACH
    &&& forall|i: int|
        0 <= i < names.len() ==> site_minutes(times, s, today, #[trigger] names[i], k) >= SITE_MINUTES
    &&& forall|i: int, j: int|
        0 <= i < j < names.len() ==> ranks_above(
            site_minutes(times, s, today, #[trigger] names[i], k) as int,
            names[i],
            site_minutes(times, s, today, #[trigger] names[j], k) as int,
            names[j],
        )
    &&& forall|e: Seq<char>|
        #[trigger] site_minutes(times, s, today, e, k) >= SITE_MINUTES && !names.contains(e)
            ==> names.len() == SITES_EACH && ranks_above(
            site_minutes(times, s, today, names.last(), k) as int,
            names.last(),
            site_minutes(times, s, today, e, k) as int,
            e,
        )
}

/// Bars for an entry with `m` minutes, against the most any entry had:
/// three from half of it, two from a fifth, else one.
pub open spec fn bars_for(m: int, most: int) -> u32 {
    if 2 * m >= most {
        3
    } else if 5 * m >= most {
        2
    } else {
        1
    }
}

pub open spec fn labels(r: Seq<DiarySite>) -> Seq<Seq<char>> {
    r.map_values(|d: DiarySite| d.label@)
}

/// `r` names the restoring entries, its first `n`, and then the wearing
/// ones, each with its bars.
pub open spec fn sites_named(times: Times, s: Seq<Recorded>, today: int, r: Seq<DiarySite>, n: int) -> bool {
    &&& 0 <= n <= r.len()
    &&& forall|i: int| 0 <= i < n ==> (#[trigger] r[i]).kind == TimeKind::Restoring
    &&& forall|i: int| n <= i < r.len() ==> (#[trigger] r[i]).kind == TimeKind::Wearing
    &&& named(times, s, today, TimeKind::Restoring, labels(r.take(n)))
    &&& named(times, s, today, TimeKind::Wearing, labels(r.skip(n)))
    &&& forall|i: int|
        0 <= i < r.len() ==> (#[trigger] r[i]).bars == bars_for(
            site_minutes(times, s, today, r[i].label@, r[i].kind) as int,
            most_minutes(times, s, today, s.len()) as int,
        )
}

fn bars(m: u64, most: u64) -> (b: u32)
    ensures
        b == bars_for(m as int, most as int),
{
    if (m as u128) * 2 >= most as u128 {
        3
    } else if (m as u128) * 5 >= most as u128 {
        2
    } else {
        1
    }
}

proof fn lemma_named(times: Times, s: Seq<Recorded>, today: int, t: SiteTotals, k: TimeKind, idx: Seq<usize>, names: Seq<Seq<char>>)
    requires
        t.holds(times, s, today),
        t.names@.len() <= usize::MAX,
        idx.len() <= SITES_EACH,
        forall|i: int| 0 <= i < idx.len() ==> t.eligible(k, #[trigger] idx[i] as int),
        forall|i: int, j: int| 0 <= i < j < idx.len() ==> t.row_ranks(#[trigger] idx[i] as int, #[trigger] idx[j] as int),
        forall|a: int|
            t.eligible(k, a) && !idx.contains(a as usize) ==> idx.len() == SITES_EACH && t.row_ranks(
                idx.last() as int,
                a,
            ),
        names.len() == idx.len(),
        forall|i: int| 0 <= i < idx.len() ==> #[trigger] names[i] == t.names@[idx[i] as int]@,
    ensures
        named(times, s, today, k, names),
{
    assert forall|i: int| 0 <= i < names.len() implies site_minutes(times, s, today, #[trigger] names[i], k) >= SITE_MINUTES by {
        assert(t.eligible(k, idx[i] as int));
        assert(t.counts@[idx[i] as int] == site_minutes(times, s, today, t.names@[idx[i] as int]@, t.kinds@[idx[i] as int]));
    }
    assert forall|i: int, j: int| 0 <= i < j < names.len() implies ranks_above(
        site_minutes(times, s, today, #[trigger] names[i], k) as int,
        names[i],
        site_minutes(times, s, today, #[trigger] names[j], k) as int,
        names[j],
    ) by {
        assert(t.eligible(k, idx[i] as int));
        assert(t.eligible(k, idx[j] as int));
        assert(t.counts@[idx[i] as int] == site_minutes(times, s, today, t.names@[idx[i] as int]@, t.kinds@[idx[i] as int]));
        assert(t.counts@[idx[j] as int] == site_minutes(times, s, today, t.names@[idx[j] as int]@, t.kinds@[idx[j] as int]));
        assert(t.row_ranks(idx[i] as int, idx[j] as int));
    }
    assert forall|e: Seq<char>|
        #[trigger] site_minutes(times, s, today, e, k) >= SITE_MINUTES && !names.contains(e)
        implies names.len() == SITES_EACH && ranks_above(
            site_minutes(times, s, today, names.last(), k) as int,
            names.last(),
            site_minutes(times, s, today, e, k) as int,
            e,
        ) by {
        assert(site_minutes(times, s, today, e, k) > 0);
        let a = choose|a: int| 0 <= a < t.names@.len() && t.names@[a]@ == e && t.kinds@[a] == k;
        assert(t.counts@[a] == site_minutes(times, s, today, t.names@[a]@, t.kinds@[a]));
        assert(t.eligible(k, a));
        assert(!idx.contains(a as usize)) by {
            if idx.contains(a as usize) {
                let i = choose|i: int| 0 <= i < idx.len() && idx[i] == a as usize;
                assert(idx[i] as int == a);
                assert(names[i] == t.names@[idx[i] as int]@);
                assert(names[i] == e);
            }
        }
        let l = idx.len() - 1;
        assert(names.last() == names[l]);
        assert(t.eligible(k, idx[l] as int));
        assert(t.counts@[idx[l] as int] == site_minutes(times, s, today, t.names@[idx[l] as int]@, t.kinds@[idx[l] as int]));
    }
}

/// `out` with a site for each row of `idx`.
fn push_sites(out: &mut Vec<DiarySite>, t: &SiteTotals, idx: &Vec<usize>, k: TimeKind, most: u64)
    requires
        t.names@.len() == t.counts@.len(),
        forall|i: int| 0 <= i < idx@.len() ==> #[trigger] idx@[i] < t.names@.len(),
    ensures
        final(out)@.len() == old(out)@.len() + idx@.len(),
        final(out)@.take(old(out)@.len() as int) == old(out)@,
        forall|i: int|
            0 <= i < idx@.len() ==> {
                let d = #[trigger] final(out)@[old(out)@.len() + i];
                &&& d.label@ == t.names@[idx@[i] as int]@
                &&& d.kind == k
                &&& d.bars == bars_for(t.counts@[idx@[i] as int] as int, most as int)
            },
{
    let ghost start = out@;
    let mut i: usize = 0;
    while i < idx.len()
        invariant
            t.names@.len() == t.counts@.len(),
            forall|i: int| 0 <= i < idx@.len() ==> #[trigger] idx@[i] < t.names@.len(),
            0 <= i <= idx@.len(),
            out@.len() == start.len() + i,
            out@.take(start.len() as int) == start,
            forall|j: int|
                0 <= j < i ==> {
                    let d = #[trigger] out@[start.len() + j];
                    &&& d.label@ == t.names@[idx@[j] as int]@
                    &&& d.kind == k
                    &&& d.bars == bars_for(t.counts@[idx@[j] as int] as int, most as int)
                },
        decreases idx.len() - i,
    {
        let a = idx[i];
        let site = DiarySite { label: string_of(&t.names[a]), kind: k, bars: bars(t.counts[a], most) };
        let ghost before = out@;
        out.push(site);
        assert(out@.take(start.len() as int) == before.take(start.len() as int));
        i += 1;
    }
}

/// Up to `SITES_EACH` restoring and then wearing list entries over the last
/// seven days, most time first. Ordinary entries, and minutes away or on no
/// entry, are never named.
pub fn sites(times: &Times, samples: &Vec<Recorded>, today: i64) -> (r: Vec<DiarySite>)
    requires
        times.wf(),
        day_in_reach(today as int),
    ensures
        exists|n: int| sites_named(*times, samples@, today as int, r@, n),
{
    let t = site_totals(times, samples, today);
    let most = most_of(times, samples, today, &t);
    let mut out: Vec<DiarySite> = Vec::new();
    let restoring = pick(&t, TimeKind::Restoring);
    push_sites(&mut out, &t, &restoring, TimeKind::Restoring, most);
    let ghost first = out@;
    assert forall|i: int| 0 <= i < restoring@.len() implies {
        let d = #[trigger] first[i];
        &&& d.label@ == t.names@[restoring@[i] as int]@
        &&& d.kind == TimeKind::Restoring
        &&& d.bars == bars_for(t.counts@[restoring@[i] as int] as int, most as int)
    } by {
        assert(first[0 + i] == first[i]);
    }
    let wearing = pick(&t, TimeKind::Wearing);
    push_sites(&mut out, &t, &wearing, TimeKind::Wearing, most);
    let rows = t.names.len();
    proof {
        let n = restoring@.len() as int;
        let r = out@;
        let s = samples@;
        assert(r.take(n) == first);
        assert forall|i: int| 0 <= i < r.len() implies (#[trigger] r[i]).bars == bars_for(
            site_minutes(*times, s, today as int, r[i].label@, r[i].kind) as int,
            most_minutes(*times, s, today as int, s.len()) as int,
        ) by {
            if i < n {
                assert(r[i] == first[i]);
                let a = restoring@[i] as int;
                assert(t.counts@[a] == site_minutes(*times, s, today as int, t.names@[a]@, t.kinds@[a]));
            } else {
                let a = wearing@[i - n] as int;
                assert(r[n + (i - n)] == r[i]);
                assert(t.counts@[a] == site_minutes(*times, s, today as int, t.names@[a]@, t.kinds@[a]));
            }
        }
        assert forall|i: int| 0 <= i < n implies (#[trigger] r[i]).kind == TimeKind::Restoring by {
            assert(r[i] == first[i]);
        }
        assert forall|i: int| n <= i < r.len() implies (#[trigger] r[i]).kind == TimeKind::Wearing by {
            assert(r[n + (i - n)] == r[i]);
        }
        let rn = labels(r.take(n));
        assert forall|i: int| 0 <= i < restoring@.len() implies #[trigger] rn[i] == t.names@[restoring@[i] as int]@ by {
            assert(r.take(n)[i] == first[i]);
        }
        lemma_named(*times, s, today as int, t, TimeKind::Restoring, restoring@, rn);
        let wn = labels(r.skip(n));
        assert forall|i: int| 0 <= i < wearing@.len() implies #[trigger] wn[i] == t.names@[wearing@[i] as int]@ by {
            assert(r.skip(n)[i] == r[n + i]);
        }
        lemma_named(*times, s, today as int, t, TimeKind::Wearing, wearing@, wn);
        assert(sites_named(*times, s, today as int, r, n));
    }
    out
}

/// Everything the diary counts: today and the first day with history,
/// today's line and the minute now, the last seven days, this week's time,
/// the weeks before, and the entries that moved the wisp. The sizes and
/// shares drawn from the tallies, the dose at each point and each day's
/// weather come from the doses these point to.
#[derive(Clone, Debug)]
pub struct Layout {
    pub today: i64,
    pub first_day: i64,
    pub line: Vec<Step>,
    pub now_minute: u32,
    pub week: Vec<DayRow>,
    pub this_week: Tally,
    pub earlier: Vec<WeekRow>,
    pub sites: Vec<DiarySite>,
}

/// The diary from the recorded minutes of the last `DAYS` days (oldest
/// first), the garden and the moment now.
pub fn layout(times: &Times, samples: &Vec<Recorded>, garden: &Vec<GardenDay>, now: Moment) -> (r: Layout)
    requires
        times.wf(),
    ensures
        r.today == day_number(*times, now),
        r.first_day == if samples@.len() == 0 {
            r.today as int
        } else {
            day_number(*times, samples@[0].at)
        },
        r.line@ == line_of(
            line_events(*times, samples@, r.today as int).push(
                (absolute_minute(now), minute_of_day_at(*times, now), None),
            ),
        ),
        r.now_minute == minute_of_day_at(*times, now),
        week_shows(*times, samples@, garden@, r.today as int, r.first_day as int, r.week@),
        r.this_week == tally_of(*times, samples@, r.today - 6, r.today + 1),
        earlier_shows(*times, samples@, garden@, r.today as int, r.first_day as int, r.earlier@),
        exists|n: int| sites_named(*times, samples@, r.today as int, r.sites@, n),
{
    let today = day_of(times, now);
    proof {
        lemma_day_in_reach(*times, now);
    }
    let first = first_day(times, samples, today);
    let named_sites = sites(times, samples, today);
    let ghost n = choose|n: int| sites_named(*times, samples@, today as int, named_sites@, n);
    let r = Layout {
        today,
        first_day: first,
        line: today_line(times, samples, today, now),
        now_minute: times.minute_of_day(now),
        week: week(times, samples, garden, today, first),
        this_week: tally(times, samples, today - 6, today + 1),
        earlier: earlier(times, samples, garden, today, first),
        sites: named_sites,
    };
    assert(sites_named(*times, samples@, r.today as int, r.sites@, n));
    r
}

} // verus!
