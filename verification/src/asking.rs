//! When the wisp asks how a site it hasn't met leaves the user.
//!
//! It only learns the time from the moments it is given. The companion tells
//! it, at every refresh, which unrated site is on screen while the user is
//! present, and it says whether a question is open and about which site.
//!
//! Which sites were asked about, and for how long each was visited, is kept
//! in memory only: sites on no list are never written down.

use vstd::prelude::*;

use crate::dose::Moment;
use crate::text::{chars_of, first_from, lemma_first_from, lemma_first_from_is, same};

verus! {

/// Time present on a site, over the day, before the wisp asks about it.
pub const ASK_AFTER_MS: i64 = 180_000;

/// Never within this long of a key press.
pub const QUIET_AFTER_TYPING_MS: i64 = 10_000;

/// Questions a day, at most.
pub const PER_DAY: u32 = 3;

/// What the companion sees at a refresh.
#[derive(Clone, Copy, Debug)]
pub struct Seen<'a> {
    pub now: Moment,
    /// The day `now` falls in (days start at the day boundary, not midnight).
    pub day: i64,
    /// The rateable site on screen while the user is present: on no list,
    /// not a carve-out, not private. `None` when away or anywhere else.
    pub site: Option<&'a str>,
    /// The setting is on and it isn't night.
    pub allowed: bool,
    pub last_typed: Option<Moment>,
}

#[derive(Debug)]
pub struct Asker {
    day: i64,
    asked_today: u32,
    asked: Vec<String>,
    time_on: Vec<(String, i64)>,
    /// The site being visited at the last refresh, and when that was.
    visiting: Option<(String, Moment)>,
    open: Option<String>,
    /// When a question can next open, as of the last refresh.
    due: Option<Moment>,
}

/// What an `Asker` knows.
pub struct Model {
    pub day: int,
    pub asked_today: int,
    /// Sites asked about today, in the order they were asked.
    pub asked: Seq<Seq<char>>,
    /// Milliseconds present on each site today, in the order first met.
    pub time_on: Seq<(Seq<char>, int)>,
    pub visiting: Option<(Seq<char>, Moment)>,
    pub open: Option<Seq<char>>,
    pub due: Option<Moment>,
}

pub open spec fn str_opt(s: Option<&str>) -> Option<Seq<char>> {
    match s {
        Some(s) => Some(s@),
        None => None,
    }
}

pub open spec fn string_opt(s: Option<String>) -> Option<Seq<char>> {
    match s {
        Some(s) => Some(s@),
        None => None,
    }
}

/// Where `site` is in `entries`, or -1.
pub open spec fn entry_index(entries: Seq<(Seq<char>, int)>, site: Seq<char>) -> int {
    first_from(entries.len() as int, |i: int| entries[i].0 == site, 0)
}

/// Milliseconds recorded on `site`.
pub open spec fn time_of(entries: Seq<(Seq<char>, int)>, site: Seq<char>) -> int {
    let i = entry_index(entries, site);
    if i == -1 {
        0
    } else {
        entries[i].1
    }
}

/// `entries` with `ms` more on `site`.
pub open spec fn add_time(entries: Seq<(Seq<char>, int)>, site: Seq<char>, ms: int) -> Seq<
    (Seq<char>, int),
> {
    let i = entry_index(entries, site);
    if i == -1 {
        entries.push((site, ms))
    } else {
        entries.update(i, (site, entries[i].1 + ms))
    }
}

/// A new day forgets everything but the open question and when one was due.
pub open spec fn on_day(m: Model, day: int) -> Model {
    if day != m.day {
        Model {
            day,
            asked_today: 0,
            asked: Seq::empty(),
            time_on: Seq::empty(),
            visiting: None,
            open: m.open,
            due: m.due,
        }
    } else {
        m
    }
}

/// The visit that was going on is counted up to now.
pub open spec fn counted(m: Model, now: Moment) -> Seq<(Seq<char>, int)> {
    match m.visiting {
        Some((site, since)) => add_time(
            m.time_on,
            site,
            if now.ms - since.ms > 0 {
                now.ms - since.ms
            } else {
                0
            },
        ),
        None => m.time_on,
    }
}

/// When a question about `site` could open: once enough time has been
/// spent on it, and not within the quiet after typing.
pub open spec fn due_ms(time_on: Seq<(Seq<char>, int)>, site: Seq<char>, seen: Seen) -> int {
    let at_time = seen.now.ms - time_of(time_on, site) + ASK_AFTER_MS;
    match seen.last_typed {
        Some(t) => if t.ms + QUIET_AFTER_TYPING_MS > at_time {
            t.ms + QUIET_AFTER_TYPING_MS
        } else {
            at_time
        },
        None => at_time,
    }
}

/// What a refresh does: the new state, and whether the open question
/// changed.
pub open spec fn observe_spec(m: Model, seen: Seen) -> (Model, bool) {
    let m1 = on_day(m, seen.day as int);
    let time_on = counted(m1, seen.now);
    let visiting = match seen.site {
        Some(site) => Some((site@, seen.now)),
        None => None,
    };
    let open = if !seen.allowed || m1.open != str_opt(seen.site) {
        None
    } else {
        m1.open
    };
    let base = Model { time_on, visiting, open, due: None, ..m1 };
    let after = match seen.site {
        Some(site) => if open is None && seen.allowed && m1.asked_today < PER_DAY
            && !m1.asked.contains(site@) {
            let due = due_ms(time_on, site@, seen);
            if due <= seen.now.ms {
                Model {
                    asked: m1.asked.push(site@),
                    asked_today: m1.asked_today + 1,
                    open: Some(site@),
                    ..base
                }
            } else {
                Model { due: Some(Moment { ms: due as i64, utc_offset_s: seen.now.utc_offset_s }), ..base }
            }
        } else {
            base
        },
        None => base,
    };
    (after, after.open != m.open)
}

/// A refresh whose sums stay within `i64`: the visit so far added to the
/// time already on its site, and the moment a question would be due.
pub open spec fn fits(m: Model, seen: Seen) -> bool {
    let m1 = on_day(m, seen.day as int);
    let time_on = counted(m1, seen.now);
    &&& match m1.visiting {
        Some((site, since)) => {
            let gap = seen.now.ms - since.ms;
            i64::MIN <= gap <= i64::MAX && i64::MIN <= time_of(m1.time_on, site) + (if gap > 0 {
                gap
            } else {
                0
            }) <= i64::MAX
        },
        None => true,
    }
    &&& match seen.site {
        Some(site) => {
            &&& i64::MIN <= seen.now.ms - time_of(time_on, site@) <= i64::MAX
            &&& i64::MIN <= seen.now.ms - time_of(time_on, site@) + ASK_AFTER_MS <= i64::MAX
        },
        None => true,
    }
    &&& match seen.last_typed {
        Some(t) => t.ms + QUIET_AFTER_TYPING_MS <= i64::MAX,
        None => true,
    }
}

/// No site twice.
pub open spec fn no_repeats(sites: Seq<Seq<char>>) -> bool {
    forall|i: int, j: int| 0 <= i < j < sites.len() ==> sites[i] != sites[j]
}

/// Never more than `PER_DAY` questions a day, and never the same site twice
/// on one day: a refresh keeps the day's count within `PER_DAY`, counts one
/// more only for a site not yet asked about that day, and keeps the count
/// the number of sites asked about.
pub proof fn never_more_than_three_a_day_and_only_once(m: Model, seen: Seen)
    requires
        m.asked_today <= PER_DAY,
        m.asked_today == m.asked.len(),
        no_repeats(m.asked),
    ensures
        observe_spec(m, seen).0.asked_today <= PER_DAY,
        observe_spec(m, seen).0.asked_today == observe_spec(m, seen).0.asked.len(),
        no_repeats(observe_spec(m, seen).0.asked),
{
    let m1 = on_day(m, seen.day as int);
    let after = observe_spec(m, seen).0;
    if after.asked != m1.asked {
        let site = seen.site.unwrap()@;
        assert(after.asked == m1.asked.push(site));
        assert(!m1.asked.contains(site));
        assert forall|i: int, j: int| 0 <= i < j < after.asked.len() implies after.asked[i] != after.asked[j] by {
            if j == after.asked.len() - 1 {
                assert(after.asked[j] == site);
                assert(after.asked[i] == m1.asked[i]);
            } else {
                assert(after.asked[i] == m1.asked[i]);
                assert(after.asked[j] == m1.asked[j]);
            }
        }
    }
}


/// A question opens only by being counted: when a refresh opens a question
/// that was not open, its site joins the day's sites asked about and the
/// day's count goes up by one; a refresh on a new day starts both afresh.
pub proof fn every_question_opened_is_counted(m: Model, seen: Seen)
    ensures
        ({
            let m1 = on_day(m, seen.day as int);
            let after = observe_spec(m, seen).0;
            &&& (after.open is Some && after.open != m1.open) ==> (after.asked == m1.asked.push(
                after.open->0,
            ) && after.asked_today == m1.asked_today + 1)
            &&& !(after.open is Some && after.open != m1.open) ==> (after.asked == m1.asked
                && after.asked_today == m1.asked_today)
            &&& seen.day != m.day ==> (m1.asked.len() == 0 && m1.asked_today == 0)
        }),
{
}

/// The question a refresh opens, if it opens one: a site whose question was
/// not open before.
pub open spec fn opens(m: Model, seen: Seen) -> Option<Seq<char>> {
    let after = observe_spec(m, seen).0;
    if after.open is Some && after.open != on_day(m, seen.day as int).open {
        after.open
    } else {
        None
    }
}

/// The state after a run of refreshes.
pub open spec fn run<'a>(m: Model, seens: Seq<Seen<'a>>) -> Model
    decreases seens.len(),
{
    if seens.len() == 0 {
        m
    } else {
        observe_spec(run(m, seens.drop_last()), seens.last()).0
    }
}

/// The questions a run of refreshes opens, in order.
pub open spec fn opened<'a>(m: Model, seens: Seq<Seen<'a>>) -> Seq<Seq<char>>
    decreases seens.len(),
{
    if seens.len() == 0 {
        Seq::empty()
    } else {
        let before = opened(m, seens.drop_last());
        match opens(run(m, seens.drop_last()), seens.last()) {
            Some(s) => before.push(s),
            None => before,
        }
    }
}

/// A question opens only when it is due: the asking is allowed, its site is
/// on screen, the user has spent `ASK_AFTER_MS` on that site this day, the
/// quiet after typing is over, the site has not been asked about this day,
/// and fewer than `PER_DAY` questions were asked.
pub proof fn a_question_opens_only_when_due(m: Model, seen: Seen)
    ensures
        opens(m, seen) matches Some(s) ==> {
            let m1 = on_day(m, seen.day as int);
            &&& seen.allowed
            &&& str_opt(seen.site) == Some(s)
            &&& time_of(counted(m1, seen.now), s) >= ASK_AFTER_MS
            &&& (seen.last_typed matches Some(t) ==> seen.now.ms >= t.ms + QUIET_AFTER_TYPING_MS)
            &&& !m1.asked.contains(s)
            &&& m1.asked_today < PER_DAY
        },
{
}

/// Over any run of refreshes within one day `d`: the questions it opens
/// are those the day's count adds, so with the ones asked before on that
/// day they are at most `PER_DAY`, and no site is asked about twice. A run
/// on a new day starts from none.
pub proof fn questions_over_a_day<'a>(m: Model, seens: Seq<Seen<'a>>, d: int)
    requires
        m.asked_today <= PER_DAY,
        m.asked_today == m.asked.len(),
        no_repeats(m.asked),
        forall|i: int| 0 <= i < seens.len() ==> (#[trigger] seens[i]).day == d,
    ensures
        on_day(run(m, seens), d).asked == on_day(m, d).asked + opened(m, seens),
        on_day(m, d).asked.len() + opened(m, seens).len() <= PER_DAY,
        no_repeats(on_day(m, d).asked + opened(m, seens)),
        opened(m, seens).len() <= PER_DAY,
        no_repeats(opened(m, seens)),
        m.day != d ==> on_day(m, d).asked.len() == 0,
        run(m, seens).asked_today <= PER_DAY,
        run(m, seens).asked_today == run(m, seens).asked.len(),
        no_repeats(run(m, seens).asked),
    decreases seens.len(),
{
    let a = on_day(m, d).asked;
    if seens.len() == 0 {
        assert(opened(m, seens) == Seq::<Seq<char>>::empty());
        assert(a + opened(m, seens) == a);
    } else {
        let rest = seens.drop_last();
        let last = seens.last();
        assert forall|i: int| 0 <= i < rest.len() implies (#[trigger] rest[i]).day == d by {
            assert(rest[i] == seens[i]);
        }
        questions_over_a_day(m, rest, d);
        let pre = run(m, rest);
        never_more_than_three_a_day_and_only_once(pre, last);
        every_question_opened_is_counted(pre, last);
        assert(last == seens[seens.len() - 1]);
        assert(last.day == d);
        let after = run(m, seens);
        assert(after == observe_spec(pre, last).0);
        assert(on_day(after, d) == after);
        match opens(pre, last) {
            Some(s) => {
                assert(opened(m, seens) == opened(m, rest).push(s));
                assert(after.asked == on_day(pre, d).asked.push(s));
                assert(a + opened(m, seens) == (a + opened(m, rest)).push(s));
            },
            None => {
                assert(opened(m, seens) == opened(m, rest));
                assert(after.asked == on_day(pre, d).asked);
            },
        }
    }
    let all = a + opened(m, seens);
    assert(on_day(run(m, seens), d).asked_today <= PER_DAY);
    assert forall|i: int, j: int|
        0 <= i < j < opened(m, seens).len() implies opened(m, seens)[i] != opened(m, seens)[j] by {
        assert(opened(m, seens)[i] == all[a.len() + i]);
        assert(opened(m, seens)[j] == all[a.len() + j]);
    }
}

pub open spec fn entry_view(e: (String, i64)) -> (Seq<char>, int) {
    (e.0@, e.1 as int)
}

impl Asker {
    pub closed spec fn model(&self) -> Model {
        Model {
            day: self.day as int,
            asked_today: self.asked_today as int,
            asked: self.asked@.map_values(|s: String| s@),
            time_on: self.time_on@.map_values(|e: (String, i64)| entry_view(e)),
            visiting: match self.visiting {
                Some((s, at)) => Some((s@, at)),
                None => None,
            },
            open: string_opt(self.open),
            due: self.due,
        }
    }

    /// No more questions than a day allows, one for each site asked about,
    /// and no site asked about twice.
    pub closed spec fn wf(&self) -> bool {
        &&& self.asked_today <= PER_DAY
        &&& self.model().asked_today == self.model().asked.len()
        &&& no_repeats(self.model().asked)
    }

    pub fn new() -> (r: Asker)
        ensures
            r.wf(),
            r.model() == (Model {
                day: 0,
                asked_today: 0,
                asked: Seq::empty(),
                time_on: Seq::empty(),
                visiting: None,
                open: None,
                due: None,
            }),
    {
        let r = Asker {
            day: 0,
            asked_today: 0,
            asked: Vec::new(),
            time_on: Vec::new(),
            visiting: None,
            open: None,
            due: None,
        };
        assert(r.model().asked == Seq::<Seq<char>>::empty());
        assert(r.model().time_on == Seq::<(Seq<char>, int)>::empty());
        r
    }

    fn index_of(&self, site: &[char]) -> (r: Option<usize>)
        ensures
            match r {
                Some(i) => entry_index(self.model().time_on, site@) == i && i
                    < self.time_on@.len(),
                None => entry_index(self.model().time_on, site@) == -1,
            },
    {
        let ghost es = self.model().time_on;
        let ghost p = |i: int| es[i].0 == site@;
        let mut i: usize = 0;
        while i < self.time_on.len()
            invariant
                0 <= i <= self.time_on@.len(),
                es == self.model().time_on,
                es.len() == self.time_on@.len(),
                p == (|i: int| es[i].0 == site@),
                forall|j: int| 0 <= j < i ==> !#[trigger] p(j),
            decreases self.time_on.len() - i,
        {
            assert(es[i as int] == entry_view(self.time_on@[i as int]));
            if same(&chars_of(self.time_on[i].0.as_str()), site) {
                proof {
                    lemma_first_from_is(es.len() as int, p, 0, i as int);
                }
                return Some(i);
            }
            i += 1;
        }
        proof {
            lemma_first_from_is(es.len() as int, p, 0, -1);
        }
        None
    }

    fn time_on_site(&self, site: &[char]) -> (r: i64)
        ensures
            r == time_of(self.model().time_on, site@),
    {
        match self.index_of(site) {
            Some(i) => {
                assert(self.model().time_on[i as int] == entry_view(self.time_on@[i as int]));
                self.time_on[i].1
            },
            None => 0,
        }
    }

    fn was_asked(&self, site: &[char]) -> (r: bool)
        ensures
            r == self.model().asked.contains(site@),
    {
        let ghost asked = self.model().asked;
        let mut i: usize = 0;
        while i < self.asked.len()
            invariant
                0 <= i <= self.asked@.len(),
                asked == self.model().asked,
                asked.len() == self.asked@.len(),
                forall|j: int| 0 <= j < i ==> asked[j] != site@,
            decreases self.asked.len() - i,
        {
            assert(asked[i as int] == self.asked@[i as int]@);
            if same(&chars_of(self.asked[i].as_str()), site) {
                return true;
            }
            i += 1;
        }
        false
    }

    fn add_time_on(&mut self, site: String, ms: i64)
        requires
            i64::MIN <= time_of(old(self).model().time_on, site@) + ms <= i64::MAX,
        ensures
            final(self).model() == (Model {
                time_on: add_time(old(self).model().time_on, site@, ms as int),
                ..old(self).model()
            }),
            final(self).wf() == old(self).wf(),
    {
        let ghost before = self.time_on@;
        let key = chars_of(site.as_str());
        match self.index_of(&key) {
            Some(i) => {
                proof {
                    lemma_first_from(
                        before.len() as int,
                        |k: int| self.model().time_on[k].0 == site@,
                        0,
                    );
                }
                let total = self.time_on[i].1 + ms;
                assert(self.model().time_on[i as int] == entry_view(self.time_on@[i as int]));
                self.time_on.set(i, (site, total));
                assert(self.time_on@.map_values(|e: (String, i64)| entry_view(e)) == before.map_values(
                    |e: (String, i64)| entry_view(e),
                ).update(i as int, entry_view(self.time_on@[i as int])));
            },
            None => {
                self.time_on.push((site, ms));
                assert(self.time_on@.map_values(|e: (String, i64)| entry_view(e)) == before.map_values(
                    |e: (String, i64)| entry_view(e),
                ).push(entry_view(self.time_on@.last())));
            },
        }
    }

    /// Take in a refresh. Returns whether the open question changed.
    pub fn observe(&mut self, seen: Seen) -> (r: bool)
        requires
            old(self).wf(),
            fits(old(self).model(), seen),
        ensures
            final(self).wf(),
            (final(self).model(), r) == observe_spec(old(self).model(), seen),
    {
        proof {
            never_more_than_three_a_day_and_only_once(self.model(), seen);
        }
        let ghost m0 = self.model();
        let before = match &self.open {
            Some(s) => Some(s.clone()),
            None => None,
        };
        if seen.day != self.day {
            self.day = seen.day;
            self.asked_today = 0;
            self.asked = Vec::new();
            self.time_on = Vec::new();
            self.visiting = None;
            assert(self.model().asked == Seq::<Seq<char>>::empty());
            assert(self.model().time_on == Seq::<(Seq<char>, int)>::empty());
        }
        let ghost m1 = self.model();
        assert(m1 == on_day(m0, seen.day as int));
        let visiting = self.visiting.take();
        match visiting {
            Some((site, since)) => {
                let gap = seen.now.ms - since.ms;
                let gap = if gap > 0 {
                    gap
                } else {
                    0
                };
                self.add_time_on(site, gap);
            },
            None => {},
        }
        assert(self.model().time_on == counted(m1, seen.now));
        self.visiting = match seen.site {
            Some(site) => Some((site.to_owned(), seen.now)),
            None => None,
        };
        let same_site = match (&self.open, seen.site) {
            (Some(open), Some(site)) => same(&chars_of(open.as_str()), &chars_of(site)),
            (None, None) => true,
            _ => false,
        };
        if !seen.allowed || !same_site {
            self.open = None;
        }
        self.due = None;
        match seen.site {
            Some(site) => {
                let key = chars_of(site);
                if self.open.is_none() && seen.allowed && self.asked_today < PER_DAY
                    && !self.was_asked(&key) {
                    let visited = self.time_on_site(&key);
                    let at_time = seen.now.ms - visited + ASK_AFTER_MS;
                    let due = match seen.last_typed {
                        Some(t) => {
                            let quiet = t.ms + QUIET_AFTER_TYPING_MS;
                            if quiet > at_time {
                                quiet
                            } else {
                                at_time
                            }
                        },
                        None => at_time,
                    };
                    if due <= seen.now.ms {
                        let ghost asked_before = self.asked@;
                        self.asked.push(site.to_owned());
                        assert(self.asked@.map_values(|s: String| s@) == asked_before.map_values(
                            |s: String| s@,
                        ).push(site@));
                        self.asked_today = self.asked_today + 1;
                        self.open = Some(site.to_owned());
                    } else {
                        self.due = Some(Moment { ms: due, utc_offset_s: seen.now.utc_offset_s });
                    }
                }
            },
            None => {},
        }
        match (&self.open, &before) {
            (Some(a), Some(b)) => !same(&chars_of(a.as_str()), &chars_of(b.as_str())),
            (None, None) => false,
            _ => true,
        }
    }

    /// What every `Asker` keeps, call after call: at most `PER_DAY`
    /// questions on the current day, each about a different site, and the
    /// count is the number of sites asked about.
    pub proof fn at_most_three_different_sites_a_day(&self)
        requires
            self.wf(),
        ensures
            self.model().asked_today <= PER_DAY,
            self.model().asked_today == self.model().asked.len(),
            no_repeats(self.model().asked),
    {
    }

    /// The site the open question is about.
    pub fn question(&self) -> (r: Option<&str>)
        ensures
            str_opt(r) == self.model().open,
    {
        match &self.open {
            Some(s) => Some(s.as_str()),
            None => None,
        }
    }

    /// When a question could open if nothing else changes, so the companion
    /// can wake then.
    pub fn due(&self) -> (r: Option<Moment>)
        ensures
            r == self.model().due,
    {
        self.due
    }

    /// The user answered, said not now, or let the question fade. Returns
    /// whether it was the open question.
    pub fn close(&mut self, site: &str) -> (r: bool)
        requires
            old(self).wf(),
        ensures
            final(self).wf(),
            r == (old(self).model().open == Some(site@)),
            final(self).model() == if r {
                Model { open: None, ..old(self).model() }
            } else {
                old(self).model()
            },
    {
        let is_open = match &self.open {
            Some(s) => same(&chars_of(s.as_str()), &chars_of(site)),
            None => false,
        };
        if is_open {
            self.open = None;
            true
        } else {
            false
        }
    }
}

impl Default for Asker {
    /// Nothing met, nothing asked.
    fn default() -> (r: Asker)
        ensures
            r.wf(),
            r.model() == (Model {
                day: 0,
                asked_today: 0,
                asked: Seq::empty(),
                time_on: Seq::empty(),
                visiting: None,
                open: None,
                due: None,
            }),
    {
        Asker::new()
    }
}

} // verus!
