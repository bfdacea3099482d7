//! Home: what the local home page says, as pure functions of what Glimmerwood
//! already knows. The shell gathers the facts; the words come from the bundled
//! words file.

use vstd::prelude::*;

use crate::dose::{local_seconds, rem_floor, Moment};
use crate::text::{chars_of, same};

verus! {

#[derive(Clone, Copy, Debug, PartialEq, Eq, Hash, Structural)]
pub enum PartOfDay {
    Morning,
    Day,
    Evening,
    Night,
}

/// One of something for each part of the day.
#[derive(Clone, Debug)]
pub struct ByPart<T> {
    pub morning: T,
    pub day: T,
    pub evening: T,
    pub night: T,
}

impl<T> ByPart<T> {
    pub open spec fn at(&self, part: PartOfDay) -> T {
        match part {
            PartOfDay::Morning => self.morning,
            PartOfDay::Day => self.day,
            PartOfDay::Evening => self.evening,
            PartOfDay::Night => self.night,
        }
    }

    pub fn get(&self, part: PartOfDay) -> (r: &T)
        ensures
            *r == self.at(part),
    {
        match part {
            PartOfDay::Morning => &self.morning,
            PartOfDay::Day => &self.day,
            PartOfDay::Evening => &self.evening,
            PartOfDay::Night => &self.night,
        }
    }
}

/// The local hour (0 to 23) of a moment.
pub open spec fn local_hour(at: Moment) -> int {
    (local_seconds(at) % 86_400) / 3600
}

/// The part of the day by the clock, given the hours each part begins at.
pub open spec fn part_by_clock(moments: ByPart<u32>, hour: int) -> PartOfDay {
    if hour >= moments.night || hour < moments.morning {
        PartOfDay::Night
    } else if hour >= moments.evening {
        PartOfDay::Evening
    } else if hour >= moments.day {
        PartOfDay::Day
    } else {
        PartOfDay::Morning
    }
}

/// Where the light is by the clock, for a place whose sun isn't known.
pub fn by_the_clock(moments: &ByPart<u32>, at: Moment) -> (r: PartOfDay)
    ensures
        r == part_by_clock(*moments, local_hour(at)),
{
    let hour = (rem_floor(at.local_s(), 86_400) / 3600) as u32;
    let m = moments;
    if hour >= m.night || hour < m.morning {
        PartOfDay::Night
    } else if hour >= m.evening {
        PartOfDay::Evening
    } else if hour >= m.day {
        PartOfDay::Day
    } else {
        PartOfDay::Morning
    }
}

/// The wisp introducing itself and what Glimmerwood is for, until dismissed.
#[derive(Clone, Debug)]
pub struct About {
    pub title: String,
    pub paragraphs: Vec<String>,
    pub done: String,
}

/// Something Home explains once. `About` is the wisp's introduction; the
/// others are explained once the user has met them.
#[derive(Clone, Copy, Debug, PartialEq, Eq, Hash, Structural)]
pub enum Topic {
    About,
    Draining,
    Night,
    Privacy,
}

pub open spec fn topic_key(t: Topic) -> Seq<char> {
    match t {
        Topic::About => "about"@,
        Topic::Draining => "draining"@,
        Topic::Night => "night"@,
        Topic::Privacy => "privacy"@,
    }
}

pub open spec fn topic_from_key(key: Seq<char>) -> Option<Topic> {
    if key == "about"@ {
        Some(Topic::About)
    } else if key == "draining"@ {
        Some(Topic::Draining)
    } else if key == "night"@ {
        Some(Topic::Night)
    } else if key == "privacy"@ {
        Some(Topic::Privacy)
    } else {
        None
    }
}

impl Topic {
    pub fn key(self) -> (r: &'static str)
        ensures
            r@ == topic_key(self),
    {
        match self {
            Topic::About => "about",
            Topic::Draining => "draining",
            Topic::Night => "night",
            Topic::Privacy => "privacy",
        }
    }

    pub fn from_key(key: &str) -> (r: Option<Topic>)
        ensures
            r == topic_from_key(key@),
    {
        let k = chars_of(key);
        if same(&k, &chars_of("about")) {
            Some(Topic::About)
        } else if same(&k, &chars_of("draining")) {
            Some(Topic::Draining)
        } else if same(&k, &chars_of("night")) {
            Some(Topic::Night)
        } else if same(&k, &chars_of("privacy")) {
            Some(Topic::Privacy)
        } else {
            None
        }
    }
}

/// What a day left in the garden.
#[derive(Clone, Copy, Debug, PartialEq, Eq, Structural)]
pub enum Plant {
    /// A quiet day, mostly away from the screen: rain and moss.
    Moss,
    /// More nourishing time than draining: new leaves and ferns.
    Fern,
    /// A gentle day: flowers.
    Flower,
}

pub open spec fn plant_key(p: Plant) -> Seq<char> {
    match p {
        Plant::Moss => "moss"@,
        Plant::Fern => "fern"@,
        Plant::Flower => "flower"@,
    }
}

pub open spec fn plant_from_key(key: Seq<char>) -> Option<Plant> {
    if key == "moss"@ {
        Some(Plant::Moss)
    } else if key == "fern"@ {
        Some(Plant::Fern)
    } else if key == "flower"@ {
        Some(Plant::Flower)
    } else {
        None
    }
}

impl Plant {
    pub fn key(self) -> (r: &'static str)
        ensures
            r@ == plant_key(self),
    {
        match self {
            Plant::Moss => "moss",
            Plant::Fern => "fern",
            Plant::Flower => "flower",
        }
    }

    pub fn from_key(key: &str) -> (r: Option<Plant>)
        ensures
            r == plant_from_key(key@),
    {
        let k = chars_of(key);
        if same(&k, &chars_of("moss")) {
            Some(Plant::Moss)
        } else if same(&k, &chars_of("fern")) {
            Some(Plant::Fern)
        } else if same(&k, &chars_of("flower")) {
            Some(Plant::Flower)
        } else {
            None
        }
    }
}

/// What Home's greeting says.
#[derive(Clone, Debug, PartialEq)]
pub struct Greeting {
    pub title: String,
    pub line: String,
    pub explain: Option<(Topic, String)>,
    /// The wisp introduces itself, until the user dismisses it.
    pub about: bool,
}

/// The words of praise Home's greeting can pick.
#[derive(Clone, Copy, Debug, PartialEq, Eq, Structural)]
pub enum Praise {
    Garden,
    TookABreak,
    Rested,
    Restoring,
    Gentle,
    CalmNight,
}

/// What went well, each said only when it did: the garden grew yesterday,
/// a break was taken today, time away left the wisp rested, the week was
/// spent on nourishing sites, today was gentle, and yesterday was gentle
/// with a quiet night.
#[derive(Clone, Copy, Debug, PartialEq, Eq, Structural)]
pub struct WentWell {
    pub garden_grew_yesterday: bool,
    pub took_a_break: bool,
    pub rested: bool,
    pub restoring: bool,
    pub gentle: bool,
    pub calm_night: bool,
}

/// The praise for the first thing in Home's order that went well; the
/// garden and a calm night only in the morning. None when nothing did.
pub open spec fn praise_spec(went: WentWell, part: PartOfDay) -> Option<Praise> {
    if went.garden_grew_yesterday && part == PartOfDay::Morning {
        Some(Praise::Garden)
    } else if went.took_a_break {
        Some(Praise::TookABreak)
    } else if went.rested {
        Some(Praise::Rested)
    } else if went.restoring {
        Some(Praise::Restoring)
    } else if went.gentle {
        Some(Praise::Gentle)
    } else if part == PartOfDay::Morning && went.calm_night {
        Some(Praise::CalmNight)
    } else {
        None
    }
}

/// Praise is only ever for what went well, and for the first of it in
/// Home's order: the garden (mornings only), a break, rest, a restoring
/// week, a gentle day, a calm night (mornings only). Each praise names a
/// thing that went well, nothing earlier in that order went well, and there
/// is praise whenever anything praiseable went well.
pub proof fn praise_is_for_what_went_well(went: WentWell, part: PartOfDay)
    ensures
        ({
            let r = praise_spec(went, part);
            let morning = part == PartOfDay::Morning;
            &&& r == Some(Praise::Garden) ==> went.garden_grew_yesterday && morning
            &&& r == Some(Praise::TookABreak) ==> went.took_a_break && !(
            went.garden_grew_yesterday && morning)
            &&& r == Some(Praise::Rested) ==> went.rested && !went.took_a_break && !(
            went.garden_grew_yesterday && morning)
            &&& r == Some(Praise::Restoring) ==> went.restoring && !went.rested && !went.took_a_break
                && !(went.garden_grew_yesterday && morning)
            &&& r == Some(Praise::Gentle) ==> went.gentle && !went.restoring && !went.rested
                && !went.took_a_break && !(went.garden_grew_yesterday && morning)
            &&& r == Some(Praise::CalmNight) ==> went.calm_night && morning && !went.gentle
                && !went.restoring && !went.rested && !went.took_a_break
                && !went.garden_grew_yesterday
            &&& r is None <==> !(went.garden_grew_yesterday && morning) && !went.took_a_break
                && !went.rested && !went.restoring && !went.gentle && !(went.calm_night && morning)
        }),
{
}

pub fn praise(went: WentWell, part: PartOfDay) -> (r: Option<Praise>)
    ensures
        r == praise_spec(went, part),
{
    if went.garden_grew_yesterday && part == PartOfDay::Morning {
        Some(Praise::Garden)
    } else if went.took_a_break {
        Some(Praise::TookABreak)
    } else if went.rested {
        Some(Praise::Rested)
    } else if went.restoring {
        Some(Praise::Restoring)
    } else if went.gentle {
        Some(Praise::Gentle)
    } else if part == PartOfDay::Morning && went.calm_night {
        Some(Praise::CalmNight)
    } else {
        None
    }
}

fn includes(topics: &Vec<Topic>, t: Topic) -> (r: bool)
    ensures
        r == topics@.contains(t),
{
    let mut i: usize = 0;
    while i < topics.len()
        invariant
            0 <= i <= topics@.len(),
            forall|j: int| 0 <= j < i ==> topics@[j] != t,
        decreases topics.len() - i,
    {
        if topics[i] == t {
            return true;
        }
        i += 1;
    }
    false
}

/// Whether the wisp still introduces itself, and what else Home explains:
/// nothing until the introduction has been read, then the first of
/// draining, night and privacy that has been met and not yet explained.
pub open spec fn to_explain_spec(met: Seq<Topic>, explained: Seq<Topic>) -> (bool, Option<Topic>) {
    let about = !explained.contains(Topic::About);
    let due = |t: Topic| met.contains(t) && !explained.contains(t);
    (
        about,
        if about {
            None
        } else if due(Topic::Draining) {
            Some(Topic::Draining)
        } else if due(Topic::Night) {
            Some(Topic::Night)
        } else if due(Topic::Privacy) {
            Some(Topic::Privacy)
        } else {
            None
        },
    )
}

pub fn to_explain(met: &Vec<Topic>, explained: &Vec<Topic>) -> (r: (bool, Option<Topic>))
    ensures
        r == to_explain_spec(met@, explained@),
{
    let about = !includes(explained, Topic::About);
    if about {
        return (about, None);
    }
    if includes(met, Topic::Draining) && !includes(explained, Topic::Draining) {
        (about, Some(Topic::Draining))
    } else if includes(met, Topic::Night) && !includes(explained, Topic::Night) {
        (about, Some(Topic::Night))
    } else if includes(met, Topic::Privacy) && !includes(explained, Topic::Privacy) {
        (about, Some(Topic::Privacy))
    } else {
        (about, None)
    }
}

/// The line of `lines` for day `day`: each day the next, in turn; nothing
/// when there are none.
pub fn line_for_day(lines: &Vec<String>, day: i64) -> (r: String)
    ensures
        r@ == if lines@.len() == 0 {
            Seq::<char>::empty()
        } else {
            lines@[day as int % lines@.len() as int]@
        },
{
    let n = lines.len();
    if n == 0 {
        return String::new();
    }
    let i: usize = if n as u64 <= 0x7fff_ffff_ffff_ffff {
        rem_floor(day, n as i64) as usize
    } else if day >= 0 {
        assert(day as int % n as int == day as int) by (nonlinear_arith)
            requires
                0 <= day < n,
        ;
        day as usize
    } else {
        assert(day as int % n as int == day as int + n as int) by (nonlinear_arith)
            requires
                -n <= day < 0,
        ;
        (n as i128 + day as i128) as usize
    };
    lines[i].clone()
}

/// Each topic is found again by its key.
pub proof fn topic_keys_come_back(t: Topic)
    ensures
        topic_from_key(topic_key(t)) == Some(t),
{
    reveal_strlit("about");
    reveal_strlit("draining");
    reveal_strlit("night");
    reveal_strlit("privacy");
    assert("about"@[0] == 'a' && "draining"@[0] == 'd' && "night"@[0] == 'n' && "privacy"@[0]
        == 'p');
}

/// Each plant is found again by its key.
pub proof fn plant_keys_come_back(p: Plant)
    ensures
        plant_from_key(plant_key(p)) == Some(p),
{
    reveal_strlit("moss");
    reveal_strlit("fern");
    reveal_strlit("flower");
    assert("moss"@[0] == 'm' && "fern"@[0] == 'f' && "flower"@[0] == 'f');
    assert("fern"@.len() != "flower"@.len());
}

} // verus!
