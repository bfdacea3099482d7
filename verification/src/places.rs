//! Good places: which sites Home offers, and when.
//!
//! Home offers the user's own nourishing places first, then suggestions
//! picked afresh for each stretch of the day: fitting the part of the day,
//! the season and where the user is, never anything that isn't on a
//! nourishing list, each entry once, and mixing kinds. How the suggestions
//! are ranked within a stretch (a shuffle, lately offered ones held back,
//! stillness and nature for a heavy wisp) is scored by the shell, in floating
//! point; what is offered from that ranking is decided here.

use vstd::prelude::*;

use crate::diary::civil_spec;
use crate::dose::{div_floor, rem_floor, Phase};
use crate::home::PartOfDay;
use crate::reputation::{lookup_spec, Entries, List};
use crate::text::{chars_of, push_str, same, string_of};
use vstd::utf8::encode_utf8;

verus! {

/// How many good places Home offers, and how many of them can be the user's
/// own.
pub const PLACES: usize = 6;

pub const OWN_PLACES: usize = 3;

#[derive(Clone, Copy, Debug, PartialEq, Eq, Hash, Structural)]
pub enum Kind {
    Nature,
    Sky,
    Awe,
    Stillness,
    Reading,
    Poetry,
    Learning,
    Art,
    Making,
    Music,
    Play,
    Connection,
    Giving,
    Movement,
    Kindness,
}

#[derive(Clone, Copy, Debug, PartialEq, Eq, Structural)]
pub enum Region {
    Uk,
    Intl,
}

#[derive(Clone, Debug)]
pub struct Suggestion {
    /// The reputation-list entry the page falls under.
    pub entry: String,
    pub url: String,
    pub name: String,
    pub line: String,
    /// What kind of good it does, the main one first.
    pub kinds: Vec<Kind>,
    pub moments: Vec<PartOfDay>,
    /// Months it suits (1–12); empty for all year.
    pub seasons: Vec<u32>,
    /// Its content renews every day or week, so it can come round sooner.
    pub fresh: bool,
    pub region: Region,
}

#[derive(Clone, Debug)]
pub struct Pool {
    /// Hours in each stretch of the day between new picks.
    pub rotate_hours: u32,
    pub places: Vec<Suggestion>,
}

impl Pool {
    /// The stretch of the day `local_s` (seconds since the epoch, local
    /// time) falls in. Picks change when it does.
    pub fn stretch(&self, local_s: i64) -> (r: i64)
        ensures
            r == local_s as int / ((if self.rotate_hours == 0 {
                1
            } else {
                self.rotate_hours as int
            }) * 3600),
    {
        let hours: i64 = if self.rotate_hours == 0 {
            1
        } else {
            self.rotate_hours as i64
        };
        div_floor(local_s, hours * 3600)
    }
}

#[derive(Clone, Debug, PartialEq, Eq)]
pub struct PlaceCard {
    pub entry: String,
    pub name: String,
    pub line: String,
    pub url: String,
    /// One the user already returns to, rather than a suggestion.
    pub yours: bool,
}

impl View for PlaceCard {
    type V = (Seq<char>, Seq<char>, Seq<char>, Seq<char>, bool);

    open spec fn view(&self) -> (Seq<char>, Seq<char>, Seq<char>, Seq<char>, bool) {
        (self.entry@, self.name@, self.line@, self.url@, self.yours)
    }
}

/// What the picks depend on.
#[derive(Clone, Copy, Debug)]
pub struct Moment<'a> {
    pub part: PartOfDay,
    /// Local calendar month, 1–12.
    pub month: u32,
    pub stretch: i64,
    pub phase: Phase,
    /// The two-letter country from the user's locale (`GB`), if known.
    /// Places for one country are only offered there, or when it's unknown.
    pub country: Option<&'a str>,
    /// Fixed for this install, so every install rotates differently.
    pub seed: u32,
}

// --- Which places may be offered ---------------------------------------------------

pub open spec fn is_uk(country: Seq<char>) -> bool {
    country == "GB"@ || country == "UK"@ || country == "IM"@ || country == "JE"@ || country
        == "GG"@
}

pub open spec fn fits_region_spec(region: Region, country: Option<Seq<char>>) -> bool {
    match (region, country) {
        (Region::Intl, _) => true,
        (Region::Uk, None) => true,
        (Region::Uk, Some(c)) => is_uk(c),
    }
}

pub open spec fn str_view(s: Option<&str>) -> Option<Seq<char>> {
    match s {
        Some(s) => Some(s@),
        None => None,
    }
}

/// Places for one country are only offered there, or when it's unknown.
pub fn fits_region(region: Region, country: Option<&str>) -> (r: bool)
    ensures
        r == fits_region_spec(region, str_view(country)),
{
    match (region, country) {
        (Region::Intl, _) => true,
        (Region::Uk, None) => true,
        (Region::Uk, Some(c)) => {
            let c = chars_of(c);
            same(&c, &chars_of("GB")) || same(&c, &chars_of("UK")) || same(&c, &chars_of("IM"))
                || same(&c, &chars_of("JE")) || same(&c, &chars_of("GG"))
        },
    }
}

/// It suits the part of the day, the month and where the user is.
pub open spec fn suits(s: Suggestion, part: PartOfDay, month: u32, country: Option<Seq<char>>) -> bool {
    &&& s.moments@.contains(part)
    &&& (s.seasons@.len() == 0 || s.seasons@.contains(month))
    &&& fits_region_spec(s.region, country)
}

/// The lists whose weight is above nothing. The weights are the shell's,
/// and it takes no lists where these two are not the ones above zero.
pub open spec fn nourishing_list(list: List) -> bool {
    list == List::NourishingMild || list == List::NourishingStrong
}

/// An address on a nourishing list.
pub open spec fn nourishing_at(es: Seq<(Seq<char>, List)>, url: Seq<char>) -> bool {
    match lookup_spec(es, url) {
        Some((_, list)) => nourishing_list(list),
        None => false,
    }
}

fn contains_part(parts: &Vec<PartOfDay>, part: PartOfDay) -> (r: bool)
    ensures
        r == parts@.contains(part),
{
    let mut i: usize = 0;
    while i < parts.len()
        invariant
            0 <= i <= parts@.len(),
            forall|j: int| 0 <= j < i ==> parts@[j] != part,
        decreases parts.len() - i,
    {
        if parts[i] == part {
            assert(parts@[i as int] == part);
            return true;
        }
        i += 1;
    }
    false
}

fn contains_month(months: &Vec<u32>, month: u32) -> (r: bool)
    ensures
        r == months@.contains(month),
{
    let mut i: usize = 0;
    while i < months.len()
        invariant
            0 <= i <= months@.len(),
            forall|j: int| 0 <= j < i ==> months@[j] != month,
        decreases months.len() - i,
    {
        if months[i] == month {
            assert(months@[i as int] == month);
            return true;
        }
        i += 1;
    }
    false
}

fn contains_kind(kinds: &Vec<Kind>, kind: Kind) -> (r: bool)
    ensures
        r == kinds@.contains(kind),
{
    let mut i: usize = 0;
    while i < kinds.len()
        invariant
            0 <= i <= kinds@.len(),
            forall|j: int| 0 <= j < i ==> kinds@[j] != kind,
        decreases kinds.len() - i,
    {
        if kinds[i] == kind {
            assert(kinds@[i as int] == kind);
            return true;
        }
        i += 1;
    }
    false
}

fn contains_text(texts: &Vec<Vec<char>>, t: &[char]) -> (r: bool)
    ensures
        r == crate::text::views(texts@).contains(t@),
{
    let ghost vs = crate::text::views(texts@);
    let mut i: usize = 0;
    while i < texts.len()
        invariant
            0 <= i <= texts@.len(),
            vs == crate::text::views(texts@),
            forall|j: int| 0 <= j < i ==> vs[j] != t@,
        decreases texts.len() - i,
    {
        assert(vs[i as int] == texts@[i as int]@);
        if same(&texts[i], t) {
            return true;
        }
        i += 1;
    }
    false
}

pub fn suits_now(s: &Suggestion, at: &Moment) -> (r: bool)
    ensures
        r == suits(*s, at.part, at.month, str_view(at.country)),
{
    contains_part(&s.moments, at.part) && (s.seasons.len() == 0 || contains_month(
        &s.seasons,
        at.month,
    )) && fits_region(s.region, at.country)
}

pub fn nourishing(lists: &Entries, url: &str) -> (r: bool)
    ensures
        r == nourishing_at(lists@, url@),
{
    match lists.lookup(url) {
        Some((_, list)) => list == List::NourishingMild || list == List::NourishingStrong,
        None => false,
    }
}

// --- The user's own places ---------------------------------------------------------

pub open spec fn own_url(entry: Seq<char>) -> Seq<char> {
    "https://"@ + entry
}

pub open spec fn is_own_nourishing(es: Seq<(Seq<char>, List)>) -> spec_fn(Seq<char>) -> bool {
    |e: Seq<char>| nourishing_at(es, own_url(e))
}

/// The user's own places that are offered: the first three of them that are
/// on a nourishing list.
pub open spec fn own_offered(es: Seq<(Seq<char>, List)>, own: Seq<Seq<char>>) -> Seq<Seq<char>> {
    let n = own.filter(is_own_nourishing(es));
    if n.len() <= OWN_PLACES {
        n
    } else {
        n.take(OWN_PLACES as int)
    }
}

pub open spec fn is_entry(places: Seq<Suggestion>, entry: Seq<char>) -> spec_fn(int) -> bool {
    |i: int| places[i].entry@ == entry
}

/// An own place's card: as the pool describes it, if the pool has it.
pub open spec fn own_card(places: Seq<Suggestion>, entry: Seq<char>) -> (Seq<char>, Seq<char>, Seq<char>, Seq<char>, bool) {
    let k = crate::text::first_from(places.len() as int, is_entry(places, entry), 0);
    if k == -1 {
        (entry, entry, "One of your good places."@, own_url(entry), true)
    } else {
        (entry, places[k].name@, places[k].line@, places[k].url@, true)
    }
}

pub open spec fn suggestion_card(s: Suggestion) -> (Seq<char>, Seq<char>, Seq<char>, Seq<char>, bool) {
    (s.entry@, s.name@, s.line@, s.url@, false)
}

// --- Mixing the suggestions ----------------------------------------------------------

/// How far the picking has got: the entries shown, the main kinds picked
/// and the suggestions picked, by place in the pool.
pub struct Mix {
    pub shown: Seq<Seq<char>>,
    pub kinds: Seq<Kind>,
    pub picked: Seq<int>,
}

/// One suggestion considered: taken unless Home is full, its entry is
/// already shown or, on the first pass, its main kind already is.
pub open spec fn mix_step(places: Seq<Suggestion>, m: Mix, own: int, i: int, first_pass: bool) -> Mix {
    let s = places[i];
    if own + m.picked.len() >= PLACES {
        m
    } else if m.shown.contains(s.entry@) {
        m
    } else if first_pass && s.kinds@.len() > 0 && m.kinds.contains(s.kinds@[0]) {
        m
    } else {
        Mix {
            shown: m.shown.push(s.entry@),
            kinds: if s.kinds@.len() > 0 {
                m.kinds.push(s.kinds@[0])
            } else {
                m.kinds
            },
            picked: m.picked.push(i),
        }
    }
}

pub open spec fn mix_pass(places: Seq<Suggestion>, m: Mix, own: int, order: Seq<int>, first_pass: bool) -> Mix
    decreases order.len(),
{
    if order.len() == 0 {
        m
    } else {
        mix_step(places, mix_pass(places, m, own, order.drop_last(), first_pass), own, order.last(), first_pass)
    }
}

/// A suggestion that may be offered now, that isn't one of the user's own
/// shown already, and is on a nourishing list.
pub open spec fn eligible(
    places: Seq<Suggestion>,
    es: Seq<(Seq<char>, List)>,
    part: PartOfDay,
    month: u32,
    country: Option<Seq<char>>,
    own: Seq<Seq<char>>,
) -> spec_fn(int) -> bool {
    |i: int|
        0 <= i < places.len() && suits(places[i], part, month, country) && !own.contains(
            places[i].entry@,
        ) && nourishing_at(es, places[i].url@)
}

/// Up to `PLACES` good places: the user's own nourishing places first (as
/// the shell ranked them), then suggestions in the order the shell ranked
/// them, one of each main kind first and then whatever ranks best, each
/// entry once.
pub open spec fn pick_spec(
    places: Seq<Suggestion>,
    es: Seq<(Seq<char>, List)>,
    part: PartOfDay,
    month: u32,
    country: Option<Seq<char>>,
    own: Seq<Seq<char>>,
    ranked: Seq<int>,
) -> Seq<(Seq<char>, Seq<char>, Seq<char>, Seq<char>, bool)> {
    let mine = own_offered(es, own);
    let order = ranked.filter(eligible(places, es, part, month, country, mine));
    let start = Mix { shown: mine, kinds: Seq::empty(), picked: Seq::empty() };
    let first = mix_pass(places, start, mine.len() as int, order, true);
    let second = mix_pass(places, first, mine.len() as int, order, false);
    mine.map_values(|e: Seq<char>| own_card(places, e)) + second.picked.map_values(
        |i: int| suggestion_card(places[i]),
    )
}

pub open spec fn cards_view(cards: Seq<PlaceCard>) -> Seq<(Seq<char>, Seq<char>, Seq<char>, Seq<char>, bool)> {
    cards.map_values(|c: PlaceCard| c@)
}

pub open spec fn string_views(v: Seq<String>) -> Seq<Seq<char>> {
    v.map_values(|s: String| s@)
}

fn own_card_of(pool: &Pool, entry: &String) -> (r: PlaceCard)
    ensures
        r@ == own_card(pool.places@, entry@),
{
    let ghost places = pool.places@;
    let ghost p = is_entry(places, entry@);
    let e = chars_of(entry.as_str());
    let mut k: usize = 0;
    while k < pool.places.len() && !same(&chars_of(pool.places[k].entry.as_str()), &e)
        invariant
            0 <= k <= places.len(),
            places == pool.places@,
            e@ == entry@,
            p == is_entry(places, entry@),
            forall|j: int| 0 <= j < k ==> !#[trigger] p(j),
        decreases places.len() - k,
    {
        assert(!p(k as int));
        k += 1;
    }
    if k < pool.places.len() {
        assert(p(k as int));
        proof {
            crate::text::lemma_first_from_is(places.len() as int, p, 0, k as int);
        }
        let s = &pool.places[k];
        PlaceCard {
            entry: entry.clone(),
            name: s.name.clone(),
            line: s.line.clone(),
            url: s.url.clone(),
            yours: true,
        }
    } else {
        proof {
            crate::text::lemma_first_from_is(places.len() as int, p, 0, -1);
        }
        let mut url = chars_of("https://");
        push_str(&mut url, entry.as_str());
        PlaceCard {
            entry: entry.clone(),
            name: entry.clone(),
            line: "One of your good places.".to_owned(),
            url: string_of(&url),
            yours: true,
        }
    }
}

/// The month (1–12) of a local time in seconds since the epoch.
pub open spec fn month_spec(local_s: int) -> int {
    civil_spec(local_s / 86_400).1
}

/// The local calendar month (1–12) of a local time in seconds since the epoch.
pub fn month_of(local_s: i64) -> (r: u32)
    ensures
        r == month_spec(local_s as int),
        1 <= r <= 12,
{
    let z = div_floor(local_s, 86_400) + 719_468;
    proof {
        assert(local_s as int / 86_400 <= 200_000_000_000_000) by (nonlinear_arith);
        assert(local_s as int / 86_400 >= -200_000_000_000_000) by (nonlinear_arith);
    }
    let doe = rem_floor(z, 146_097);
    proof {
        assert(0 <= (doe - doe / 1460 + doe / 36_524 - doe / 146_096) / 365 < 400) by (nonlinear_arith)
            requires
                0 <= doe < 146_097,
        ;
    }
    let yoe = (doe - doe / 1460 + doe / 36_524 - doe / 146_096) / 365;
    proof {
        assert(0 <= doe - (365 * yoe + yoe / 4 - yoe / 100) < 366) by (nonlinear_arith)
            requires
                0 <= doe < 146_097,
                yoe == (doe - doe / 1460 + doe / 36_524 - doe / 146_096) / 365,
        ;
    }
    let doy = doe - (365 * yoe + yoe / 4 - yoe / 100);
    let mp = (5 * doy + 2) / 153;
    proof {
        assert(0 <= mp < 12) by (nonlinear_arith)
            requires
                mp == (5 * doy + 2) / 153,
                0 <= doy < 366,
        ;
    }
    if mp < 10 {
        (mp + 3) as u32
    } else {
        (mp - 9) as u32
    }
}


pub open spec fn ints(v: Seq<usize>) -> Seq<int> {
    v.map_values(|i: usize| i as int)
}

pub open spec fn mix_view(shown: Seq<Vec<char>>, kinds: Seq<Kind>, picked: Seq<usize>) -> Mix {
    Mix { shown: crate::text::views(shown), kinds, picked: ints(picked) }
}

fn mix_one(
    pool: &Pool,
    shown: &mut Vec<Vec<char>>,
    kinds: &mut Vec<Kind>,
    picked: &mut Vec<usize>,
    own: usize,
    i: usize,
    first_pass: bool,
)
    requires
        i < pool.places@.len(),
        own <= PLACES,
        old(picked)@.len() <= PLACES,
        forall|q: int| 0 <= q < old(picked)@.len() ==> #[trigger] old(picked)@[q] < pool.places@.len(),
    ensures
        mix_view(final(shown)@, final(kinds)@, final(picked)@) == mix_step(
            pool.places@,
            mix_view(old(shown)@, old(kinds)@, old(picked)@),
            own as int,
            i as int,
            first_pass,
        ),
        final(picked)@.len() <= PLACES,
        forall|q: int| 0 <= q < final(picked)@.len() ==> #[trigger] final(picked)@[q] < pool.places@.len(),
{
    let ghost m = mix_view(shown@, kinds@, picked@);
    let s = &pool.places[i];
    if own + picked.len() >= PLACES {
        return;
    }
    let entry = chars_of(s.entry.as_str());
    if contains_text(shown, &entry) {
        return;
    }
    if first_pass && s.kinds.len() > 0 && contains_kind(kinds, s.kinds[0]) {
        return;
    }
    let ghost before_shown = shown@;
    shown.push(entry);
    assert(crate::text::views(shown@) == crate::text::views(before_shown).push(s.entry@));
    if s.kinds.len() > 0 {
        kinds.push(s.kinds[0]);
    }
    let ghost before_picked = picked@;
    picked.push(i);
    assert(ints(picked@) == ints(before_picked).push(i as int));
}

/// Up to `PLACES` good places: the user's own nourishing places first, in
/// the order `own` gives them (the shell ranks them by time spent this
/// month), then suggestions in the order `ranked` gives their places in the
/// pool, one of each main kind first and then whatever ranks best.
pub fn offer(pool: &Pool, lists: &Entries, at: &Moment, own: &Vec<String>, ranked: &Vec<usize>) -> (r: Vec<PlaceCard>)
    ensures
        cards_view(r@) == pick_spec(
            pool.places@,
            lists@,
            at.part,
            at.month,
            str_view(at.country),
            string_views(own@),
            ints(ranked@),
        ),
{
    let ghost places = pool.places@;
    let ghost es = lists@;
    let ghost ov = string_views(own@);
    let ghost np = is_own_nourishing(es);
    // The user's own nourishing places, the first three of them.
    let mut all_mine: Vec<String> = Vec::new();
    let mut i: usize = 0;
    while i < own.len()
        invariant
            0 <= i <= own@.len(),
            ov == string_views(own@),
            es == lists@,
            np == is_own_nourishing(es),
            string_views(all_mine@) == ov.take(i as int).filter(np),
        decreases own.len() - i,
    {
        proof {
            crate::text::lemma_filter_take(ov, np, i as int);
        }
        let mut url = chars_of("https://");
        push_str(&mut url, own[i].as_str());
        if nourishing(lists, string_of(&url).as_str()) {
            let ghost before = all_mine@;
            all_mine.push(own[i].clone());
            assert(string_views(all_mine@) == string_views(before).push(own@[i as int]@));
        }
        i += 1;
    }
    assert(ov.take(ov.len() as int) == ov);
    let ghost mine_view = own_offered(es, ov);
    proof {
        let f = ov.filter(np);
        assert(f == string_views(all_mine@));
        assert forall|idx: int| 0 <= idx < mine_view.len() implies #[trigger] mine_view[idx]
            == all_mine@[idx]@ by {
            assert(f[idx] == all_mine@[idx]@);
        }
    }
    let mut cards: Vec<PlaceCard> = Vec::new();
    let mut shown: Vec<Vec<char>> = Vec::new();
    let mut k: usize = 0;
    while k < all_mine.len() && k < OWN_PLACES
        invariant
            0 <= k <= all_mine@.len(),
            k <= OWN_PLACES,
            places == pool.places@,
            string_views(all_mine@) == ov.filter(np),
            mine_view == own_offered(es, ov),
            mine_view.len() == (if all_mine@.len() <= OWN_PLACES {
                all_mine@.len() as int
            } else {
                OWN_PLACES as int
            }),
            forall|idx: int| 0 <= idx < mine_view.len() ==> #[trigger] mine_view[idx] == all_mine@[idx]@,
            cards_view(cards@) == mine_view.take(k as int).map_values(|e: Seq<char>| own_card(places, e)),
            crate::text::views(shown@) == mine_view.take(k as int),
        decreases all_mine.len() - k,
    {
        assert(mine_view[k as int] == all_mine@[k as int]@);
        let card = own_card_of(pool, &all_mine[k]);
        let ghost before_cards = cards@;
        let ghost before_shown = shown@;
        cards.push(card);
        shown.push(chars_of(all_mine[k].as_str()));
        proof {
            assert(cards_view(cards@) == cards_view(before_cards).push(card@));
            assert(mine_view.take(k + 1) == mine_view.take(k as int).push(mine_view[k as int]));
            assert(mine_view.take(k + 1).map_values(|e: Seq<char>| own_card(places, e))
                == mine_view.take(k as int).map_values(|e: Seq<char>| own_card(places, e)).push(
                own_card(places, mine_view[k as int])));
            assert(crate::text::views(shown@) == crate::text::views(before_shown).push(
                mine_view[k as int],
            ));
        }
        k += 1;
    }
    assert(mine_view.take(k as int) == mine_view);
    let own_n = k;
    // The suggestions that may be offered, in the order they rank.
    let ghost ep = eligible(places, es, at.part, at.month, str_view(at.country), mine_view);
    let ghost rv = ints(ranked@);
    let mut order: Vec<usize> = Vec::new();
    let mut j: usize = 0;
    while j < ranked.len()
        invariant
            0 <= j <= ranked@.len(),
            rv == ints(ranked@),
            places == pool.places@,
            es == lists@,
            crate::text::views(shown@) == mine_view,
            ep == eligible(places, es, at.part, at.month, str_view(at.country), mine_view),
            ints(order@) == rv.take(j as int).filter(ep),
            forall|q: int| 0 <= q < order@.len() ==> #[trigger] order@[q] < places.len(),
        decreases ranked.len() - j,
    {
        proof {
            crate::text::lemma_filter_take(rv, ep, j as int);
        }
        let at_i = ranked[j];
        if at_i < pool.places.len() {
            let s = &pool.places[at_i];
            if suits_now(s, at) && !contains_text(&shown, &chars_of(s.entry.as_str())) && nourishing(
                lists,
                s.url.as_str(),
            ) {
                let ghost before = order@;
                order.push(at_i);
                assert(ints(order@) == ints(before).push(at_i as int));
            }
        }
        j += 1;
    }
    assert(rv.take(rv.len() as int) == rv);
    let ghost ov2 = ints(order@);
    let mut kinds: Vec<Kind> = Vec::new();
    let mut picked: Vec<usize> = Vec::new();
    let ghost start = mix_view(shown@, kinds@, picked@);
    assert(ints(picked@) =~= Seq::<int>::empty());
    assert(start == Mix { shown: mine_view, kinds: Seq::empty(), picked: Seq::empty() });
    let mut pass: usize = 0;
    while pass < 2
        invariant
            pass <= 2,
            places == pool.places@,
            ov2 == ints(order@),
            own_n == mine_view.len(),
            own_n <= OWN_PLACES,
            picked@.len() <= PLACES,
            forall|q: int| 0 <= q < order@.len() ==> #[trigger] order@[q] < places.len(),
            forall|q: int| 0 <= q < picked@.len() ==> #[trigger] picked@[q] < places.len(),
            pass == 0 ==> mix_view(shown@, kinds@, picked@) == start,
            pass == 1 ==> mix_view(shown@, kinds@, picked@) == mix_pass(places, start, own_n as int, ov2, true),
            pass == 2 ==> mix_view(shown@, kinds@, picked@) == mix_pass(
                places,
                mix_pass(places, start, own_n as int, ov2, true),
                own_n as int,
                ov2,
                false,
            ),
        decreases 2 - pass,
    {
        let ghost at_pass = mix_view(shown@, kinds@, picked@);
        let mut q: usize = 0;
        while q < order.len()
            invariant
                0 <= q <= order@.len(),
                pass < 2,
                places == pool.places@,
                ov2 == ints(order@),
                own_n <= OWN_PLACES,
                picked@.len() <= PLACES,
                forall|q2: int| 0 <= q2 < order@.len() ==> #[trigger] order@[q2] < places.len(),
                forall|q2: int| 0 <= q2 < picked@.len() ==> #[trigger] picked@[q2] < places.len(),
                mix_view(shown@, kinds@, picked@) == mix_pass(places, at_pass, own_n as int, ov2.take(q as int), pass == 0),
            decreases order.len() - q,
        {
            assert(ov2.take(q + 1).drop_last() == ov2.take(q as int));
            assert(ov2.take(q + 1).last() == order@[q as int] as int);
            mix_one(pool, &mut shown, &mut kinds, &mut picked, own_n, order[q], pass == 0);
            q += 1;
        }
        assert(ov2.take(ov2.len() as int) == ov2);
        pass += 1;
    }
    let ghost fin = mix_view(shown@, kinds@, picked@);
    let ghost before_cards = cards_view(cards@);
    let mut t: usize = 0;
    while t < picked.len()
        invariant
            0 <= t <= picked@.len(),
            places == pool.places@,
            fin.picked == ints(picked@),
            forall|q: int| 0 <= q < picked@.len() ==> #[trigger] picked@[q] < places.len(),
            cards_view(cards@) == before_cards + fin.picked.take(t as int).map_values(
                |i: int| suggestion_card(places[i]),
            ),
        decreases picked.len() - t,
    {
        let s = &pool.places[picked[t]];
        let card = PlaceCard {
            entry: s.entry.clone(),
            name: s.name.clone(),
            line: s.line.clone(),
            url: s.url.clone(),
            yours: false,
        };
        let ghost bc = cards@;
        cards.push(card);
        proof {
            assert(cards_view(cards@) == cards_view(bc).push(card@));
            let f = |i: int| suggestion_card(places[i]);
            assert(fin.picked.take(t + 1) == fin.picked.take(t as int).push(fin.picked[t as int]));
            assert(fin.picked.take(t + 1).map_values(f) == fin.picked.take(t as int).map_values(f).push(
                f(fin.picked[t as int]),
            ));
        }
        t += 1;
    }
    assert(fin.picked.take(fin.picked.len() as int) == fin.picked);
    cards
}


// --- The shuffle ------------------------------------------------------------------

/// `a * b`, wrapping at 64 bits.
pub open spec fn times64(a: u64, b: u64) -> u64 {
    ((a as nat * b as nat) % 0x1_0000_0000_0000_0000nat) as u64
}

/// `a + b`, wrapping at 64 bits.
pub open spec fn plus64(a: u64, b: u64) -> u64 {
    ((a as nat + b as nat) % 0x1_0000_0000_0000_0000nat) as u64
}

/// FNV-1a over `bytes`.
pub open spec fn fnv(bytes: Seq<u8>) -> u64
    decreases bytes.len(),
{
    if bytes.len() == 0 {
        0xcbf2_9ce4_8422_2325u64
    } else {
        times64(fnv(bytes.drop_last()) ^ (bytes.last() as u64), 0x0000_0100_0000_01b3u64)
    }
}

/// The shuffle's 53 bits for an entry in a stretch: FNV-1a over the entry,
/// then SplitMix64 over it, the install's seed and the stretch. The same
/// for the same seed, stretch and entry; the shell divides it by 2^53 for a
/// number in [0, 1).
pub open spec fn shuffle_spec(seed: u32, stretch: i64, entry: Seq<char>) -> u64 {
    let h = fnv(encode_utf8(entry));
    let x0 = h ^ ((seed as u64) << 32u64) ^ times64(stretch as u64, 0x9e37_79b9_7f4a_7c15u64);
    let x1 = plus64(x0, 0x9e37_79b9_7f4a_7c15u64);
    let x2 = times64(x1 ^ (x1 >> 30u64), 0xbf58_476d_1ce4_e5b9u64);
    let x3 = times64(x2 ^ (x2 >> 27u64), 0x94d0_49bb_1331_11ebu64);
    let x4 = x3 ^ (x3 >> 31u64);
    x4 >> 11u64
}

/// The shuffle's bits for `entry` in `stretch`.
pub fn shuffle_bits(seed: u32, stretch: i64, entry: &str) -> (r: u64)
    ensures
        r == shuffle_spec(seed, stretch, entry@),
{
    let bytes = entry.as_bytes();
    let ghost bv = bytes@;
    let mut h: u64 = 0xcbf2_9ce4_8422_2325;
    let mut i: usize = 0;
    while i < bytes.len()
        invariant
            0 <= i <= bytes@.len(),
            bv == bytes@,
            h == fnv(bv.take(i as int)),
        decreases bytes.len() - i,
    {
        assert(bv.take(i + 1).drop_last() == bv.take(i as int));
        h = (h ^ bytes[i] as u64).wrapping_mul(0x0000_0100_0000_01b3);
        i += 1;
    }
    assert(bv.take(bv.len() as int) == bv);
    let mut x = h ^ ((seed as u64) << 32) ^ (stretch as u64).wrapping_mul(0x9e37_79b9_7f4a_7c15);
    x = x.wrapping_add(0x9e37_79b9_7f4a_7c15);
    x = (x ^ (x >> 30)).wrapping_mul(0xbf58_476d_1ce4_e5b9);
    x = (x ^ (x >> 27)).wrapping_mul(0x94d0_49bb_1331_11eb);
    x = x ^ (x >> 31);
    x >> 11
}

} // verus!
