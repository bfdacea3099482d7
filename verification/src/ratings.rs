//! Ratings as the user sees them, and what the Settings page's links ask for.
//!
//! Pure: the companion reads and writes the files and applies the changes.

use vstd::prelude::*;

use crate::protocol::{Rating, SiteRating};
use crate::reputation::{entry_get, lookup_spec, Entries, List};
use crate::text::{chars_of, last_before, lemma_last_before_is, same, split_once, split_once_in, string_of};

verus! {

pub open spec fn rating_of_spec(list: Option<List>) -> Rating {
    match list {
        Some(List::DrainingStrong) => Rating::DrainsALot,
        Some(List::DrainingMild) => Rating::DrainsALittle,
        Some(List::Ordinary) => Rating::Neither,
        Some(List::NourishingMild) => Rating::RestoresALittle,
        Some(List::NourishingStrong) => Rating::RestoresALot,
        Some(List::News) => Rating::News,
        Some(List::Private) => Rating::Private,
        Some(List::Unlisted) | None => Rating::Unrated,
        Some(List::Care) => Rating::Care,
    }
}

pub open spec fn list_of_spec(rating: Rating) -> List {
    match rating {
        Rating::DrainsALot => List::DrainingStrong,
        Rating::DrainsALittle => List::DrainingMild,
        Rating::Neither => List::Ordinary,
        Rating::RestoresALittle => List::NourishingMild,
        Rating::RestoresALot => List::NourishingStrong,
        Rating::News => List::News,
        Rating::Private => List::Private,
        Rating::Unrated => List::Unlisted,
        Rating::Care => List::Care,
    }
}

/// What rating a list is, or unrated for no list (or `[removed]`).
pub fn rating_of(list: Option<List>) -> (r: Rating)
    ensures
        r == rating_of_spec(list),
{
    match list {
        Some(List::DrainingStrong) => Rating::DrainsALot,
        Some(List::DrainingMild) => Rating::DrainsALittle,
        Some(List::Ordinary) => Rating::Neither,
        Some(List::NourishingMild) => Rating::RestoresALittle,
        Some(List::NourishingStrong) => Rating::RestoresALot,
        Some(List::News) => Rating::News,
        Some(List::Private) => Rating::Private,
        Some(List::Unlisted) | None => Rating::Unrated,
        Some(List::Care) => Rating::Care,
    }
}

/// The list a rating puts a site on. Unrated is the user's `[unlisted]`, so
/// the site holds steady even if part of a rated site.
pub fn list_of(rating: Rating) -> (r: List)
    ensures
        r == list_of_spec(rating),
{
    match rating {
        Rating::DrainsALot => List::DrainingStrong,
        Rating::DrainsALittle => List::DrainingMild,
        Rating::Neither => List::Ordinary,
        Rating::RestoresALittle => List::NourishingMild,
        Rating::RestoresALot => List::NourishingStrong,
        Rating::News => List::News,
        Rating::Private => List::Private,
        Rating::Unrated => List::Unlisted,
        Rating::Care => List::Care,
    }
}

/// Every list is a rating, and that rating puts a site back on the list.
pub proof fn lists_come_back(list: List)
    ensures
        list_of_spec(rating_of_spec(Some(list))) == list,
{
}

/// Every rating is a list, and that list reads as the rating again.
pub proof fn ratings_come_back(rating: Rating)
    ensures
        rating_of_spec(Some(list_of_spec(rating))) == rating,
{
}

/// A rating's name on the wire.
pub open spec fn rating_name(rating: Rating) -> Seq<char> {
    match rating {
        Rating::DrainsALot => "drains_a_lot"@,
        Rating::DrainsALittle => "drains_a_little"@,
        Rating::Neither => "neither"@,
        Rating::RestoresALittle => "restores_a_little"@,
        Rating::RestoresALot => "restores_a_lot"@,
        Rating::News => "news"@,
        Rating::Private => "private"@,
        Rating::Unrated => "unrated"@,
        Rating::Care => "care"@,
    }
}

pub open spec fn rating_named_spec(key: Seq<char>) -> Option<Rating> {
    if key == "drains_a_lot"@ {
        Some(Rating::DrainsALot)
    } else if key == "drains_a_little"@ {
        Some(Rating::DrainsALittle)
    } else if key == "neither"@ {
        Some(Rating::Neither)
    } else if key == "restores_a_little"@ {
        Some(Rating::RestoresALittle)
    } else if key == "restores_a_lot"@ {
        Some(Rating::RestoresALot)
    } else if key == "news"@ {
        Some(Rating::News)
    } else if key == "private"@ {
        Some(Rating::Private)
    } else if key == "unrated"@ {
        Some(Rating::Unrated)
    } else if key == "care"@ {
        Some(Rating::Care)
    } else {
        None
    }
}

impl Rating {
    /// The rating's name on the wire (`drains_a_little`).
    pub fn name(self) -> (r: &'static str)
        ensures
            r@ == rating_name(self),
    {
        match self {
            Rating::DrainsALot => "drains_a_lot",
            Rating::DrainsALittle => "drains_a_little",
            Rating::Neither => "neither",
            Rating::RestoresALittle => "restores_a_little",
            Rating::RestoresALot => "restores_a_lot",
            Rating::News => "news",
            Rating::Private => "private",
            Rating::Unrated => "unrated",
            Rating::Care => "care",
        }
    }
}

/// A rating by its name on the wire (`drains_a_little`).
pub fn rating_named(key: &str) -> (r: Option<Rating>)
    ensures
        r == rating_named_spec(key@),
{
    let k = chars_of(key);
    if same(&k, &chars_of("drains_a_lot")) {
        Some(Rating::DrainsALot)
    } else if same(&k, &chars_of("drains_a_little")) {
        Some(Rating::DrainsALittle)
    } else if same(&k, &chars_of("neither")) {
        Some(Rating::Neither)
    } else if same(&k, &chars_of("restores_a_little")) {
        Some(Rating::RestoresALittle)
    } else if same(&k, &chars_of("restores_a_lot")) {
        Some(Rating::RestoresALot)
    } else if same(&k, &chars_of("news")) {
        Some(Rating::News)
    } else if same(&k, &chars_of("private")) {
        Some(Rating::Private)
    } else if same(&k, &chars_of("unrated")) {
        Some(Rating::Unrated)
    } else if same(&k, &chars_of("care")) {
        Some(Rating::Care)
    } else {
        None
    }
}

/// Every rating is found again by its name.
pub proof fn rating_names_come_back(rating: Rating)
    ensures
        rating_named_spec(rating_name(rating)) == Some(rating),
{
    reveal_strlit("drains_a_lot");
    reveal_strlit("drains_a_little");
    reveal_strlit("neither");
    reveal_strlit("restores_a_little");
    reveal_strlit("restores_a_lot");
    reveal_strlit("news");
    reveal_strlit("private");
    reveal_strlit("unrated");
    reveal_strlit("care");
    assert("drains_a_lot"@.len() != "drains_a_little"@.len());
    assert("restores_a_lot"@.len() != "restores_a_little"@.len());
    assert("drains_a_lot"@[0] == 'd' && "drains_a_little"@[0] == 'd');
    assert("neither"@[0] == 'n' && "news"@[0] == 'n' && "neither"@[1] == 'e' && "news"@[2] == 'w'
        && "neither"@[2] == 'i');
    assert("restores_a_little"@[0] == 'r' && "restores_a_lot"@[0] == 'r');
    assert("private"@[0] == 'p' && "unrated"@[0] == 'u' && "care"@[0] == 'c');
}

// --- A site as Settings shows it ----------------------------------------------------

pub open spec fn is_yours(yours: Seq<(Seq<char>, Option<List>)>, site: Seq<char>) -> spec_fn(int) -> bool {
    |i: int| yours[i].0 == site
}

/// What the user's file says of the site: the last word it has on it.
pub open spec fn yours_for(yours: Seq<(Seq<char>, Option<List>)>, site: Seq<char>) -> Option<Option<List>> {
    let i = last_before(is_yours(yours, site), yours.len() as int);
    if i == -1 {
        None
    } else {
        Some(yours[i].1)
    }
}

pub open spec fn yours_view(v: Seq<(String, Option<List>)>) -> Seq<(Seq<char>, Option<List>)> {
    v.map_values(|e: (String, Option<List>)| (e.0@, e.1))
}

pub open spec fn site_rating_matches(
    r: SiteRating,
    lists: Seq<(Seq<char>, List)>,
    seed: Seq<(Seq<char>, List)>,
    yours: Seq<(Seq<char>, Option<List>)>,
    site: Seq<char>,
) -> bool {
    &&& r.site@ == site
    &&& match lookup_spec(lists, "https://"@ + site) {
        Some((entry, list)) => r.matched@ == entry && r.rating == rating_of_spec(Some(list)),
        None => r.matched@ == Seq::<char>::empty() && r.rating == Rating::Unrated,
    }
    &&& r.yours == match yours_for(yours, site) {
        Some(list) => Some(rating_of_spec(list)),
        None => None,
    }
    &&& r.seed == match entry_get(seed, site) {
        Some(list) => Some(rating_of_spec(Some(list))),
        None => None,
    }
}

fn find_yours(yours: &Vec<(String, Option<List>)>, site: &[char]) -> (r: Option<Option<List>>)
    ensures
        r == yours_for(yours_view(yours@), site@),
{
    let ghost ys = yours_view(yours@);
    let ghost p = is_yours(ys, site@);
    let mut k = yours.len();
    while k > 0
        invariant
            k <= yours@.len(),
            ys == yours_view(yours@),
            p == is_yours(ys, site@),
            forall|j: int| k <= j < ys.len() ==> !#[trigger] p(j),
        decreases k,
    {
        assert(ys[k - 1] == (yours@[k - 1].0@, yours@[k - 1].1));
        if same(&chars_of(yours[k - 1].0.as_str()), site) {
            proof {
                lemma_last_before_is(p, ys.len() as int, k - 1);
            }
            return Some(yours[k - 1].1);
        }
        k -= 1;
    }
    proof {
        lemma_last_before_is(p, ys.len() as int, -1);
    }
    None
}

/// A site as Settings shows it. `lists` has the user's file applied; `yours`
/// is that file's entries (`None` for one under `[removed]`).
pub fn site_rating(
    lists: &Entries,
    seed: &Entries,
    yours: &Vec<(String, Option<List>)>,
    site: &str,
) -> (r: SiteRating)
    ensures
        site_rating_matches(r, lists@, seed@, yours_view(yours@), site@),
{
    let (matched, rating) = match lists.lookup_site(site) {
        Some((entry, list)) => (entry, rating_of(Some(list))),
        None => (String::new(), Rating::Unrated),
    };
    let yours = match find_yours(yours, &chars_of(site)) {
        Some(list) => Some(rating_of(list)),
        None => None,
    };
    let seed = match seed.get(site) {
        Some(list) => Some(rating_of(Some(list))),
        None => None,
    };
    SiteRating { site: site.to_owned(), rating, matched, yours, seed }
}


// --- The Settings page's links -----------------------------------------------------

/// A link followed on the Settings page: `glimmerwood://settings/do/` and
/// then one of these, with the parts percent-encoded.
#[derive(Debug, PartialEq, Eq)]
pub enum Action {
    /// `rate/RATING/SITE`, where RATING is a rating's name or `glimmerwood`
    /// to go back to Glimmerwood's own (`None`).
    Rate { site: String, rating: Option<Rating> },
    /// `look-up/TEXT`; empty clears the look-up.
    LookUp(String),
    /// `ask/on` or `ask/off`.
    Ask(bool),
    /// `night/HH:MM/HH:MM`.
    Night { starts: String, ends: String },
    /// `newsboat/add` or `newsboat/remove`: good news into Newsboat's list
    /// of feeds, or out of it again.
    Newsboat { add: bool },
}

/// What a link asks for, its parts still percent-encoded.
pub enum Asked {
    Rate { rating: Option<Rating>, site: Seq<char> },
    LookUp(Seq<char>),
    Ask(bool),
    Night(Seq<char>, Seq<char>),
    Newsboat(bool),
}

pub open spec fn asked(action: Seq<char>) -> Option<Asked> {
    match split_once(action, "/"@) {
        None => None,
        Some((verb, rest)) => if verb == "rate"@ {
            match split_once(rest, "/"@) {
                None => None,
                Some((key, site)) => if key == "glimmerwood"@ {
                    Some(Asked::Rate { rating: None, site })
                } else {
                    match rating_named_spec(key) {
                        Some(rating) => Some(Asked::Rate { rating: Some(rating), site }),
                        None => None,
                    }
                },
            }
        } else if verb == "look-up"@ {
            Some(Asked::LookUp(rest))
        } else if verb == "ask"@ {
            if rest == "on"@ {
                Some(Asked::Ask(true))
            } else if rest == "off"@ {
                Some(Asked::Ask(false))
            } else {
                None
            }
        } else if verb == "night"@ {
            match split_once(rest, "/"@) {
                None => None,
                Some((starts, ends)) => Some(Asked::Night(starts, ends)),
            }
        } else if verb == "newsboat"@ {
            if rest == "add"@ {
                Some(Asked::Newsboat(true))
            } else if rest == "remove"@ {
                Some(Asked::Newsboat(false))
            } else {
                None
            }
        } else {
            None
        },
    }
}

/// `f` may give `out` for a text that reads as `text`.
pub open spec fn unescapes_to<F: Fn(&str) -> Option<String>>(f: F, text: Seq<char>, out: Option<String>) -> bool {
    exists|a: &str| a@ == text && #[trigger] call_ensures(f, (a,), out)
}

pub open spec fn parsed<F: Fn(&str) -> Option<String>>(action: Seq<char>, unescape: F, r: Option<Action>) -> bool {
    match asked(action) {
        None => r is None,
        Some(Asked::Ask(on)) => r == Some(Action::Ask(on)),
        Some(Asked::Newsboat(add)) => r == Some(Action::Newsboat { add }),
        Some(Asked::Rate { rating, site }) => match r {
            Some(Action::Rate { site: s, rating: q }) => q == rating && s@.len() > 0
                && unescapes_to(unescape, site, Some(s)),
            None => unescapes_to(unescape, site, None) || exists|s: String|
                s@.len() == 0 && unescapes_to(unescape, site, Some(s)),
            _ => false,
        },
        Some(Asked::LookUp(text)) => match r {
            Some(Action::LookUp(s)) => unescapes_to(unescape, text, Some(s)),
            None => unescapes_to(unescape, text, None),
            _ => false,
        },
        Some(Asked::Night(starts, ends)) => match r {
            Some(Action::Night { starts: a, ends: b }) => unescapes_to(unescape, starts, Some(a))
                && unescapes_to(unescape, ends, Some(b)),
            None => unescapes_to(unescape, starts, None) || exists|a: String|
                unescapes_to(unescape, starts, Some(a)) && unescapes_to(unescape, ends, None),
            _ => false,
        },
    }
}

fn run_unescape<F: Fn(&str) -> Option<String>>(unescape: &F, text: &[char]) -> (r: Option<String>)
    requires
        forall|a: &str| call_requires(*unescape, (a,)),
    ensures
        unescapes_to(*unescape, text@, r),
{
    let s = string_of(text);
    let a = s.as_str();
    let r = unescape(a);
    assert(call_ensures(*unescape, (a,), r));
    r
}

fn is_word(v: &[char], word: &str) -> (r: bool)
    ensures
        r == (v@ == word@),
{
    same(v, &chars_of(word))
}

impl Action {
    /// What a link asks for, with its parts unescaped by `unescape`.
    pub fn parse<F: Fn(&str) -> Option<String>>(action: &str, unescape: F) -> (r: Option<Action>)
        requires
            forall|a: &str| call_requires(unescape, (a,)),
        ensures
            parsed(action@, unescape, r),
    {
        let (verb, rest) = match split_once_in(&chars_of(action), &chars_of("/")) {
            Some(parts) => parts,
            None => return None,
        };
        if is_word(&verb, "rate") {
            let (key, site) = match split_once_in(&rest, &chars_of("/")) {
                Some(parts) => parts,
                None => return None,
            };
            let rating = if is_word(&key, "glimmerwood") {
                None
            } else {
                match rating_named(string_of(&key).as_str()) {
                    Some(rating) => Some(rating),
                    None => return None,
                }
            };
            match run_unescape(&unescape, &site) {
                Some(s) => if s.as_str().is_empty() {
                    None
                } else {
                    Some(Action::Rate { site: s, rating })
                },
                None => None,
            }
        } else if is_word(&verb, "look-up") {
            match run_unescape(&unescape, &rest) {
                Some(s) => Some(Action::LookUp(s)),
                None => None,
            }
        } else if is_word(&verb, "ask") {
            if is_word(&rest, "on") {
                Some(Action::Ask(true))
            } else if is_word(&rest, "off") {
                Some(Action::Ask(false))
            } else {
                None
            }
        } else if is_word(&verb, "night") {
            let (starts, ends) = match split_once_in(&rest, &chars_of("/")) {
                Some(parts) => parts,
                None => return None,
            };
            let starts = match run_unescape(&unescape, &starts) {
                Some(s) => s,
                None => return None,
            };
            match run_unescape(&unescape, &ends) {
                Some(e) => Some(Action::Night { starts, ends: e }),
                None => None,
            }
        } else if is_word(&verb, "newsboat") {
            if is_word(&rest, "add") {
                Some(Action::Newsboat { add: true })
            } else if is_word(&rest, "remove") {
                Some(Action::Newsboat { add: false })
            } else {
                None
            }
        } else {
            None
        }
    }
}

} // verus!
