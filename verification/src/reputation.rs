//! The reputation lists: which list a site is on.
//!
//! Parsing the files and the lists' weights are the shell's; which entries
//! there are, whether each is well formed, and which entry an address falls
//! under are decided here.

use vstd::prelude::*;

use crate::text::{
    before_any, before_any_in, chars_of, contains, ends_with, find_char,
    find_char_in, find_in, first_from, is_ascii_digit, is_ascii_upper, is_one_of_at, is_white,
    lemma_filter_take, lemma_first_from, lemma_first_from_is, lower, lowered, push_all, rsplit_once,
    rsplit_once_in, same, slice_of, split, split_char, split_once, split_once_in, starts,
    starts_with, string_of, views, white, join, joined, debug_str, debug_text, push_str,
};

verus! {

#[derive(Clone, Copy, Debug, PartialEq, Eq, Hash, Structural)]
pub enum List {
    DrainingStrong,
    DrainingMild,
    News,
    Ordinary,
    NourishingMild,
    NourishingStrong,
    /// Adult sites: the dose holds, nothing is recorded, the wisp gives the
    /// user privacy.
    Private,
    /// Parts of listed sites carved back out to hold steady.
    Unlisted,
    /// Sites for someone in crisis: never a question, never a judgement.
    Care,
}

pub open spec fn list_key(l: List) -> Seq<char> {
    match l {
        List::DrainingStrong => "draining-strong"@,
        List::DrainingMild => "draining-mild"@,
        List::News => "news"@,
        List::Ordinary => "ordinary"@,
        List::NourishingMild => "nourishing-mild"@,
        List::NourishingStrong => "nourishing-strong"@,
        List::Private => "private"@,
        List::Unlisted => "unlisted"@,
        List::Care => "care"@,
    }
}

/// A list's place among the tables; the weighted ones come first.
pub open spec fn list_index(l: List) -> int {
    match l {
        List::DrainingStrong => 0,
        List::DrainingMild => 1,
        List::News => 2,
        List::Ordinary => 3,
        List::NourishingMild => 4,
        List::NourishingStrong => 5,
        List::Private => 6,
        List::Unlisted => 7,
        List::Care => 8,
    }
}

/// How many lists carry a weight.
pub const WEIGHTED: usize = 6;

impl List {
    /// The list's table in the files.
    pub fn key(self) -> (r: &'static str)
        ensures
            r@ == list_key(self),
    {
        match self {
            List::DrainingStrong => "draining-strong",
            List::DrainingMild => "draining-mild",
            List::News => "news",
            List::Ordinary => "ordinary",
            List::NourishingMild => "nourishing-mild",
            List::NourishingStrong => "nourishing-strong",
            List::Private => "private",
            List::Unlisted => "unlisted",
            List::Care => "care",
        }
    }

    pub fn index(self) -> (r: usize)
        ensures
            r == list_index(self),
    {
        match self {
            List::DrainingStrong => 0,
            List::DrainingMild => 1,
            List::News => 2,
            List::Ordinary => 3,
            List::NourishingMild => 4,
            List::NourishingStrong => 5,
            List::Private => 6,
            List::Unlisted => 7,
            List::Care => 8,
        }
    }

    /// Whether the list carries a weight: private, unlisted and care sites
    /// carry none.
    pub fn weighted(self) -> (r: bool)
        ensures
            r == (list_index(self) < WEIGHTED),
    {
        self.index() < WEIGHTED
    }
}

// --- Entries ----------------------------------------------------------------------

/// What is wrong with an entry, if anything: entries are bare lowercase
/// domains, optionally with a path.
pub open spec fn entry_problem(site: Seq<char>) -> Option<Seq<char>> {
    if site.len() == 0 {
        Some("empty"@)
    } else if contains(site, "://"@) {
        Some("leave out the scheme"@)
    } else if starts_with(site, "www."@) {
        Some("leave out www. (subdomains match their parent)"@)
    } else if site.last() == '/' {
        Some("no trailing slash"@)
    } else if exists|i: int|
        0 <= i < site.len() && (is_ascii_upper(#[trigger] site[i]) || is_white(site[i])) {
        Some("lowercase, no spaces"@)
    } else {
        let host = before_any(site, "/"@);
        if find_char(host, '.') == -1 || starts_with(host, "."@) || ends_with(host, "."@) {
            Some("not a domain"@)
        } else {
            None
        }
    }
}

pub fn check_entry(site: &str) -> (r: Result<(), &'static str>)
    ensures
        match r {
            Ok(()) => entry_problem(site@) is None,
            Err(why) => entry_problem(site@) == Some(why@),
        },
{
    let v = chars_of(site);
    if v.len() == 0 {
        return Err("empty");
    }
    if find_in(&v, &chars_of("://")).is_some() {
        return Err("leave out the scheme");
    }
    if starts(&v, &chars_of("www.")) {
        return Err("leave out www. (subdomains match their parent)");
    }
    if v[v.len() - 1] == '/' {
        return Err("no trailing slash");
    }
    let mut i: usize = 0;
    while i < v.len()
        invariant
            0 <= i <= v@.len(),
            v@ == site@,
            v@.len() > 0,
            !contains(v@, "://"@),
            !starts_with(v@, "www."@),
            v@.last() != '/',
            forall|j: int| 0 <= j < i ==> !is_ascii_upper(#[trigger] v@[j]) && !is_white(v@[j]),
        decreases v.len() - i,
    {
        if ('A' <= v[i] && v[i] <= 'Z') || white(v[i]) {
            assert(is_ascii_upper(v@[i as int]) || is_white(v@[i as int]));
            return Err("lowercase, no spaces");
        }
        i += 1;
    }
    let host = before_any_in(&v, &chars_of("/"));
    let dot = chars_of(".");
    if find_char_in(&host, '.').is_none() || starts(&host, &dot) || ends(&host, &dot) {
        return Err("not a domain");
    }
    Ok(())
}

fn ends(v: &[char], pat: &[char]) -> (r: bool)
    ensures
        r == ends_with(v@, pat@),
{
    crate::text::ends(v, pat)
}

// --- Addresses --------------------------------------------------------------------

/// `s` without the dots at its end.
pub open spec fn trim_dots(s: Seq<char>) -> Seq<char>
    decreases s.len(),
{
    if s.len() > 0 && s.last() == '.' {
        trim_dots(s.drop_last())
    } else {
        s
    }
}

pub open spec fn all_ascii_digits(s: Seq<char>) -> bool {
    forall|i: int| 0 <= i < s.len() ==> is_ascii_digit(#[trigger] s[i])
}

/// `https://M.YouTube.com:443/Shorts/x?y` → (`m.youtube.com`, `/shorts/x`).
/// Only web addresses have a place; anything else is unlisted.
pub open spec fn split_address_spec(uri: Seq<char>) -> Option<(Seq<char>, Seq<char>)> {
    match split_once(uri, "://"@) {
        None => None,
        Some((scheme, rest)) => if lower(scheme) != "http"@ && lower(scheme) != "https"@ {
            None
        } else {
            let authority = before_any(rest, "/?#"@);
            let host = match rsplit_once(authority, "@"@) {
                Some((_, h)) => h,
                None => authority,
            };
            let host = match rsplit_once(host, ":"@) {
                Some((h, port)) => if all_ascii_digits(port) {
                    h
                } else {
                    host
                },
                None => host,
            };
            let host = lower(trim_dots(host));
            if host.len() == 0 {
                None
            } else {
                let path = rest.skip(authority.len() as int);
                Some((host, lower(before_any(path, "?#"@))))
            }
        },
    }
}

fn trimmed_dots(v: &[char]) -> (r: Vec<char>)
    ensures
        r@ == trim_dots(v@),
{
    let mut n = v.len();
    assert(v@.take(n as int) == v@);
    while n > 0 && v[n - 1] == '.'
        invariant
            n <= v@.len(),
            trim_dots(v@.take(n as int)) == trim_dots(v@),
        decreases n,
    {
        assert(v@.take(n as int).drop_last() == v@.take(n - 1));
        n -= 1;
    }
    let r = slice_of(v, 0, n);
    assert(r@ == v@.take(n as int));
    r
}

fn digits_only(v: &[char]) -> (r: bool)
    ensures
        r == all_ascii_digits(v@),
{
    let mut i: usize = 0;
    while i < v.len()
        invariant
            0 <= i <= v@.len(),
            forall|j: int| 0 <= j < i ==> is_ascii_digit(#[trigger] v@[j]),
        decreases v.len() - i,
    {
        if !('0' <= v[i] && v[i] <= '9') {
            return false;
        }
        i += 1;
    }
    true
}

pub fn split_address(uri: &str) -> (r: Option<(String, String)>)
    ensures
        match r {
            Some((h, p)) => split_address_spec(uri@) == Some((h@, p@)),
            None => split_address_spec(uri@) is None,
        },
{
    let (scheme, rest) = match split_once_in(&chars_of(uri), &chars_of("://")) {
        Some(parts) => parts,
        None => return None,
    };
    let scheme = lowered(&scheme);
    if !same(&scheme, &chars_of("http")) && !same(&scheme, &chars_of("https")) {
        return None;
    }
    let authority = before_any_in(&rest, &chars_of("/?#"));
    let host = match rsplit_once_in(&authority, &chars_of("@")) {
        Some((_, h)) => h,
        None => slice_of(&authority, 0, authority.len()),
    };
    assert(authority@.subrange(0, authority@.len() as int) == authority@);
    let host = match rsplit_once_in(&host, &chars_of(":")) {
        Some((h, port)) => if digits_only(&port) {
            h
        } else {
            host
        },
        None => host,
    };
    let host = lowered(&trimmed_dots(&host));
    if host.len() == 0 {
        return None;
    }
    proof {
        crate::text::lemma_first_from(rest@.len() as int, is_one_of_at(rest@, "/?#"@), 0);
    }
    let path = slice_of(&rest, authority.len(), rest.len());
    assert(path@ == rest@.skip(authority@.len() as int));
    let path = lowered(&before_any_in(&path, &chars_of("?#")));
    Some((string_of(&host), string_of(&path)))
}


// --- The entries ------------------------------------------------------------------

pub open spec fn is_site(es: Seq<(Seq<char>, List)>, site: Seq<char>) -> spec_fn(int) -> bool {
    |i: int| es[i].0 == site
}

/// Where `site` is among the entries, or -1.
pub open spec fn entry_index(es: Seq<(Seq<char>, List)>, site: Seq<char>) -> int {
    first_from(es.len() as int, is_site(es, site), 0)
}

/// The list `site` itself is on, if it is an entry.
pub open spec fn entry_get(es: Seq<(Seq<char>, List)>, site: Seq<char>) -> Option<List> {
    let i = entry_index(es, site);
    if i == -1 {
        None
    } else {
        Some(es[i].1)
    }
}

/// No entry twice.
pub open spec fn unique(es: Seq<(Seq<char>, List)>) -> bool {
    forall|i: int, j: int| 0 <= i < j < es.len() ==> #[trigger] es[i].0 != #[trigger] es[j].0
}

pub proof fn lemma_entry_index(es: Seq<(Seq<char>, List)>, site: Seq<char>)
    ensures
        -1 <= entry_index(es, site) < es.len(),
        entry_index(es, site) >= 0 ==> es[entry_index(es, site)].0 == site,
        entry_index(es, site) == -1 ==> forall|i: int| 0 <= i < es.len() ==> es[i].0 != site,
{
    lemma_first_from(es.len() as int, is_site(es, site), 0);
    if entry_index(es, site) == -1 {
        assert forall|i: int| 0 <= i < es.len() implies es[i].0 != site by {
            assert(!is_site(es, site)(i));
        }
    } else {
        assert(is_site(es, site)(entry_index(es, site)));
    }
}

/// With no entry twice, an entry is found exactly where it is.
pub proof fn lemma_entry_at(es: Seq<(Seq<char>, List)>, i: int)
    requires
        unique(es),
        0 <= i < es.len(),
    ensures
        entry_index(es, es[i].0) == i,
        entry_get(es, es[i].0) == Some(es[i].1),
{
    lemma_entry_index(es, es[i].0);
    let k = entry_index(es, es[i].0);
    if k != i {
        if k < i {
            assert(es[k].0 != es[i].0);
        } else {
            assert(es[i].0 != es[k].0);
        }
    }
}

pub open spec fn entry_view(e: (String, List)) -> (Seq<char>, List) {
    (e.0@, e.1)
}

/// The sites on the lists, each with the one list it is on.
#[derive(Debug)]
pub struct Entries {
    entries: Vec<(String, List)>,
}

impl View for Entries {
    type V = Seq<(Seq<char>, List)>;

    closed spec fn view(&self) -> Seq<(Seq<char>, List)> {
        self.entries@.map_values(|e: (String, List)| entry_view(e))
    }
}

pub open spec fn on_list(list: List) -> spec_fn((Seq<char>, List)) -> bool {
    |e: (Seq<char>, List)| e.1 == list
}

impl Entries {
    pub fn new() -> (r: Entries)
        ensures
            r@ == Seq::<(Seq<char>, List)>::empty(),
    {
        let r = Entries { entries: Vec::new() };
        assert(r@ =~= Seq::<(Seq<char>, List)>::empty());
        r
    }

    pub fn copy(&self) -> (r: Entries)
        ensures
            r@ == self@,
    {
        let mut entries: Vec<(String, List)> = Vec::new();
        let mut i: usize = 0;
        while i < self.entries.len()
            invariant
                0 <= i <= self.entries@.len(),
                entries@.len() == i,
                forall|j: int| 0 <= j < i ==> entry_view(#[trigger] entries@[j]) == entry_view(
                    self.entries@[j],
                ),
            decreases self.entries.len() - i,
        {
            let e = (self.entries[i].0.clone(), self.entries[i].1);
            entries.push(e);
            i += 1;
        }
        let r = Entries { entries };
        assert(r@ =~= self@);
        r
    }

    pub fn len(&self) -> (r: usize)
        ensures
            r == self@.len(),
    {
        self.entries.len()
    }

    fn find(&self, site: &[char]) -> (r: Option<usize>)
        ensures
            match r {
                Some(i) => i == entry_index(self@, site@) && i < self.entries@.len(),
                None => entry_index(self@, site@) == -1,
            },
    {
        let ghost es = self@;
        let ghost p = is_site(es, site@);
        let mut i: usize = 0;
        while i < self.entries.len()
            invariant
                0 <= i <= self.entries@.len(),
                es == self@,
                p == is_site(es, site@),
                forall|j: int| 0 <= j < i ==> !#[trigger] p(j),
            decreases self.entries.len() - i,
        {
            assert(es[i as int] == entry_view(self.entries@[i as int]));
            if same(&chars_of(self.entries[i].0.as_str()), site) {
                proof {
                    lemma_first_from_is(es.len() as int, p, 0, i as int);
                }
                return Some(i);
            }
            i += 1;
        }
        proof {
            lemma_first_from_is(es.len() as int, p, 0, -1);
        }
        None
    }

    fn get_chars(&self, site: &[char]) -> (r: Option<List>)
        ensures
            r == entry_get(self@, site@),
    {
        match self.find(site) {
            Some(i) => {
                assert(self@[i as int] == entry_view(self.entries@[i as int]));
                Some(self.entries[i].1)
            },
            None => None,
        }
    }

    /// The list the site itself is an entry on, if any.
    pub fn get(&self, site: &str) -> (r: Option<List>)
        ensures
            r == entry_get(self@, site@),
    {
        self.get_chars(&chars_of(site))
    }

    /// Puts the site on a list, in place of the list it was on, and says
    /// which list that was.
    pub fn insert(&mut self, site: &str, list: List) -> (r: Option<List>)
        requires
            unique(old(self)@),
        ensures
            r == entry_get(old(self)@, site@),
            final(self)@ == (if entry_index(old(self)@, site@) == -1 {
                old(self)@.push((site@, list))
            } else {
                old(self)@.update(entry_index(old(self)@, site@), (site@, list))
            }),
            unique(final(self)@),
            entry_get(final(self)@, site@) == Some(list),
            forall|other: Seq<char>|
                other != site@ ==> #[trigger] entry_get(final(self)@, other) == entry_get(
                    old(self)@,
                    other,
                ),
    {
        let ghost before = self@;
        proof {
            lemma_entry_index(before, site@);
        }
        let r = match self.find(&chars_of(site)) {
            Some(i) => {
                let previous = self.entries[i].1;
                assert(before[i as int] == entry_view(self.entries@[i as int]));
                self.entries.set(i, (site.to_owned(), list));
                assert(self@ =~= before.update(i as int, (site@, list)));
                Some(previous)
            },
            None => {
                self.entries.push((site.to_owned(), list));
                assert(self@ =~= before.push((site@, list)));
                None
            },
        };
        proof {
            let after = self@;
            assert(unique(after)) by {
                assert forall|a: int, b: int| 0 <= a < b < after.len() implies #[trigger] after[a].0
                    != #[trigger] after[b].0 by {
                    if entry_index(before, site@) == -1 {
                        if b == before.len() {
                            assert(before[a].0 != site@);
                        } else {
                            assert(before[a].0 != before[b].0);
                        }
                    } else {
                        let k = entry_index(before, site@);
                        if a == k {
                            assert(before[a].0 != before[b].0);
                        } else if b == k {
                            assert(before[a].0 != before[b].0);
                        } else {
                            assert(before[a].0 != before[b].0);
                        }
                    }
                }
            }
            let k = if entry_index(before, site@) == -1 {
                before.len() as int
            } else {
                entry_index(before, site@)
            };
            assert(after[k] == (site@, list));
            lemma_entry_at(after, k);
            assert forall|other: Seq<char>| other != site@ implies #[trigger] entry_get(after, other)
                == entry_get(before, other) by {
                lemma_entry_index(before, other);
                lemma_entry_index(after, other);
                if entry_index(before, other) >= 0 {
                    let j = entry_index(before, other);
                    assert(after[j] == before[j]);
                    lemma_entry_at(after, j);
                } else if entry_index(after, other) >= 0 {
                    let j = entry_index(after, other);
                    assert(j != k);
                    assert(after[j] == before[j]);
                }
            }
        }
        r
    }

    /// Takes the site off whatever list it is on.
    pub fn remove(&mut self, site: &str)
        requires
            unique(old(self)@),
        ensures
            final(self)@ == (if entry_index(old(self)@, site@) == -1 {
                old(self)@
            } else {
                old(self)@.remove(entry_index(old(self)@, site@))
            }),
            unique(final(self)@),
            entry_get(final(self)@, site@) is None,
            forall|other: Seq<char>|
                other != site@ ==> #[trigger] entry_get(final(self)@, other) == entry_get(
                    old(self)@,
                    other,
                ),
    {
        let ghost before = self@;
        proof {
            lemma_entry_index(before, site@);
        }
        match self.find(&chars_of(site)) {
            Some(i) => {
                self.entries.remove(i);
                assert(self@ =~= before.remove(i as int));
            },
            None => {},
        }
        proof {
            let after = self@;
            let k = entry_index(before, site@);
            let from = |a: int| if k == -1 || a < k { a } else { a + 1 };
            assert forall|a: int| 0 <= a < after.len() implies #[trigger] after[a] == before[from(a)] by {}
            assert(unique(after)) by {
                assert forall|a: int, b: int| 0 <= a < b < after.len() implies #[trigger] after[a].0
                    != #[trigger] after[b].0 by {
                    assert(after[a] == before[from(a)]);
                    assert(after[b] == before[from(b)]);
                }
            }
            lemma_entry_index(after, site@);
            if entry_index(after, site@) >= 0 {
                let j = entry_index(after, site@);
                assert(after[j] == before[from(j)]);
                lemma_entry_at(before, from(j));
            }
            assert forall|other: Seq<char>| other != site@ implies #[trigger] entry_get(after, other)
                == entry_get(before, other) by {
                lemma_entry_index(before, other);
                lemma_entry_index(after, other);
                if entry_index(before, other) >= 0 {
                    let j = entry_index(before, other);
                    assert(j != k);
                    let a = if k == -1 || j < k { j } else { j - 1 };
                    assert(after[a] == before[from(a)]);
                    lemma_entry_at(after, a);
                } else if entry_index(after, other) >= 0 {
                    let j = entry_index(after, other);
                    assert(after[j] == before[from(j)]);
                }
            }
        }
    }

    /// How many sites are on the list.
    pub fn count(&self, list: List) -> (r: usize)
        ensures
            r == self@.filter(on_list(list)).len(),
    {
        let ghost es = self@;
        let mut n: usize = 0;
        let mut i: usize = 0;
        while i < self.entries.len()
            invariant
                0 <= i <= self.entries@.len(),
                es == self@,
                n == es.take(i as int).filter(on_list(list)).len(),
                n <= i,
            decreases self.entries.len() - i,
        {
            proof {
                lemma_filter_take(es, on_list(list), i as int);
                assert(es[i as int] == entry_view(self.entries@[i as int]));
            }
            if self.entries[i].1 == list {
                n += 1;
            }
            i += 1;
        }
        assert(es.take(es.len() as int) == es);
        n
    }
}


// --- Looking an address up ---------------------------------------------------------

pub open spec fn nonempty() -> spec_fn(Seq<char>) -> bool {
    |s: Seq<char>| s.len() > 0
}

/// The entry an address would be listed under as the domain from label
/// `start` on, with the first `depth` path segments.
pub open spec fn candidate(labels: Seq<Seq<char>>, segments: Seq<Seq<char>>, start: int, depth: int) -> Seq<char> {
    let domain = join(labels.skip(start), "."@);
    if depth == 0 {
        domain
    } else {
        domain + "/"@ + join(segments.take(depth), "/"@)
    }
}

/// The better of what was found so far and `key`: an entry beats nothing,
/// and a longer entry beats a shorter one.
pub open spec fn better(es: Seq<(Seq<char>, List)>, best: Option<(Seq<char>, List)>, key: Seq<char>) -> Option<(Seq<char>, List)> {
    match entry_get(es, key) {
        Some(l) => if best is None || key.len() > best.unwrap().0.len() {
            Some((key, l))
        } else {
            best
        },
        None => best,
    }
}

/// The best entry among the first `depth` path depths under label `start`.
pub open spec fn best_depths(
    es: Seq<(Seq<char>, List)>,
    labels: Seq<Seq<char>>,
    segments: Seq<Seq<char>>,
    start: int,
    depth: nat,
    best: Option<(Seq<char>, List)>,
) -> Option<(Seq<char>, List)>
    decreases depth,
{
    if depth == 0 {
        best
    } else {
        better(
            es,
            best_depths(es, labels, segments, start, (depth - 1) as nat, best),
            candidate(labels, segments, start, depth - 1),
        )
    }
}

/// The best entry among the first `starts` parent domains, each with every
/// path prefix.
pub open spec fn best_starts(
    es: Seq<(Seq<char>, List)>,
    labels: Seq<Seq<char>>,
    segments: Seq<Seq<char>>,
    starts: nat,
) -> Option<(Seq<char>, List)>
    decreases starts,
{
    if starts == 0 {
        None
    } else {
        best_depths(
            es,
            labels,
            segments,
            starts - 1,
            segments.len() + 1,
            best_starts(es, labels, segments, (starts - 1) as nat),
        )
    }
}

/// Which entry, on which list, an address falls under: of every parent
/// domain (not the bare top-level one) with every whole-segment path prefix,
/// the longest that is an entry, the first found among equals.
pub open spec fn lookup_spec(es: Seq<(Seq<char>, List)>, uri: Seq<char>) -> Option<(Seq<char>, List)> {
    match split_address_spec(uri) {
        None => None,
        Some((host, path)) => {
            let labels = split(host, '.');
            let segments = split(path, '/').filter(nonempty());
            let starts = if labels.len() == 0 {
                0
            } else {
                labels.len() - 1
            };
            best_starts(es, labels, segments, starts as nat)
        },
    }
}

pub open spec fn found_view(b: Option<(Vec<char>, List)>) -> Option<(Seq<char>, List)> {
    match b {
        Some((k, l)) => Some((k@, l)),
        None => None,
    }
}

fn nonempty_pieces(parts: Vec<Vec<char>>) -> (r: Vec<Vec<char>>)
    ensures
        views(r@) == views(parts@).filter(nonempty()),
{
    let ghost ps = views(parts@);
    let mut r: Vec<Vec<char>> = Vec::new();
    let mut i: usize = 0;
    while i < parts.len()
        invariant
            0 <= i <= parts@.len(),
            ps == views(parts@),
            views(r@) == ps.take(i as int).filter(nonempty()),
        decreases parts.len() - i,
    {
        proof {
            lemma_filter_take(ps, nonempty(), i as int);
        }
        if parts[i].len() > 0 {
            let piece = slice_of(&parts[i], 0, parts[i].len());
            assert(piece@ == parts@[i as int]@);
            let ghost before = r@;
            r.push(piece);
            assert(views(r@) == views(before).push(piece@));
        }
        i += 1;
    }
    assert(ps.take(ps.len() as int) == ps);
    r
}

impl Entries {
    /// The better of `best` and the entry at `depth` path segments under
    /// `domain`, if there is one.
    fn consider(
        &self,
        best: Option<(Vec<char>, List)>,
        domain: &Vec<char>,
        segments: &Vec<Vec<char>>,
        depth: usize,
        Ghost(ls): Ghost<Seq<Seq<char>>>,
        Ghost(start): Ghost<int>,
    ) -> (r: Option<(Vec<char>, List)>)
        requires
            depth <= segments@.len(),
            domain@ == join(ls.skip(start), "."@),
        ensures
            found_view(r) == better(
                self@,
                found_view(best),
                candidate(ls, views(segments@), start, depth as int),
            ),
    {
        let ghost ss = views(segments@);
        let mut key = slice_of(domain, 0, domain.len());
        assert(key@ == domain@);
        if depth > 0 {
            push_all(&mut key, &chars_of("/"));
            push_all(&mut key, &joined(segments, 0, depth, &chars_of("/")));
            assert(ss.subrange(0, depth as int) == ss.take(depth as int));
        }
        assert(key@ == candidate(ls, ss, start, depth as int));
        match self.get_chars(&key) {
            Some(l) => {
                let longer = match &best {
                    Some((b, _)) => key.len() > b.len(),
                    None => true,
                };
                if longer {
                    Some((key, l))
                } else {
                    best
                }
            },
            None => best,
        }
    }

    /// Which entry, on which list, an address falls under.
    pub fn lookup(&self, uri: &str) -> (r: Option<(String, List)>)
        ensures
            match r {
                Some((entry, list)) => lookup_spec(self@, uri@) == Some((entry@, list)),
                None => lookup_spec(self@, uri@) is None,
            },
    {
        let (host, path) = match split_address(uri) {
            Some(parts) => parts,
            None => return None,
        };
        let labels = split_char(&chars_of(host.as_str()), '.');
        let segments = nonempty_pieces(split_char(&chars_of(path.as_str()), '/'));
        let ghost ls = views(labels@);
        let ghost ss = views(segments@);
        let ghost es = self@;
        let starts: usize = if labels.len() == 0 {
            0
        } else {
            labels.len() - 1
        };
        let mut best: Option<(Vec<char>, List)> = None;
        let mut start: usize = 0;
        while start < starts
            invariant
                0 <= start <= starts,
                starts < labels@.len() || starts == 0,
                ls == views(labels@),
                ss == views(segments@),
                es == self@,
                found_view(best) == best_starts(es, ls, ss, start as nat),
            decreases starts - start,
        {
            let domain = joined(&labels, start, labels.len(), &chars_of("."));
            assert(ls.subrange(start as int, ls.len() as int) == ls.skip(start as int));
            let ghost at_start = found_view(best);
            let mut depth: usize = 0;
            while depth < segments.len()
                invariant
                    0 <= depth <= segments@.len(),
                    start < labels@.len(),
                    ls == views(labels@),
                    ss == views(segments@),
                    es == self@,
                    domain@ == join(ls.skip(start as int), "."@),
                    at_start == best_starts(es, ls, ss, start as nat),
                    found_view(best) == best_depths(es, ls, ss, start as int, depth as nat, at_start),
                decreases segments@.len() - depth,
            {
                best = self.consider(best, &domain, &segments, depth, Ghost(ls), Ghost(start as int));
                depth += 1;
            }
            best = self.consider(best, &domain, &segments, depth, Ghost(ls), Ghost(start as int));
            start += 1;
        }
        match best {
            Some((k, l)) => Some((string_of(&k), l)),
            None => None,
        }
    }
}


// --- The files --------------------------------------------------------------------

/// One table of a list file as the shell read it: whether it gave a weight,
/// and its sites. The weight itself stays with the shell.
#[derive(Clone, Debug)]
pub struct Table {
    pub has_weight: bool,
    pub sites: Vec<String>,
}

/// A list file: each list with its table, if the file has one, and the
/// sites under `[removed]`, if it has that table.
#[derive(Clone, Debug)]
pub struct ListFile {
    pub tables: Vec<(List, Option<Table>)>,
    pub removed: Option<Vec<String>>,
}

pub open spec fn texts(v: Seq<String>) -> Seq<Seq<char>> {
    v.map_values(|s: String| s@)
}

pub struct TableView {
    pub has_weight: bool,
    pub sites: Seq<Seq<char>>,
}

pub open spec fn table_view(t: Option<Table>) -> Option<TableView> {
    match t {
        Some(t) => Some(TableView { has_weight: t.has_weight, sites: texts(t.sites@) }),
        None => None,
    }
}

pub open spec fn tables_view(ts: Seq<(List, Option<Table>)>) -> Seq<(List, Option<TableView>)> {
    ts.map_values(|t: (List, Option<Table>)| (t.0, table_view(t.1)))
}

pub open spec fn removed_view(r: Option<Vec<String>>) -> Option<Seq<Seq<char>>> {
    match r {
        Some(v) => Some(texts(v@)),
        None => None,
    }
}

/// The message for a malformed entry: its table, the entry as `Debug`
/// writes it, and what is wrong.
pub open spec fn entry_message(table: Seq<char>, site: Seq<char>, why: Seq<char>) -> Seq<char> {
    "["@ + table + "] "@ + debug_text(site) + ": "@ + why
}

/// The first malformed entry among `sites`, as its message.
pub open spec fn sites_problem(table: Seq<char>, sites: Seq<Seq<char>>) -> Option<Seq<char>>
    decreases sites.len(),
{
    if sites.len() == 0 {
        None
    } else {
        match sites_problem(table, sites.drop_last()) {
            Some(m) => Some(m),
            None => match entry_problem(sites.last()) {
                Some(why) => Some(entry_message(table, sites.last(), why)),
                None => None,
            },
        }
    }
}

pub open spec fn tables_problem(ts: Seq<(List, Option<TableView>)>) -> Option<Seq<char>>
    decreases ts.len(),
{
    if ts.len() == 0 {
        None
    } else {
        match tables_problem(ts.drop_last()) {
            Some(m) => Some(m),
            None => match ts.last().1 {
                Some(t) => sites_problem(list_key(ts.last().0), t.sites),
                None => None,
            },
        }
    }
}

/// The first malformed entry in the file, tables first, then `[removed]`.
pub open spec fn file_problem(ts: Seq<(List, Option<TableView>)>, removed: Option<Seq<Seq<char>>>) -> Option<Seq<char>> {
    match tables_problem(ts) {
        Some(m) => Some(m),
        None => match removed {
            Some(r) => sites_problem("removed"@, r),
            None => None,
        },
    }
}

pub open spec fn both_message(site: Seq<char>, first: List, second: List) -> Seq<char> {
    site + " is on both ["@ + list_key(first) + "] and ["@ + list_key(second) + "]"@
}

/// The seed's entries after `sites` join `list`, or the first entry already
/// on a list.
pub open spec fn seed_sites(
    es: Seq<(Seq<char>, List)>,
    sites: Seq<Seq<char>>,
    list: List,
) -> Result<Seq<(Seq<char>, List)>, Seq<char>>
    decreases sites.len(),
{
    if sites.len() == 0 {
        Ok(es)
    } else {
        match seed_sites(es, sites.drop_last(), list) {
            Err(m) => Err(m),
            Ok(es) => match entry_get(es, sites.last()) {
                Some(previous) => Err(both_message(sites.last(), previous, list)),
                None => Ok(es.push((sites.last(), list))),
            },
        }
    }
}

/// A seed table must be there, with a weight exactly when its list has one.
pub open spec fn seed_table_problem(list: List, table: Option<TableView>) -> Option<Seq<char>> {
    match table {
        None => Some("missing ["@ + list_key(list) + "]"@),
        Some(t) => if list_index(list) < WEIGHTED && !t.has_weight {
            Some("["@ + list_key(list) + "] has no weight"@)
        } else if list_index(list) >= WEIGHTED && t.has_weight {
            Some("["@ + list_key(list) + "] takes no weight"@)
        } else {
            None
        },
    }
}

pub open spec fn seed_tables(ts: Seq<(List, Option<TableView>)>) -> Result<Seq<(Seq<char>, List)>, Seq<char>>
    decreases ts.len(),
{
    if ts.len() == 0 {
        Ok(Seq::empty())
    } else {
        match seed_tables(ts.drop_last()) {
            Err(m) => Err(m),
            Ok(es) => match seed_table_problem(ts.last().0, ts.last().1) {
                Some(m) => Err(m),
                None => seed_sites(es, ts.last().1.unwrap().sites, ts.last().0),
            },
        }
    }
}

/// The seed list: every table present, with a weight exactly when its list
/// has one, no entry twice, no `[removed]`, every entry well formed.
pub open spec fn seed_spec(ts: Seq<(List, Option<TableView>)>, removed: Option<Seq<Seq<char>>>) -> Result<Seq<(Seq<char>, List)>, Seq<char>> {
    match file_problem(ts, removed) {
        Some(m) => Err(m),
        None => if removed is Some {
            Err("the seed list has no [removed] table"@)
        } else {
            seed_tables(ts)
        },
    }
}

fn message_for(table: &str, site: &str, why: &str) -> (r: String)
    ensures
        r@ == entry_message(table@, site@, why@),
{
    let mut out = chars_of("[");
    push_str(&mut out, table);
    push_str(&mut out, "] ");
    push_str(&mut out, debug_str(site).as_str());
    push_str(&mut out, ": ");
    push_str(&mut out, why);
    string_of(&out)
}

fn check_sites(table: &str, sites: &Vec<String>) -> (r: Result<(), String>)
    ensures
        match r {
            Ok(()) => sites_problem(table@, texts(sites@)) is None,
            Err(m) => sites_problem(table@, texts(sites@)) == Some(m@),
        },
{
    let ghost ss = texts(sites@);
    let mut i: usize = 0;
    while i < sites.len()
        invariant
            0 <= i <= sites@.len(),
            ss == texts(sites@),
            sites_problem(table@, ss.take(i as int)) is None,
        decreases sites.len() - i,
    {
        assert(ss.take(i + 1).drop_last() == ss.take(i as int));
        assert(ss.take(i + 1).last() == sites@[i as int]@);
        match check_entry(sites[i].as_str()) {
            Ok(()) => {},
            Err(why) => {
                let m = message_for(table, sites[i].as_str(), why);
                proof {
                    lemma_sites_problem_prefix(table@, ss, i + 1);
                }
                return Err(m);
            },
        }
        i += 1;
    }
    assert(ss.take(ss.len() as int) == ss);
    Ok(())
}

/// A problem in the first `k` sites is the problem of them all.
pub proof fn lemma_sites_problem_prefix(table: Seq<char>, ss: Seq<Seq<char>>, k: int)
    requires
        0 <= k <= ss.len(),
        sites_problem(table, ss.take(k)) is Some,
    ensures
        sites_problem(table, ss) == sites_problem(table, ss.take(k)),
    decreases ss.len() - k,
{
    if k < ss.len() {
        assert(ss.take(k + 1).drop_last() == ss.take(k));
        lemma_sites_problem_prefix(table, ss, k + 1);
    } else {
        assert(ss.take(k) == ss);
    }
}

/// A problem in the first `k` tables is the problem of them all.
pub proof fn lemma_tables_problem_prefix(ts: Seq<(List, Option<TableView>)>, k: int)
    requires
        0 <= k <= ts.len(),
        tables_problem(ts.take(k)) is Some,
    ensures
        tables_problem(ts) == tables_problem(ts.take(k)),
    decreases ts.len() - k,
{
    if k < ts.len() {
        assert(ts.take(k + 1).drop_last() == ts.take(k));
        lemma_tables_problem_prefix(ts, k + 1);
    } else {
        assert(ts.take(k) == ts);
    }
}

fn check_file(file: &ListFile) -> (r: Result<(), String>)
    ensures
        match r {
            Ok(()) => file_problem(tables_view(file.tables@), removed_view(file.removed)) is None,
            Err(m) => file_problem(tables_view(file.tables@), removed_view(file.removed)) == Some(
                m@,
            ),
        },
{
    let ghost ts = tables_view(file.tables@);
    let mut i: usize = 0;
    while i < file.tables.len()
        invariant
            0 <= i <= file.tables@.len(),
            ts == tables_view(file.tables@),
            tables_problem(ts.take(i as int)) is None,
        decreases file.tables.len() - i,
    {
        assert(ts.take(i + 1).drop_last() == ts.take(i as int));
        assert(ts.take(i + 1).last() == ts[i as int]);
        match &file.tables[i].1 {
            Some(t) => match check_sites(file.tables[i].0.key(), &t.sites) {
                Ok(()) => {},
                Err(m) => {
                    proof {
                        lemma_tables_problem_prefix(ts, i + 1);
                    }
                    return Err(m);
                },
            },
            None => {},
        }
        i += 1;
    }
    assert(ts.take(ts.len() as int) == ts);
    match &file.removed {
        Some(r) => check_sites("removed", r),
        None => Ok(()),
    }
}

fn both(site: &str, first: List, second: List) -> (r: String)
    ensures
        r@ == both_message(site@, first, second),
{
    let mut out = chars_of(site);
    push_str(&mut out, " is on both [");
    push_str(&mut out, first.key());
    push_str(&mut out, "] and [");
    push_str(&mut out, second.key());
    push_str(&mut out, "]");
    string_of(&out)
}

fn key_message(before: &str, list: List, after: &str) -> (r: String)
    ensures
        r@ == before@ + list_key(list) + after@,
{
    let mut out = chars_of(before);
    push_str(&mut out, list.key());
    push_str(&mut out, after);
    string_of(&out)
}

pub proof fn lemma_seed_sites_err(es: Seq<(Seq<char>, List)>, ss: Seq<Seq<char>>, list: List, k: int)
    requires
        0 <= k <= ss.len(),
        seed_sites(es, ss.take(k), list) is Err,
    ensures
        seed_sites(es, ss, list) == seed_sites(es, ss.take(k), list),
    decreases ss.len() - k,
{
    if k < ss.len() {
        assert(ss.take(k + 1).drop_last() == ss.take(k));
        lemma_seed_sites_err(es, ss, list, k + 1);
    } else {
        assert(ss.take(k) == ss);
    }
}

pub proof fn lemma_seed_tables_err(ts: Seq<(List, Option<TableView>)>, k: int)
    requires
        0 <= k <= ts.len(),
        seed_tables(ts.take(k)) is Err,
    ensures
        seed_tables(ts) == seed_tables(ts.take(k)),
    decreases ts.len() - k,
{
    if k < ts.len() {
        assert(ts.take(k + 1).drop_last() == ts.take(k));
        lemma_seed_tables_err(ts, k + 1);
    } else {
        assert(ts.take(k) == ts);
    }
}

impl Entries {
    /// `sites` joining `list`, as a seed table does: an entry already on a
    /// list is a mistake.
    fn seed_sites(&mut self, sites: &Vec<String>, list: List) -> (r: Result<(), String>)
        requires
            unique(old(self)@),
        ensures
            unique(final(self)@),
            match r {
                Ok(()) => seed_sites(old(self)@, texts(sites@), list) == Ok::<
                    Seq<(Seq<char>, List)>,
                    Seq<char>,
                >(final(self)@),
                Err(m) => seed_sites(old(self)@, texts(sites@), list) == Err::<
                    Seq<(Seq<char>, List)>,
                    Seq<char>,
                >(m@),
            },
    {
        let ghost start = self@;
        let ghost ss = texts(sites@);
        let mut i: usize = 0;
        while i < sites.len()
            invariant
                0 <= i <= sites@.len(),
                ss == texts(sites@),
                start == old(self)@,
                unique(self@),
                seed_sites(start, ss.take(i as int), list) == Ok::<
                    Seq<(Seq<char>, List)>,
                    Seq<char>,
                >(self@),
            decreases sites.len() - i,
        {
            assert(ss.take(i + 1).drop_last() == ss.take(i as int));
            assert(ss.take(i + 1).last() == sites@[i as int]@);
            match self.get(sites[i].as_str()) {
                Some(previous) => {
                    let m = both(sites[i].as_str(), previous, list);
                    assert(seed_sites(start, ss.take(i + 1), list) == Err::<
                        Seq<(Seq<char>, List)>,
                        Seq<char>,
                    >(m@));
                    proof {
                        lemma_seed_sites_err(start, ss, list, i + 1);
                    }
                    return Err(m);
                },
                None => {
                    self.insert(sites[i].as_str(), list);
                },
            }
            i += 1;
        }
        assert(ss.take(ss.len() as int) == ss);
        Ok(())
    }

    /// The seed list: every table present with a weight exactly where its
    /// list has one, no entry twice, no `[removed]`, every entry well formed.
    /// The weights' values are the shell's to check.
    pub fn seed(file: &ListFile) -> (r: Result<Entries, String>)
        ensures
            match r {
                Ok(es) => seed_spec(tables_view(file.tables@), removed_view(file.removed)) == Ok::<
                    Seq<(Seq<char>, List)>,
                    Seq<char>,
                >(es@) && unique(es@),
                Err(m) => seed_spec(tables_view(file.tables@), removed_view(file.removed)) == Err::<
                    Seq<(Seq<char>, List)>,
                    Seq<char>,
                >(m@),
            },
    {
        match check_file(file) {
            Ok(()) => {},
            Err(m) => return Err(m),
        }
        if file.removed.is_some() {
            return Err("the seed list has no [removed] table".to_owned());
        }
        let ghost ts = tables_view(file.tables@);
        let mut es = Entries::new();
        let mut i: usize = 0;
        while i < file.tables.len()
            invariant
                0 <= i <= file.tables@.len(),
                ts == tables_view(file.tables@),
                file_problem(ts, removed_view(file.removed)) is None,
                file.removed is None,
                unique(es@),
                seed_tables(ts.take(i as int)) == Ok::<Seq<(Seq<char>, List)>, Seq<char>>(es@),
            decreases file.tables.len() - i,
        {
            assert(ts.take(i + 1).drop_last() == ts.take(i as int));
            assert(ts.take(i + 1).last() == ts[i as int]);
            let list = file.tables[i].0;
            match &file.tables[i].1 {
                None => {
                    proof {
                        lemma_seed_tables_err(ts, i + 1);
                    }
                    return Err(key_message("missing [", list, "]"));
                },
                Some(t) => {
                    if list.weighted() && !t.has_weight {
                        proof {
                            lemma_seed_tables_err(ts, i + 1);
                        }
                        return Err(key_message("[", list, "] has no weight"));
                    }
                    if !list.weighted() && t.has_weight {
                        proof {
                            lemma_seed_tables_err(ts, i + 1);
                        }
                        return Err(key_message("[", list, "] takes no weight"));
                    }
                    match es.seed_sites(&t.sites, list) {
                        Ok(()) => {},
                        Err(m) => {
                            proof {
                                lemma_seed_tables_err(ts, i + 1);
                            }
                            return Err(m);
                        },
                    }
                },
            }
            i += 1;
        }
        assert(ts.take(ts.len() as int) == ts);
        Ok(es)
    }
}


// --- The user's own file ----------------------------------------------------------

pub open spec fn insert_spec(es: Seq<(Seq<char>, List)>, site: Seq<char>, list: List) -> Seq<(Seq<char>, List)> {
    let i = entry_index(es, site);
    if i == -1 {
        es.push((site, list))
    } else {
        es.update(i, (site, list))
    }
}

pub open spec fn remove_spec(es: Seq<(Seq<char>, List)>, site: Seq<char>) -> Seq<(Seq<char>, List)> {
    let i = entry_index(es, site);
    if i == -1 {
        es
    } else {
        es.remove(i)
    }
}

/// The entries and the sites the user's file has listed so far, after
/// `sites` join `list`; a site listed twice in the file is a mistake.
pub open spec fn user_sites(
    es: Seq<(Seq<char>, List)>,
    seen: Seq<(Seq<char>, List)>,
    sites: Seq<Seq<char>>,
    list: List,
) -> Result<(Seq<(Seq<char>, List)>, Seq<(Seq<char>, List)>), Seq<char>>
    decreases sites.len(),
{
    if sites.len() == 0 {
        Ok((es, seen))
    } else {
        match user_sites(es, seen, sites.drop_last(), list) {
            Err(m) => Err(m),
            Ok((es, seen)) => match entry_get(seen, sites.last()) {
                Some(previous) => Err(both_message(sites.last(), previous, list) + " in your list"@),
                None => Ok((insert_spec(es, sites.last(), list), seen.push((sites.last(), list)))),
            },
        }
    }
}

pub open spec fn user_tables(
    base: Seq<(Seq<char>, List)>,
    ts: Seq<(List, Option<TableView>)>,
) -> Result<(Seq<(Seq<char>, List)>, Seq<(Seq<char>, List)>), Seq<char>>
    decreases ts.len(),
{
    if ts.len() == 0 {
        Ok((base, Seq::empty()))
    } else {
        match user_tables(base, ts.drop_last()) {
            Err(m) => Err(m),
            Ok((es, seen)) => match ts.last().1 {
                None => Ok((es, seen)),
                Some(t) => if t.has_weight && list_index(ts.last().0) >= WEIGHTED {
                    Err("["@ + list_key(ts.last().0) + "] takes no weight"@)
                } else {
                    user_sites(es, seen, t.sites, ts.last().0)
                },
            },
        }
    }
}

pub open spec fn user_removed(
    es: Seq<(Seq<char>, List)>,
    seen: Seq<(Seq<char>, List)>,
    removed: Seq<Seq<char>>,
) -> Result<Seq<(Seq<char>, List)>, Seq<char>>
    decreases removed.len(),
{
    if removed.len() == 0 {
        Ok(es)
    } else {
        match user_removed(es, seen, removed.drop_last()) {
            Err(m) => Err(m),
            Ok(es) => if entry_get(seen, removed.last()) is Some {
                Err(removed.last() + " is both on a list and removed in your list"@)
            } else {
                Ok(remove_spec(es, removed.last()))
            },
        }
    }
}

/// The user's file on top of `base`: sites it lists move to (or join) that
/// list, `[removed]` sites come off every list, and a weight may only be
/// given where the list has one.
pub open spec fn with_user_spec(
    base: Seq<(Seq<char>, List)>,
    ts: Seq<(List, Option<TableView>)>,
    removed: Option<Seq<Seq<char>>>,
) -> Result<Seq<(Seq<char>, List)>, Seq<char>> {
    match file_problem(ts, removed) {
        Some(m) => Err(m),
        None => match user_tables(base, ts) {
            Err(m) => Err(m),
            Ok((es, seen)) => match removed {
                None => Ok(es),
                Some(r) => user_removed(es, seen, r),
            },
        },
    }
}

pub proof fn lemma_user_sites_err(
    es: Seq<(Seq<char>, List)>,
    seen: Seq<(Seq<char>, List)>,
    ss: Seq<Seq<char>>,
    list: List,
    k: int,
)
    requires
        0 <= k <= ss.len(),
        user_sites(es, seen, ss.take(k), list) is Err,
    ensures
        user_sites(es, seen, ss, list) == user_sites(es, seen, ss.take(k), list),
    decreases ss.len() - k,
{
    if k < ss.len() {
        assert(ss.take(k + 1).drop_last() == ss.take(k));
        lemma_user_sites_err(es, seen, ss, list, k + 1);
    } else {
        assert(ss.take(k) == ss);
    }
}

pub proof fn lemma_user_tables_err(base: Seq<(Seq<char>, List)>, ts: Seq<(List, Option<TableView>)>, k: int)
    requires
        0 <= k <= ts.len(),
        user_tables(base, ts.take(k)) is Err,
    ensures
        user_tables(base, ts) == user_tables(base, ts.take(k)),
    decreases ts.len() - k,
{
    if k < ts.len() {
        assert(ts.take(k + 1).drop_last() == ts.take(k));
        lemma_user_tables_err(base, ts, k + 1);
    } else {
        assert(ts.take(k) == ts);
    }
}

pub proof fn lemma_user_removed_err(
    es: Seq<(Seq<char>, List)>,
    seen: Seq<(Seq<char>, List)>,
    rs: Seq<Seq<char>>,
    k: int,
)
    requires
        0 <= k <= rs.len(),
        user_removed(es, seen, rs.take(k)) is Err,
    ensures
        user_removed(es, seen, rs) == user_removed(es, seen, rs.take(k)),
    decreases rs.len() - k,
{
    if k < rs.len() {
        assert(rs.take(k + 1).drop_last() == rs.take(k));
        lemma_user_removed_err(es, seen, rs, k + 1);
    } else {
        assert(rs.take(k) == rs);
    }
}

fn in_your_list(site: &str, first: List, second: List) -> (r: String)
    ensures
        r@ == both_message(site@, first, second) + " in your list"@,
{
    let mut out = chars_of(both(site, first, second).as_str());
    push_str(&mut out, " in your list");
    string_of(&out)
}

impl Entries {
    fn user_sites(&mut self, seen: &mut Entries, sites: &Vec<String>, list: List) -> (r: Result<(), String>)
        requires
            unique(old(self)@),
            unique(old(seen)@),
        ensures
            unique(final(self)@),
            unique(final(seen)@),
            match r {
                Ok(()) => user_sites(old(self)@, old(seen)@, texts(sites@), list) == Ok::<
                    (Seq<(Seq<char>, List)>, Seq<(Seq<char>, List)>),
                    Seq<char>,
                >((final(self)@, final(seen)@)),
                Err(m) => user_sites(old(self)@, old(seen)@, texts(sites@), list) == Err::<
                    (Seq<(Seq<char>, List)>, Seq<(Seq<char>, List)>),
                    Seq<char>,
                >(m@),
            },
    {
        let ghost es0 = self@;
        let ghost seen0 = seen@;
        let ghost ss = texts(sites@);
        let mut i: usize = 0;
        while i < sites.len()
            invariant
                0 <= i <= sites@.len(),
                ss == texts(sites@),
                es0 == old(self)@,
                seen0 == old(seen)@,
                unique(self@),
                unique(seen@),
                user_sites(es0, seen0, ss.take(i as int), list) == Ok::<
                    (Seq<(Seq<char>, List)>, Seq<(Seq<char>, List)>),
                    Seq<char>,
                >((self@, seen@)),
            decreases sites.len() - i,
        {
            assert(ss.take(i + 1).drop_last() == ss.take(i as int));
            assert(ss.take(i + 1).last() == sites@[i as int]@);
            match seen.get(sites[i].as_str()) {
                Some(previous) => {
                    let m = in_your_list(sites[i].as_str(), previous, list);
                    assert(user_sites(es0, seen0, ss.take(i + 1), list) == Err::<
                        (Seq<(Seq<char>, List)>, Seq<(Seq<char>, List)>),
                        Seq<char>,
                    >(m@));
                    proof {
                        lemma_user_sites_err(es0, seen0, ss, list, i + 1);
                    }
                    return Err(m);
                },
                None => {
                    let ghost before = seen@;
                    seen.insert(sites[i].as_str(), list);
                    assert(seen@ == before.push((sites@[i as int]@, list)));
                    self.insert(sites[i].as_str(), list);
                },
            }
            i += 1;
        }
        assert(ss.take(ss.len() as int) == ss);
        Ok(())
    }

    /// The user's own file applied on top: sites it lists move to (or join)
    /// that list, and `[removed]` sites come off every list. The weights it
    /// gives are the shell's to apply and check.
    pub fn with_user(&self, file: &ListFile) -> (r: Result<Entries, String>)
        requires
            unique(self@),
        ensures
            match r {
                Ok(es) => with_user_spec(self@, tables_view(file.tables@), removed_view(file.removed))
                    == Ok::<Seq<(Seq<char>, List)>, Seq<char>>(es@) && unique(es@),
                Err(m) => with_user_spec(self@, tables_view(file.tables@), removed_view(file.removed))
                    == Err::<Seq<(Seq<char>, List)>, Seq<char>>(m@),
            },
    {
        match check_file(file) {
            Ok(()) => {},
            Err(m) => return Err(m),
        }
        let ghost ts = tables_view(file.tables@);
        let ghost base = self@;
        let mut es = self.copy();
        let mut seen = Entries::new();
        let mut i: usize = 0;
        while i < file.tables.len()
            invariant
                0 <= i <= file.tables@.len(),
                ts == tables_view(file.tables@),
                base == self@,
                file_problem(ts, removed_view(file.removed)) is None,
                unique(es@),
                unique(seen@),
                user_tables(base, ts.take(i as int)) == Ok::<
                    (Seq<(Seq<char>, List)>, Seq<(Seq<char>, List)>),
                    Seq<char>,
                >((es@, seen@)),
            decreases file.tables.len() - i,
        {
            assert(ts.take(i + 1).drop_last() == ts.take(i as int));
            assert(ts.take(i + 1).last() == ts[i as int]);
            let list = file.tables[i].0;
            match &file.tables[i].1 {
                None => {},
                Some(t) => {
                    if t.has_weight && !list.weighted() {
                        proof {
                            lemma_user_tables_err(base, ts, i + 1);
                        }
                        return Err(key_message("[", list, "] takes no weight"));
                    }
                    match es.user_sites(&mut seen, &t.sites, list) {
                        Ok(()) => {},
                        Err(m) => {
                            proof {
                                lemma_user_tables_err(base, ts, i + 1);
                            }
                            return Err(m);
                        },
                    }
                },
            }
            i += 1;
        }
        assert(ts.take(ts.len() as int) == ts);
        let removed = match &file.removed {
            Some(r) => r,
            None => return Ok(es),
        };
        let ghost rs = texts(removed@);
        let ghost es1 = es@;
        let ghost seen1 = seen@;
        let mut k: usize = 0;
        while k < removed.len()
            invariant
                0 <= k <= removed@.len(),
                rs == texts(removed@),
                removed_view(file.removed) == Some(rs),
                ts == tables_view(file.tables@),
                base == self@,
                file_problem(ts, removed_view(file.removed)) is None,
                user_tables(base, ts) == Ok::<
                    (Seq<(Seq<char>, List)>, Seq<(Seq<char>, List)>),
                    Seq<char>,
                >((es1, seen1)),
                seen@ == seen1,
                unique(seen@),
                unique(es@),
                user_removed(es1, seen1, rs.take(k as int)) == Ok::<
                    Seq<(Seq<char>, List)>,
                    Seq<char>,
                >(es@),
            decreases removed.len() - k,
        {
            assert(rs.take(k + 1).drop_last() == rs.take(k as int));
            assert(rs.take(k + 1).last() == removed@[k as int]@);
            if seen.get(removed[k].as_str()).is_some() {
                let mut m = chars_of(removed[k].as_str());
                push_str(&mut m, " is both on a list and removed in your list");
                let m = string_of(&m);
                assert(user_removed(es1, seen1, rs.take(k + 1)) == Err::<
                    Seq<(Seq<char>, List)>,
                    Seq<char>,
                >(m@));
                proof {
                    lemma_user_removed_err(es1, seen1, rs, k + 1);
                }
                return Err(m);
            }
            es.remove(removed[k].as_str());
            k += 1;
        }
        assert(rs.take(rs.len() as int) == rs);
        Ok(es)
    }
}


impl Entries {
    /// Which entry a site written bare, as Settings shows it, falls under.
    pub fn lookup_site(&self, site: &str) -> (r: Option<(String, List)>)
        ensures
            match r {
                Some((entry, list)) => lookup_spec(self@, "https://"@ + site@) == Some((entry@, list)),
                None => lookup_spec(self@, "https://"@ + site@) is None,
            },
    {
        let mut uri = chars_of("https://");
        push_str(&mut uri, site);
        self.lookup(string_of(&uri).as_str())
    }
}

pub open spec fn site_on(list: Option<List>) -> spec_fn(Seq<char>) -> (Seq<char>, Option<List>) {
    |s: Seq<char>| (s, list)
}

/// Every site a file names, with the list it puts it on, in the file's
/// order; the `[removed]` ones last, with none.
pub open spec fn named_sites(ts: Seq<(List, Option<TableView>)>) -> Seq<(Seq<char>, Option<List>)>
    decreases ts.len(),
{
    if ts.len() == 0 {
        Seq::empty()
    } else {
        named_sites(ts.drop_last()) + match ts.last().1 {
            Some(t) => t.sites.map_values(site_on(Some(ts.last().0))),
            None => Seq::empty(),
        }
    }
}

pub open spec fn user_entries_spec(ts: Seq<(List, Option<TableView>)>, removed: Option<Seq<Seq<char>>>) -> Result<Seq<(Seq<char>, Option<List>)>, Seq<char>> {
    match file_problem(ts, removed) {
        Some(m) => Err(m),
        None => Ok(named_sites(ts) + match removed {
            Some(r) => r.map_values(site_on(None)),
            None => Seq::empty(),
        }),
    }
}

pub open spec fn named_view(v: Seq<(String, Option<List>)>) -> Seq<(Seq<char>, Option<List>)> {
    v.map_values(|e: (String, Option<List>)| (e.0@, e.1))
}

fn name_sites(out: &mut Vec<(String, Option<List>)>, sites: &Vec<String>, list: Option<List>)
    ensures
        named_view(final(out)@) == named_view(old(out)@) + texts(sites@).map_values(site_on(list)),
{
    let ghost start = named_view(out@);
    let ghost ss = texts(sites@);
    let mut i: usize = 0;
    while i < sites.len()
        invariant
            0 <= i <= sites@.len(),
            ss == texts(sites@),
            named_view(out@) == start + ss.take(i as int).map_values(site_on(list)),
        decreases sites.len() - i,
    {
        let ghost before = named_view(out@);
        out.push((sites[i].clone(), list));
        proof {
            assert(named_view(out@) == before.push((sites@[i as int]@, list)));
            assert(ss.take(i + 1).map_values(site_on(list)) == ss.take(i as int).map_values(
                site_on(list),
            ).push(site_on(list)(ss[i as int])));
        }
        i += 1;
    }
    assert(ss.take(ss.len() as int) == ss);
}

/// The sites the user's own file names, each with the list it puts it on,
/// or none for a site under `[removed]`.
pub fn user_entries(file: &ListFile) -> (r: Result<Vec<(String, Option<List>)>, String>)
    ensures
        match r {
            Ok(v) => user_entries_spec(tables_view(file.tables@), removed_view(file.removed)) == Ok::<
                Seq<(Seq<char>, Option<List>)>,
                Seq<char>,
            >(named_view(v@)),
            Err(m) => user_entries_spec(tables_view(file.tables@), removed_view(file.removed))
                == Err::<Seq<(Seq<char>, Option<List>)>, Seq<char>>(m@),
        },
{
    match check_file(file) {
        Ok(()) => {},
        Err(m) => return Err(m),
    }
    let ghost ts = tables_view(file.tables@);
    let mut out: Vec<(String, Option<List>)> = Vec::new();
    let mut i: usize = 0;
    while i < file.tables.len()
        invariant
            0 <= i <= file.tables@.len(),
            ts == tables_view(file.tables@),
            named_view(out@) == named_sites(ts.take(i as int)),
        decreases file.tables.len() - i,
    {
        assert(ts.take(i + 1).drop_last() == ts.take(i as int));
        assert(ts.take(i + 1).last() == ts[i as int]);
        match &file.tables[i].1 {
            Some(t) => name_sites(&mut out, &t.sites, Some(file.tables[i].0)),
            None => {
                assert(named_view(out@) == named_view(out@) + Seq::<(Seq<char>, Option<List>)>::empty());
            },
        }
        i += 1;
    }
    assert(ts.take(ts.len() as int) == ts);
    match &file.removed {
        Some(r) => name_sites(&mut out, r, None),
        None => {
            assert(named_view(out@) == named_view(out@) + Seq::<(Seq<char>, Option<List>)>::empty());
        },
    }
    Ok(out)
}


// --- What a lookup finds --------------------------------------------------------------

/// A candidate already looked at: every path depth of the first `start`
/// domains, and the first `depth` of domain `start`.
pub open spec fn looked_at(segments: Seq<Seq<char>>, start: int, depth: int, s: int, dd: int) -> bool {
    0 <= s && 0 <= dd <= segments.len() && (s < start || (s == start && dd < depth))
}

/// What has been found so far is an entry on its list, and the longest of
/// the candidates looked at that are entries; nothing is found only when
/// none of them is.
pub open spec fn covers(
    es: Seq<(Seq<char>, List)>,
    labels: Seq<Seq<char>>,
    segments: Seq<Seq<char>>,
    found: Option<(Seq<char>, List)>,
    start: int,
    depth: int,
) -> bool {
    match found {
        Some((e, l)) => entry_get(es, e) == Some(l) && forall|s: int, dd: int|
            looked_at(segments, start, depth, s, dd) && entry_get(
                es,
                #[trigger] candidate(labels, segments, s, dd),
            ) is Some ==> candidate(labels, segments, s, dd).len() <= e.len(),
        None => forall|s: int, dd: int|
            looked_at(segments, start, depth, s, dd) ==> entry_get(
                es,
                #[trigger] candidate(labels, segments, s, dd),
            ) is None,
    }
}

proof fn lemma_best_depths(
    es: Seq<(Seq<char>, List)>,
    labels: Seq<Seq<char>>,
    segments: Seq<Seq<char>>,
    start: int,
    depth: nat,
    found: Option<(Seq<char>, List)>,
)
    requires
        0 <= start,
        depth <= segments.len() + 1,
        covers(es, labels, segments, found, start, 0),
    ensures
        covers(es, labels, segments, best_depths(es, labels, segments, start, depth, found), start, depth as int),
    decreases depth,
{
    if depth > 0 {
        let d1 = (depth - 1) as nat;
        lemma_best_depths(es, labels, segments, start, d1, found);
        let prev = best_depths(es, labels, segments, start, d1, found);
        let key = candidate(labels, segments, start, d1 as int);
        let next = better(es, prev, key);
        assert(next == best_depths(es, labels, segments, start, depth, found));
        match next {
            Some((e, l)) => {
                assert forall|s: int, dd: int|
                    looked_at(segments, start, depth as int, s, dd) && entry_get(
                        es,
                        #[trigger] candidate(labels, segments, s, dd),
                    ) is Some implies candidate(labels, segments, s, dd).len() <= e.len() by {
                    if !(s == start && dd == d1) {
                        assert(looked_at(segments, start, d1 as int, s, dd));
                    }
                }
            },
            None => {
                assert forall|s: int, dd: int|
                    looked_at(segments, start, depth as int, s, dd) implies entry_get(
                        es,
                        #[trigger] candidate(labels, segments, s, dd),
                    ) is None by {
                    if !(s == start && dd == d1) {
                        assert(looked_at(segments, start, d1 as int, s, dd));
                    }
                }
            },
        }
    }
}

proof fn lemma_best_starts(
    es: Seq<(Seq<char>, List)>,
    labels: Seq<Seq<char>>,
    segments: Seq<Seq<char>>,
    starts: nat,
)
    ensures
        covers(es, labels, segments, best_starts(es, labels, segments, starts), starts as int, 0),
    decreases starts,
{
    if starts > 0 {
        let s1 = (starts - 1) as nat;
        lemma_best_starts(es, labels, segments, s1);
        let prev = best_starts(es, labels, segments, s1);
        lemma_best_depths(es, labels, segments, s1 as int, segments.len() + 1, prev);
        let found = best_starts(es, labels, segments, starts);
        assert(found == best_depths(es, labels, segments, s1 as int, segments.len() + 1, prev));
        assert forall|s: int, dd: int|
            looked_at(segments, starts as int, 0, s, dd) implies looked_at(
            segments,
            s1 as int,
            segments.len() + 1 as int,
            s,
            dd,
        ) by {}
    }
}

/// An address falls under an entry that is on the list it says, and under
/// the longest of the entries it could fall under: its own domain or a
/// parent (not the bare top-level one), with whole path segments. It falls
/// under none only when none of those is an entry.
pub proof fn the_longest_matching_entry_wins(es: Seq<(Seq<char>, List)>, uri: Seq<char>)
    requires
        split_address_spec(uri) is Some,
    ensures
        ({
            let (host, path) = split_address_spec(uri).unwrap();
            let labels = split(host, '.');
            let segments = split(path, '/').filter(nonempty());
            let starts = if labels.len() == 0 {
                0
            } else {
                labels.len() - 1
            };
            covers(es, labels, segments, lookup_spec(es, uri), starts, 0)
        }),
{
    let (host, path) = split_address_spec(uri).unwrap();
    let labels = split(host, '.');
    let segments = split(path, '/').filter(nonempty());
    let starts = if labels.len() == 0 {
        0
    } else {
        labels.len() - 1
    };
    lemma_best_starts(es, labels, segments, starts as nat);
}

} // verus!
