//! The tabs a window holds, and which of them is in front.
//!
//! Nothing here knows what a webview is. A shell keeps its own engine beside
//! each tab's id, tells this what the engine reports, and asks it what the
//! tab column should show. The order, the ids, which tab takes over when one
//! closes and what the chrome is told are then the same on every platform.

use vstd::prelude::*;

use crate::nav::{host_of, host_of_spec};
use crate::protocol::{TabInfo, TabSound};
use crate::session::{restoring, Session, Sleeper, sleeper_views};
use crate::text::{chars_of, first_from, lemma_filter_take, lemma_first_from, lemma_first_from_is, same};

verus! {

/// What a shell's engine reports about one tab.
#[derive(Clone, Debug, Default, PartialEq, Eq)]
pub struct Facts {
    pub title: String,
    pub uri: String,
    pub loading: bool,
    pub playing: bool,
    pub muted: bool,
    /// The site icon as a `data:` URL, sent to the chrome on its own.
    pub icon: Option<String>,
    /// Restored from the last run and not loaded yet. It holds its place in
    /// the column with the title it had, and wakes when it is asked for.
    pub asleep: bool,
}

/// What a tab's facts say, as plain values.
pub struct FactsView {
    pub title: Seq<char>,
    pub uri: Seq<char>,
    pub loading: bool,
    pub playing: bool,
    pub muted: bool,
    pub icon: Option<Seq<char>>,
    pub asleep: bool,
}

pub open spec fn opt_view(s: Option<String>) -> Option<Seq<char>> {
    match s {
        Some(s) => Some(s@),
        None => None,
    }
}

impl View for Facts {
    type V = FactsView;

    open spec fn view(&self) -> FactsView {
        FactsView {
            title: self.title@,
            uri: self.uri@,
            loading: self.loading,
            playing: self.playing,
            muted: self.muted,
            icon: opt_view(self.icon),
            asleep: self.asleep,
        }
    }
}

/// A tab nobody has told anything yet.
pub open spec fn blank_facts() -> FactsView {
    FactsView {
        title: Seq::empty(),
        uri: Seq::empty(),
        loading: false,
        playing: false,
        muted: false,
        icon: None,
        asleep: false,
    }
}

pub open spec fn sound_of(f: FactsView) -> TabSound {
    if f.muted {
        TabSound::Muted
    } else if f.playing {
        TabSound::Playing
    } else {
        TabSound::Silent
    }
}

/// What the column shows on the tab: its title, or failing that where it
/// is, or failing that nothing at all.
pub open spec fn label_of(f: FactsView) -> Seq<char> {
    if f.title.len() == 0 {
        f.uri
    } else {
        f.title
    }
}

fn copy_text(s: &Option<String>) -> (r: Option<String>)
    ensures
        opt_view(r) == opt_view(*s),
{
    match s {
        Some(s) => Some(s.clone()),
        None => None,
    }
}

fn same_text(a: &str, b: &str) -> (r: bool)
    ensures
        r == (a@ == b@),
{
    same(&chars_of(a), &chars_of(b))
}

impl Facts {
    pub fn blank() -> (r: Facts)
        ensures
            r@ == blank_facts(),
    {
        Facts {
            title: String::new(),
            uri: String::new(),
            loading: false,
            playing: false,
            muted: false,
            icon: None,
            asleep: false,
        }
    }

    pub fn sound(&self) -> (r: TabSound)
        ensures
            r == sound_of(self@),
    {
        if self.muted {
            TabSound::Muted
        } else if self.playing {
            TabSound::Playing
        } else {
            TabSound::Silent
        }
    }

    pub fn label(&self) -> (r: String)
        ensures
            r@ == label_of(self@),
    {
        if self.title.as_str().is_empty() {
            self.uri.clone()
        } else {
            self.title.clone()
        }
    }

    pub fn copy(&self) -> (r: Facts)
        ensures
            r@ == self@,
    {
        Facts {
            title: self.title.clone(),
            uri: self.uri.clone(),
            loading: self.loading,
            playing: self.playing,
            muted: self.muted,
            icon: copy_text(&self.icon),
            asleep: self.asleep,
        }
    }

    /// Whether two reports say the same thing.
    pub fn same_as(&self, other: &Facts) -> (r: bool)
        ensures
            r == (self@ == other@),
    {
        let icons = match (&self.icon, &other.icon) {
            (Some(a), Some(b)) => same_text(a.as_str(), b.as_str()),
            (None, None) => true,
            _ => false,
        };
        same_text(self.title.as_str(), other.title.as_str()) && same_text(
            self.uri.as_str(),
            other.uri.as_str(),
        ) && self.loading == other.loading && self.playing == other.playing && self.muted
            == other.muted && icons && self.asleep == other.asleep
    }
}

#[derive(Clone, Debug)]
pub struct Tab {
    pub id: u32,
    pub facts: Facts,
}

pub open spec fn tab_view(t: Tab) -> (u32, FactsView) {
    (t.id, t.facts@)
}

/// The tabs, in the order they are shown.
#[derive(Debug)]
pub struct Tabs {
    tabs: Vec<Tab>,
    selected: Option<u32>,
    next_id: u32,
}

/// The tabs as plain values: each id with its facts, in column order, the
/// one in front, and the id the next tab will get.
pub struct TabsView {
    pub tabs: Seq<(u32, FactsView)>,
    pub selected: Option<u32>,
    pub next_id: u32,
}

pub open spec fn is_id(tabs: Seq<(u32, FactsView)>, id: u32) -> spec_fn(int) -> bool {
    |i: int| tabs[i].0 == id
}

/// Where the tab with this id is in the column, or -1.
pub open spec fn index_of(tabs: Seq<(u32, FactsView)>, id: u32) -> int {
    first_from(tabs.len() as int, is_id(tabs, id), 0)
}

pub open spec fn has_id(tabs: Seq<(u32, FactsView)>, id: u32) -> bool {
    exists|i: int| 0 <= i < tabs.len() && tabs[i].0 == id
}

impl TabsView {
    /// No id twice, every id below the next one, and a tab in front exactly
    /// when there are tabs.
    pub open spec fn wf(self) -> bool {
        &&& forall|i: int, j: int|
            0 <= i < j < self.tabs.len() ==> #[trigger] self.tabs[i].0 != #[trigger] self.tabs[j].0
        &&& forall|i: int| 0 <= i < self.tabs.len() ==> #[trigger] self.tabs[i].0 < self.next_id
        &&& (self.selected is None <==> self.tabs.len() == 0)
        &&& (self.selected matches Some(id) ==> has_id(self.tabs, id))
    }

    pub open spec fn ids(self) -> Seq<u32> {
        self.tabs.map_values(|t: (u32, FactsView)| t.0)
    }
}

/// Which tab is in front after closing the one at `index`: the one that took
/// its place, or the new last, or none.
pub open spec fn after_close(rest: Seq<(u32, FactsView)>, index: int) -> Option<u32> {
    if index < rest.len() {
        Some(rest[index].0)
    } else if rest.len() > 0 {
        Some(rest.last().0)
    } else {
        None
    }
}

pub open spec fn step_spec(v: TabsView, by: int) -> Option<u32> {
    match v.selected {
        Some(id) => {
            let index = index_of(v.tabs, id);
            if index == -1 {
                None
            } else {
                Some(v.tabs[(index + by) % (v.tabs.len() as int)].0)
            }
        },
        None => None,
    }
}

pub open spec fn is_other(than: Option<u32>) -> spec_fn((u32, FactsView)) -> bool {
    |t: (u32, FactsView)| Some(t.0) != than && t.1.uri.len() > 0
}

/// The addresses of every tab but the one named, leaving out tabs with none.
pub open spec fn other_uris_spec(tabs: Seq<(u32, FactsView)>, than: Option<u32>) -> Seq<Seq<char>> {
    tabs.filter(is_other(than)).map_values(|t: (u32, FactsView)| t.1.uri)
}

pub open spec fn info_matches(info: TabInfo, tab: (u32, FactsView)) -> bool {
    &&& info.id == tab.0
    &&& info.title@ == label_of(tab.1)
    &&& info.host@ == host_of_spec(tab.1.uri)
    &&& info.loading == tab.1.loading
    &&& info.sound == sound_of(tab.1)
    &&& info.asleep == tab.1.asleep
}

/// What a tab leaves behind for next time: where it is and what it says.
pub open spec fn as_sleeper(tab: (u32, FactsView)) -> (Seq<char>, Seq<char>) {
    (tab.1.uri, label_of(tab.1))
}

pub open spec fn session_spec(v: TabsView) -> (Seq<(Seq<char>, Seq<char>)>, int) {
    let index = match v.selected {
        Some(id) => index_of(v.tabs, id),
        None => -1,
    };
    restoring(
        v.tabs.map_values(|t: (u32, FactsView)| as_sleeper(t)),
        if index == -1 {
            0
        } else {
            index
        },
    )
}

pub proof fn lemma_index_of(tabs: Seq<(u32, FactsView)>, id: u32)
    ensures
        -1 <= index_of(tabs, id) < tabs.len(),
        index_of(tabs, id) >= 0 ==> tabs[index_of(tabs, id)].0 == id,
        index_of(tabs, id) == -1 <==> !has_id(tabs, id),
        forall|j: int| 0 <= j < index_of(tabs, id) ==> tabs[j].0 != id,
{
    lemma_first_from(tabs.len() as int, is_id(tabs, id), 0);
    if index_of(tabs, id) == -1 {
        assert forall|i: int| 0 <= i < tabs.len() implies tabs[i].0 != id by {
            assert(!is_id(tabs, id)(i));
        }
    } else {
        assert(is_id(tabs, id)(index_of(tabs, id)));
    }
    assert forall|j: int| 0 <= j < index_of(tabs, id) implies tabs[j].0 != id by {
        assert(!is_id(tabs, id)(j));
    }
}

impl View for Tabs {
    type V = TabsView;

    closed spec fn view(&self) -> TabsView {
        TabsView {
            tabs: self.tabs@.map_values(|t: Tab| tab_view(t)),
            selected: self.selected,
            next_id: self.next_id,
        }
    }
}

impl Tabs {
    pub fn new() -> (r: Tabs)
        ensures
            r@.tabs.len() == 0,
            r@.selected is None,
            r@.next_id == 0,
            r@.wf(),
    {
        let r = Tabs { tabs: Vec::new(), selected: None, next_id: 0 };
        assert(r@.tabs.len() == 0);
        r
    }

    fn find(&self, id: u32) -> (r: Option<usize>)
        ensures
            match r {
                Some(i) => i == index_of(self@.tabs, id) && i < self.tabs@.len(),
                None => index_of(self@.tabs, id) == -1,
            },
    {
        let ghost v = self@.tabs;
        let mut i: usize = 0;
        while i < self.tabs.len() && self.tabs[i].id != id
            invariant
                0 <= i <= self.tabs@.len(),
                v == self@.tabs,
                v.len() == self.tabs@.len(),
                forall|j: int| 0 <= j < i ==> !#[trigger] is_id(v, id)(j),
            decreases self.tabs.len() - i,
        {
            assert(v[i as int] == tab_view(self.tabs@[i as int]));
            assert(!is_id(v, id)(i as int));
            i += 1;
        }
        if i < self.tabs.len() {
            assert(v[i as int] == tab_view(self.tabs@[i as int]));
            assert(is_id(v, id)(i as int));
            proof {
                lemma_first_from_is(v.len() as int, is_id(v, id), 0, i as int);
            }
            Some(i)
        } else {
            proof {
                lemma_first_from_is(v.len() as int, is_id(v, id), 0, -1);
            }
            None
        }
    }

    /// A new tab at the end, with an id nothing else has had. `select` is
    /// false for the ones a page opens behind what someone is reading.
    /// The id the next tab opened will have. Ids are never reused, so a
    /// `u32`'s worth of tabs is all one `Tabs` can ever open.
    pub fn next_id(&self) -> (r: u32)
        ensures
            r == self@.next_id,
    {
        self.next_id
    }

    pub fn open(&mut self, select: bool) -> (id: u32)
        requires
            old(self)@.wf(),
            old(self)@.next_id < u32::MAX,
        ensures
            id == old(self)@.next_id,
            !has_id(old(self)@.tabs, id),
            final(self)@.tabs == old(self)@.tabs.push((id, blank_facts())),
            final(self)@.selected == (if select || old(self)@.selected is None {
                Some(id)
            } else {
                old(self)@.selected
            }),
            final(self)@.next_id == id + 1,
            final(self)@.wf(),
    {
        self.open_with(select, Facts::blank())
    }

    fn open_with(&mut self, select: bool, facts: Facts) -> (id: u32)
        requires
            old(self)@.wf(),
            old(self)@.next_id < u32::MAX,
        ensures
            id == old(self)@.next_id,
            !has_id(old(self)@.tabs, id),
            final(self)@.tabs == old(self)@.tabs.push((id, facts@)),
            final(self)@.selected == (if select || old(self)@.selected is None {
                Some(id)
            } else {
                old(self)@.selected
            }),
            final(self)@.next_id == id + 1,
            final(self)@.wf(),
    {
        let ghost before = self@;
        let id = self.next_id;
        self.next_id = id + 1;
        self.tabs.push(Tab { id, facts });
        assert(self@.tabs == before.tabs.push((id, facts@)));
        if select || self.selected.is_none() {
            self.selected = Some(id);
            assert(self@.tabs[self@.tabs.len() - 1].0 == id);
        }
        proof {
            let t = self@.tabs;
            assert forall|i: int, j: int| 0 <= i < j < t.len() implies #[trigger] t[i].0
                != #[trigger] t[j].0 by {
                if j == t.len() - 1 {
                    assert(before.tabs[i].0 < id);
                }
            }
            if let Some(s) = self@.selected {
                if s != id {
                    let k = choose|k: int| 0 <= k < before.tabs.len() && before.tabs[k].0 == s;
                    assert(t[k].0 == s);
                }
            }
            if has_id(before.tabs, id) {
                let k = choose|k: int| 0 <= k < before.tabs.len() && before.tabs[k].0 == id;
                assert(before.tabs[k].0 < before.next_id);
            }
        }
        id
    }

    /// A tab restored from the last run: it holds a place in the column with
    /// what it was, and nothing is loaded until it is selected.
    pub fn open_asleep(&mut self, url: &str, title: &str) -> (id: u32)
        requires
            old(self)@.wf(),
            old(self)@.next_id < u32::MAX,
        ensures
            id == old(self)@.next_id,
            final(self)@.tabs == old(self)@.tabs.push(
                (id, FactsView { uri: url@, title: title@, asleep: true, ..blank_facts() }),
            ),
            final(self)@.selected == (if old(self)@.selected is None {
                Some(id)
            } else {
                old(self)@.selected
            }),
            final(self)@.next_id == id + 1,
            final(self)@.wf(),
    {
        let mut facts = Facts::blank();
        facts.uri = url.to_owned();
        facts.title = title.to_owned();
        facts.asleep = true;
        self.open_with(false, facts)
    }

    /// True if this tab was asleep and is now awake, which is the shell's
    /// cue to load the address it has been holding.
    pub fn wake(&mut self, id: u32) -> (r: bool)
        requires
            old(self)@.wf(),
        ensures
            r == (index_of(old(self)@.tabs, id) >= 0 && old(self)@.tabs[index_of(
                old(self)@.tabs,
                id,
            )].1.asleep),
            final(self)@.tabs == (if r {
                old(self)@.tabs.update(
                    index_of(old(self)@.tabs, id),
                    (id, FactsView { asleep: false, ..old(self)@.tabs[index_of(old(self)@.tabs, id)].1 }),
                )
            } else {
                old(self)@.tabs
            }),
            final(self)@.selected == old(self)@.selected,
            final(self)@.next_id == old(self)@.next_id,
            final(self)@.wf(),
    {
        match self.find(id) {
            Some(i) => {
                if self.tabs[i].facts.asleep {
                    let mut facts = self.tabs[i].facts.copy();
                    facts.asleep = false;
                    self.update(id, facts);
                    true
                } else {
                    false
                }
            },
            None => false,
        }
    }

    /// Hands a tab its new facts, and says whether anything about it
    /// actually changed. A shell that hears the same title twice shouldn't
    /// make the chrome redraw for it.
    pub fn update(&mut self, id: u32, facts: Facts) -> (r: bool)
        requires
            old(self)@.wf(),
        ensures
            ({
                let i = index_of(old(self)@.tabs, id);
                if i == -1 {
                    !r && final(self)@.tabs == old(self)@.tabs
                } else {
                    &&& r == (old(self)@.tabs[i].1 != facts@)
                    &&& final(self)@.tabs == old(self)@.tabs.update(i, (id, facts@))
                }
            }),
            final(self)@.selected == old(self)@.selected,
            final(self)@.next_id == old(self)@.next_id,
            final(self)@.wf(),
    {
        let ghost before = self@;
        proof {
            lemma_index_of(before.tabs, id);
        }
        match self.find(id) {
            Some(i) => {
                let changed = !self.tabs[i].facts.same_as(&facts);
                self.tabs.set(i, Tab { id, facts });
                proof {
                    assert(self@.tabs =~= before.tabs.update(i as int, (id, facts@)));
                    let t = self@.tabs;
                    assert forall|a: int, b: int| 0 <= a < b < t.len() implies #[trigger] t[a].0
                        != #[trigger] t[b].0 by {
                        assert(t[a].0 == before.tabs[a].0);
                        assert(t[b].0 == before.tabs[b].0);
                    }
                    assert forall|a: int| 0 <= a < t.len() implies #[trigger] t[a].0
                        < self@.next_id by {
                        assert(t[a].0 == before.tabs[a].0);
                    }
                    if let Some(s) = self@.selected {
                        let k = choose|k: int| 0 <= k < before.tabs.len() && before.tabs[k].0 == s;
                        assert(t[k].0 == s);
                    }
                }
                changed
            },
            None => false,
        }
    }

    /// What to write down for next time: everything that is a page, and
    /// which one was in front.
    pub fn session(&self) -> (r: Session)
        requires
            self@.wf(),
        ensures
            r@ == session_spec(self@),
    {
        let ghost v = self@.tabs;
        let mut tabs: Vec<Sleeper> = Vec::new();
        let mut i: usize = 0;
        while i < self.tabs.len()
            invariant
                0 <= i <= self.tabs@.len(),
                v == self@.tabs,
                v.len() == self.tabs@.len(),
                sleeper_views(tabs@) == v.take(i as int).map_values(
                    |t: (u32, FactsView)| as_sleeper(t),
                ),
            decreases self.tabs.len() - i,
        {
            let s = Sleeper { url: self.tabs[i].facts.uri.clone(), title: self.tabs[i].facts.label() };
            let ghost before = tabs@;
            tabs.push(s);
            proof {
                assert(v[i as int] == tab_view(self.tabs@[i as int]));
                assert(sleeper_views(tabs@) == sleeper_views(before).push(s@));
                assert(v.take(i + 1) == v.take(i as int).push(v[i as int]));
                assert(v.take(i + 1).map_values(|t: (u32, FactsView)| as_sleeper(t)) == v.take(
                    i as int,
                ).map_values(|t: (u32, FactsView)| as_sleeper(t)).push(as_sleeper(v[i as int])));
            }
            i += 1;
        }
        assert(v.take(v.len() as int) == v);
        let selected = match self.selected {
            Some(id) => match self.find(id) {
                Some(i) => i,
                None => 0,
            },
            None => 0,
        };
        let whole = Session { tabs, selected };
        whole.worth_restoring()
    }

    /// Closes a tab, and says which one is in front afterwards: the one that
    /// took its place, or the last if it was the last. `None` once the
    /// window holds no tabs at all.
    pub fn close(&mut self, id: u32) -> (r: Option<u32>)
        requires
            old(self)@.wf(),
        ensures
            ({
                let i = index_of(old(self)@.tabs, id);
                if i == -1 {
                    final(self)@.tabs == old(self)@.tabs && final(self)@.selected == old(
                        self,
                    )@.selected
                } else {
                    &&& final(self)@.tabs == old(self)@.tabs.remove(i)
                    &&& final(self)@.selected == (if old(self)@.selected == Some(id) {
                        after_close(old(self)@.tabs.remove(i), i)
                    } else {
                        old(self)@.selected
                    })
                }
            }),
            r == final(self)@.selected,
            final(self)@.next_id == old(self)@.next_id,
            final(self)@.wf(),
    {
        let ghost before = self@;
        let index = match self.find(id) {
            Some(i) => i,
            None => return self.selected,
        };
        proof {
            lemma_index_of(before.tabs, id);
        }
        self.tabs.remove(index);
        assert(self@.tabs =~= before.tabs.remove(index as int));
        let ghost t = self@.tabs;
        if self.selected == Some(id) {
            if index < self.tabs.len() {
                self.selected = Some(self.tabs[index].id);
                assert(t[index as int].0 == self.selected.unwrap());
            } else if self.tabs.len() > 0 {
                self.selected = Some(self.tabs[self.tabs.len() - 1].id);
                assert(t[t.len() - 1].0 == self.selected.unwrap());
            } else {
                self.selected = None;
            }
        } else {
            proof {
                if let Some(s) = before.selected {
                    let k = choose|k: int| 0 <= k < before.tabs.len() && before.tabs[k].0 == s;
                    assert(k != index);
                    if k < index {
                        assert(t[k].0 == s);
                    } else {
                        assert(t[k - 1].0 == s);
                    }
                }
            }
        }
        proof {
            assert forall|a: int, b: int| 0 <= a < b < t.len() implies #[trigger] t[a].0
                != #[trigger] t[b].0 by {
                let a0 = if a < index { a } else { a + 1 };
                let b0 = if b < index { b } else { b + 1 };
                assert(t[a].0 == before.tabs[a0].0);
                assert(t[b].0 == before.tabs[b0].0);
            }
            assert forall|a: int| 0 <= a < t.len() implies #[trigger] t[a].0 < self@.next_id by {
                let a0 = if a < index { a } else { a + 1 };
                assert(t[a].0 == before.tabs[a0].0);
            }
        }
        self.selected
    }

    /// True if this changed which tab is in front.
    pub fn select(&mut self, id: u32) -> (r: bool)
        requires
            old(self)@.wf(),
        ensures
            r == (old(self)@.selected != Some(id) && has_id(old(self)@.tabs, id)),
            final(self)@.selected == (if r {
                Some(id)
            } else {
                old(self)@.selected
            }),
            final(self)@.tabs == old(self)@.tabs,
            final(self)@.next_id == old(self)@.next_id,
            final(self)@.wf(),
    {
        proof {
            lemma_index_of(self@.tabs, id);
        }
        if self.selected == Some(id) {
            return false;
        }
        match self.find(id) {
            Some(_) => {
                self.selected = Some(id);
                true
            },
            None => false,
        }
    }

    /// The tab `by` places along from the one in front, wrapping at both
    /// ends, for Ctrl+Tab and its opposite.
    pub fn step(&self, by: isize) -> (r: Option<u32>)
        requires
            self@.wf(),
        ensures
            r == step_spec(self@, by as int),
    {
        let id = match self.selected {
            Some(id) => id,
            None => return None,
        };
        let index = match self.find(id) {
            Some(i) => i,
            None => return None,
        };
        let len = self.tabs.len() as i128;
        let next = (index as i128 + by as i128).checked_rem_euclid(len).unwrap();
        let n = next as usize;
        assert(self@.tabs[n as int] == tab_view(self.tabs@[n as int]));
        Some(self.tabs[n].id)
    }

    /// The nth tab, for Alt+1 to Alt+8. There is no tab for a number past
    /// the end.
    pub fn nth(&self, n: usize) -> (r: Option<u32>)
        ensures
            r == (if n < self@.tabs.len() {
                Some(self@.tabs[n as int].0)
            } else {
                None
            }),
    {
        if n < self.tabs.len() {
            assert(self@.tabs[n as int] == tab_view(self.tabs@[n as int]));
            Some(self.tabs[n].id)
        } else {
            None
        }
    }

    pub fn last(&self) -> (r: Option<u32>)
        ensures
            r == (if self@.tabs.len() > 0 {
                Some(self@.tabs.last().0)
            } else {
                None
            }),
    {
        if self.tabs.len() > 0 {
            let n = self.tabs.len() - 1;
            assert(self@.tabs[n as int] == tab_view(self.tabs@[n as int]));
            Some(self.tabs[n].id)
        } else {
            None
        }
    }

    pub fn selected(&self) -> (r: Option<u32>)
        ensures
            r == self@.selected,
    {
        self.selected
    }

    pub fn len(&self) -> (r: usize)
        ensures
            r == self@.tabs.len(),
    {
        self.tabs.len()
    }

    pub fn is_empty(&self) -> (r: bool)
        ensures
            r == (self@.tabs.len() == 0),
    {
        self.tabs.len() == 0
    }

    pub fn ids(&self) -> (r: Vec<u32>)
        ensures
            r@ == self@.ids(),
    {
        let mut r: Vec<u32> = Vec::new();
        let mut i: usize = 0;
        while i < self.tabs.len()
            invariant
                0 <= i <= self.tabs@.len(),
                r@.len() == i,
                forall|j: int| 0 <= j < i ==> r@[j] == self.tabs@[j].id,
            decreases self.tabs.len() - i,
        {
            r.push(self.tabs[i].id);
            i += 1;
        }
        assert(r@ == self@.ids());
        r
    }

    pub fn facts(&self, id: u32) -> (r: Option<&Facts>)
        ensures
            match r {
                Some(f) => index_of(self@.tabs, id) >= 0 && f@ == self@.tabs[index_of(
                    self@.tabs,
                    id,
                )].1,
                None => index_of(self@.tabs, id) == -1,
            },
    {
        match self.find(id) {
            Some(i) => {
                assert(self@.tabs[i as int] == tab_view(self.tabs@[i as int]));
                Some(&self.tabs[i].facts)
            },
            None => None,
        }
    }

    pub fn selected_facts(&self) -> (r: Option<&Facts>)
        ensures
            match self@.selected {
                Some(id) => match r {
                    Some(f) => index_of(self@.tabs, id) >= 0 && f@ == self@.tabs[index_of(
                        self@.tabs,
                        id,
                    )].1,
                    None => index_of(self@.tabs, id) == -1,
                },
                None => r is None,
            },
    {
        match self.selected {
            Some(id) => self.facts(id),
            None => None,
        }
    }

    /// The addresses of every tab but the one named, which is what the dose
    /// engine asks for: tabs nobody is looking at weigh nothing, but it
    /// still wants to know they are there.
    pub fn other_uris(&self, than: Option<u32>) -> (r: Vec<String>)
        ensures
            r@.map_values(|s: String| s@) == other_uris_spec(self@.tabs, than),
    {
        let ghost v = self@.tabs;
        let ghost p = is_other(than);
        let mut r: Vec<String> = Vec::new();
        let mut i: usize = 0;
        while i < self.tabs.len()
            invariant
                0 <= i <= self.tabs@.len(),
                v == self@.tabs,
                v.len() == self.tabs@.len(),
                p == is_other(than),
                r@.map_values(|s: String| s@) == v.take(i as int).filter(p).map_values(
                    |t: (u32, FactsView)| t.1.uri,
                ),
            decreases self.tabs.len() - i,
        {
            proof {
                lemma_filter_take(v, p, i as int);
                assert(v[i as int] == tab_view(self.tabs@[i as int]));
            }
            let tab = &self.tabs[i];
            if Some(tab.id) != than && !tab.facts.uri.as_str().is_empty() {
                let u = tab.facts.uri.clone();
                let ghost before = r@;
                r.push(u);
                proof {
                    assert(r@.map_values(|s: String| s@) == before.map_values(|s: String| s@).push(
                        u@,
                    ));
                    let f = v.take(i as int).filter(p);
                    assert(f.push(v[i as int]).map_values(|t: (u32, FactsView)| t.1.uri)
                        == f.map_values(|t: (u32, FactsView)| t.1.uri).push(v[i as int].1.uri));
                }
            }
            i += 1;
        }
        assert(v.take(v.len() as int) == v);
        r
    }

    /// What the tab column shows.
    pub fn info(&self) -> (r: Vec<TabInfo>)
        ensures
            r@.len() == self@.tabs.len(),
            forall|i: int| 0 <= i < r@.len() ==> info_matches(#[trigger] r@[i], self@.tabs[i]),
    {
        let mut r: Vec<TabInfo> = Vec::new();
        let mut i: usize = 0;
        while i < self.tabs.len()
            invariant
                0 <= i <= self.tabs@.len(),
                r@.len() == i,
                forall|j: int| 0 <= j < i ==> info_matches(#[trigger] r@[j], self@.tabs[j]),
            decreases self.tabs.len() - i,
        {
            let tab = &self.tabs[i];
            let info = TabInfo {
                id: tab.id,
                title: tab.facts.label(),
                host: host_of(tab.facts.uri.as_str()),
                loading: tab.facts.loading,
                sound: tab.facts.sound(),
                asleep: tab.facts.asleep,
            };
            assert(self@.tabs[i as int] == tab_view(self.tabs@[i as int]));
            r.push(info);
            i += 1;
        }
        r
    }
}

/// Closing the tab in front brings its neighbour forward: the tab that was
/// just after it, wherever it stood, the first tab included; the one just
/// before it when it was the last; none when it was the only one. The
/// other tabs keep their order.
pub proof fn closing_the_front_tab_brings_its_neighbour(tabs: Seq<(u32, FactsView)>, i: int)
    requires
        0 <= i < tabs.len(),
    ensures
        after_close(tabs.remove(i), i) == (if i + 1 < tabs.len() {
            Some(tabs[i + 1].0)
        } else if i > 0 {
            Some(tabs[i - 1].0)
        } else {
            None::<u32>
        }),
        forall|k: int| 0 <= k < i ==> #[trigger] tabs.remove(i)[k] == tabs[k],
        forall|k: int| i < k < tabs.len() ==> tabs.remove(i)[k - 1] == #[trigger] tabs[k],
{
    let rest = tabs.remove(i);
    if i + 1 < tabs.len() {
        assert(rest[i] == tabs[i + 1]);
    } else if i > 0 {
        assert(rest.last() == tabs[i - 1]);
    }
}

} // verus!
