//! The tabs that were open, so a restart doesn't cost you your place.
//!
//! What comes back is a list of addresses and the titles they had, not the
//! pages themselves: a restored tab sleeps until it is asked for. Reading and
//! writing the file is the shell's.

use vstd::prelude::*;

use crate::history::{worth_keeping, worth_keeping_spec};
use crate::text::{chars_of, first_from, lemma_filter_take, lemma_first_from_is, same};

verus! {

/// A tab as it was left.
#[derive(Clone, Debug, Default, PartialEq, Eq)]
pub struct Sleeper {
    pub url: String,
    pub title: String,
}

impl View for Sleeper {
    /// The address and the title.
    type V = (Seq<char>, Seq<char>);

    open spec fn view(&self) -> (Seq<char>, Seq<char>) {
        (self.url@, self.title@)
    }
}

#[derive(Clone, Debug, Default, PartialEq, Eq)]
pub struct Session {
    pub tabs: Vec<Sleeper>,
    /// Which of them was in front, by position.
    pub selected: usize,
}

pub open spec fn sleeper_views(tabs: Seq<Sleeper>) -> Seq<(Seq<char>, Seq<char>)> {
    tabs.map_values(|t: Sleeper| t@)
}

impl View for Session {
    type V = (Seq<(Seq<char>, Seq<char>)>, int);

    open spec fn view(&self) -> (Seq<(Seq<char>, Seq<char>)>, int) {
        (sleeper_views(self.tabs@), self.selected as int)
    }
}

pub open spec fn keeps(tab: (Seq<char>, Seq<char>)) -> bool {
    worth_keeping_spec(tab.0)
}

pub open spec fn is_at(keep: Seq<(Seq<char>, Seq<char>)>, url: Seq<char>) -> spec_fn(int) -> bool {
    |i: int| keep[i].0 == url
}

/// What to restore: the tabs worth keeping, and the first of them at the
/// address of the one that was in front (or the first, if none is).
pub open spec fn restoring(tabs: Seq<(Seq<char>, Seq<char>)>, selected: int) -> (
    Seq<(Seq<char>, Seq<char>)>,
    int,
) {
    let keep = tabs.filter(|t: (Seq<char>, Seq<char>)| keeps(t));
    let at = if 0 <= selected < tabs.len() {
        first_from(keep.len() as int, is_at(keep, tabs[selected].0), 0)
    } else {
        -1
    };
    (keep, if at == -1 {
        0
    } else {
        at
    })
}

fn copy(t: &Sleeper) -> (r: Sleeper)
    ensures
        r@ == t@,
{
    Sleeper { url: t.url.clone(), title: t.title.clone() }
}

impl Session {
    /// What to restore. Home tabs are dropped: a window always opens with
    /// Home in front anyway, and restoring five of them is clutter, not a
    /// place you were. Anything that isn't the web is dropped with them.
    pub fn worth_restoring(&self) -> (r: Session)
        ensures
            r@ == restoring(self@.0, self@.1),
    {
        let ghost tabs = self@.0;
        let ghost p = |t: (Seq<char>, Seq<char>)| keeps(t);
        let mut keep: Vec<Sleeper> = Vec::new();
        let mut i: usize = 0;
        while i < self.tabs.len()
            invariant
                0 <= i <= self.tabs@.len(),
                tabs == sleeper_views(self.tabs@),
                p == (|t: (Seq<char>, Seq<char>)| keeps(t)),
                sleeper_views(keep@) == tabs.take(i as int).filter(p),
            decreases self.tabs.len() - i,
        {
            proof {
                lemma_filter_take(tabs, p, i as int);
            }
            if worth_keeping(self.tabs[i].url.as_str()) {
                let t = copy(&self.tabs[i]);
                let ghost before = keep@;
                keep.push(t);
                assert(sleeper_views(keep@) == sleeper_views(before).push(t@));
            }
            i += 1;
        }
        assert(tabs.take(tabs.len() as int) == tabs);
        let ghost kept = sleeper_views(keep@);
        let mut selected: usize = 0;
        if self.selected < self.tabs.len() {
            let was = chars_of(self.tabs[self.selected].url.as_str());
            let ghost q = is_at(kept, tabs[self.selected as int].0);
            let mut k: usize = 0;
            while k < keep.len() && !same(&chars_of(keep[k].url.as_str()), &was)
                invariant
                    0 <= k <= keep@.len(),
                    kept == sleeper_views(keep@),
                    was@ == tabs[self.selected as int].0,
                    q == is_at(kept, tabs[self.selected as int].0),
                    forall|j: int| 0 <= j < k ==> !#[trigger] q(j),
                decreases keep.len() - k,
            {
                assert(!q(k as int));
                k += 1;
            }
            proof {
                if k < keep@.len() {
                    assert(q(k as int));
                    lemma_first_from_is(keep@.len() as int, q, 0, k as int);
                } else {
                    lemma_first_from_is(keep@.len() as int, q, 0, -1);
                }
            }
            if k < keep.len() {
                selected = k;
            }
        }
        Session { tabs: keep, selected }
    }

    pub fn is_empty(&self) -> (r: bool)
        ensures
            r == (self.tabs@.len() == 0),
    {
        self.tabs.len() == 0
    }
}


proof fn lemma_filter_kept<A>(s: Seq<A>, p: spec_fn(A) -> bool)
    requires
        forall|i: int| 0 <= i < s.len() ==> p(#[trigger] s[i]),
    ensures
        s.filter(p) == s,
    decreases s.len(),
{
    reveal(Seq::filter);
    if s.len() > 0 {
        lemma_filter_kept(s.drop_last(), p);
        assert(s.drop_last().push(s.last()) == s);
    }
}

/// What is restored is restored as it is: restoring it again keeps every
/// tab and the same one in front.
pub proof fn restoring_twice_changes_nothing(tabs: Seq<(Seq<char>, Seq<char>)>, selected: int)
    ensures
        restoring(restoring(tabs, selected).0, restoring(tabs, selected).1) == restoring(
            tabs,
            selected,
        ),
{
    let p = |t: (Seq<char>, Seq<char>)| keeps(t);
    let (keep, at) = restoring(tabs, selected);
    assert(keep == tabs.filter(p));
    assert forall|i: int| 0 <= i < keep.len() implies p(#[trigger] keep[i]) by {
        tabs.lemma_filter_pred(p, i);
    }
    lemma_filter_kept(keep, p);
    assert(keep.filter(p) == keep);
    assert(restoring(keep, at).0 == keep);
    if 0 <= selected < tabs.len() {
        crate::text::lemma_first_from(keep.len() as int, is_at(keep, tabs[selected].0), 0);
    }
    assert(0 <= at);
    if 0 <= at < keep.len() {
        let q = is_at(keep, keep[at].0);
        if 0 <= selected < tabs.len() {
            let was = is_at(keep, tabs[selected].0);
            let found = first_from(keep.len() as int, was, 0);
            crate::text::lemma_first_from(keep.len() as int, was, 0);
            if found == -1 {
                assert(at == 0);
                assert(q(0));
                lemma_first_from_is(keep.len() as int, q, 0, 0);
            } else {
                assert(at == found);
                assert(was(at));
                assert forall|j: int| 0 <= j < at implies !#[trigger] q(j) by {
                    assert(!was(j));
                }
                assert(q(at));
                lemma_first_from_is(keep.len() as int, q, 0, at);
            }
        } else {
            assert(at == 0);
            assert(q(0));
            lemma_first_from_is(keep.len() as int, q, 0, 0);
        }
        assert(first_from(keep.len() as int, q, 0) == at);
        assert(restoring(keep, at).1 == at);
    } else {
        assert(restoring(keep, at).1 == 0);
        assert(at == 0) by {
            if 0 <= selected < tabs.len() {
                let was = is_at(keep, tabs[selected].0);
                crate::text::lemma_first_from(keep.len() as int, was, 0);
            }
        }
    }
}

} // verus!
