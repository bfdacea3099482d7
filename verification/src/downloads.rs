//! What is being saved, and what was saved a moment ago.
//!
//! Deliberately thin. A download is a file arriving on your machine, not a
//! second inbox: there is a quiet mark in the toolbar while one is running
//! and a line on Home until it has been opened, and then it is gone from
//! here. Nothing is kept between runs.

use vstd::prelude::*;

pub use crate::protocol::{Download, Progress};
use crate::text::{
    chars_of, is_char_at, lemma_last_before, rfind_char, rfind_char_in, slice_of, string_of,
    trim, trimmed,
};

verus! {

/// Progress in twentieths, no more than the whole.
pub open spec fn at_most_whole(t: Option<u32>) -> Option<u32> {
    match t {
        Some(n) => Some(if n > 20 { 20 } else { n }),
        None => None,
    }
}

/// Home shows this many at most. More than a handful is a manager, which is
/// what this is not.
pub const SHOWN: usize = 4;

/// A download and whether it has been opened, which is ours to know and not
/// something the pages need told.
struct Kept {
    download: Download,
    opened: bool,
}

pub struct Downloads {
    kept: Vec<Kept>,
    next_id: u32,
}

fn copy(d: &Download) -> (r: Download)
    ensures
        r == *d,
{
    Download {
        id: d.id,
        name: d.name.clone(),
        path: d.path.clone(),
        progress: d.progress,
        twentieths: d.twentieths,
    }
}

/// The position of the download with id `id` in `items`, or -1.
pub open spec fn index_of_id(items: Seq<Download>, id: u32) -> int {
    crate::text::first_from(items.len() as int, |i: int| items[i].id == id, 0)
}

/// What Home shows: newest first, and never a long list.
pub open spec fn showing_spec(items: Seq<Download>) -> Seq<Download> {
    let n = if items.len() < SHOWN {
        items.len() as int
    } else {
        SHOWN as int
    };
    items.reverse().take(n)
}

pub open spec fn is_running(d: Download) -> bool {
    d.progress == Progress::Running
}

pub open spec fn running_count(items: Seq<Download>) -> nat {
    items.filter(|d: Download| is_running(d)).len()
}

/// What one call does to the ids: `started` hands out `next()` and moves it
/// on by one; every other call keeps it.
pub open spec fn id_step(before: Downloads, after: Downloads, given: Option<u32>) -> bool {
    match given {
        Some(id) => id == before.next() && after.next() == id + 1,
        None => after.next() == before.next(),
    }
}

/// Over a run of calls, `states[i]` before call `i` and `states[i + 1]`
/// after it, `given[i]` the id call `i` handed out if it was a start: the
/// next id never goes down.
proof fn lemma_next_grows(states: Seq<Downloads>, given: Seq<Option<u32>>, i: int, k: int)
    requires
        states.len() == given.len() + 1,
        forall|j: int| 0 <= j < given.len() ==> id_step(states[j], states[j + 1], #[trigger] given[j]),
        0 <= i <= k <= given.len(),
    ensures
        states[i].next() <= states[k].next(),
    decreases k - i,
{
    if i < k {
        lemma_next_grows(states, given, i, k - 1);
        assert(id_step(states[k - 1], states[k], given[k - 1]));
    }
}

/// Ids are never reused: over any run of calls, each id a start hands out
/// is above every id handed out before it, at least the next id before the
/// run, and below the next id after it, whatever was opened or forgotten in
/// between.
pub proof fn ids_are_never_reused(states: Seq<Downloads>, given: Seq<Option<u32>>)
    requires
        states.len() == given.len() + 1,
        forall|j: int| 0 <= j < given.len() ==> id_step(states[j], states[j + 1], #[trigger] given[j]),
    ensures
        forall|i: int, j: int|
            0 <= i < j < given.len() && given[i] is Some && given[j] is Some ==> (#[trigger] given[i])->0
                < (#[trigger] given[j])->0,
        forall|i: int|
            0 <= i < given.len() && given[i] is Some ==> states[0].next() <= (#[trigger] given[i])->0
                < states[given.len() as int].next(),
{
    assert forall|i: int, j: int|
        0 <= i < j < given.len() && given[i] is Some && given[j] is Some implies (#[trigger] given[i])->0
            < (#[trigger] given[j])->0 by {
        assert(id_step(states[i], states[i + 1], given[i]));
        assert(id_step(states[j], states[j + 1], given[j]));
        lemma_next_grows(states, given, i + 1, j);
    }
    assert forall|i: int|
        0 <= i < given.len() && given[i] is Some implies states[0].next() <= (#[trigger] given[i])->0
            < states[given.len() as int].next() by {
        assert(id_step(states[i], states[i + 1], given[i]));
        lemma_next_grows(states, given, 0, i);
        lemma_next_grows(states, given, i + 1, given.len() as int);
    }
}

/// A download just started is running and shows first on Home.
pub proof fn a_new_download_runs_and_shows_first(before: Seq<Download>, d: Download)
    requires
        d.progress == Progress::Running,
    ensures
        running_count(before.push(d)) == running_count(before) + 1,
        showing_spec(before.push(d))[0] == d,
{
    let p = |x: Download| is_running(x);
    reveal(Seq::filter);
    assert(before.push(d).drop_last() == before);
    assert(before.push(d).reverse()[0] == d);
}

impl Downloads {
    /// The downloads kept, oldest first.
    pub closed spec fn items(&self) -> Seq<Download> {
        self.kept@.map_values(|k: Kept| k.download)
    }

    /// The id the next download will have.
    pub closed spec fn next(&self) -> u32 {
        self.next_id
    }

    /// Every id is below the next one and above those before it, and nothing
    /// opened stays.
    pub closed spec fn wf(&self) -> bool {
        &&& forall|i: int, j: int|
            0 <= i < j < self.kept@.len() ==> self.kept@[i].download.id < self.kept@[j].download.id
        &&& forall|i: int| 0 <= i < self.kept@.len() ==> self.kept@[i].download.id < self.next_id
        &&& forall|i: int| 0 <= i < self.kept@.len() ==> !self.kept@[i].opened
    }

    pub fn new() -> (r: Self)
        ensures
            r.wf(),
            r.items() == Seq::<Download>::empty(),
            r.next() == 0,
    {
        Downloads { kept: Vec::new(), next_id: 0 }
    }

    /// A download has started. The shell keeps the id to report progress.
    pub fn started(&mut self, name: &str, path: &str) -> (id: u32)
        requires
            old(self).wf(),
            old(self).next() < u32::MAX,
        ensures
            final(self).wf(),
            id == old(self).next(),
            final(self).next() == id + 1,
            id_step(*old(self), *final(self), Some(id)),
            final(self).items() == old(self).items().push(
                Download {
                    id,
                    name: final(self).items().last().name,
                    path: final(self).items().last().path,
                    progress: Progress::Running,
                    twentieths: None,
                },
            ),
            final(self).items().last().name@ == name@,
            final(self).items().last().path@ == path@,
    {
        let id = self.next_id;
        self.next_id = self.next_id + 1;
        let ghost before = self.kept@;
        self.kept.push(
            Kept {
                download: Download {
                    id,
                    name: name.to_owned(),
                    path: path.to_owned(),
                    progress: Progress::Running,
                    twentieths: None,
                },
                opened: false,
            },
        );
        assert(self.items() == before.map_values(|k: Kept| k.download).push(
            self.kept@.last().download,
        ));
        id
    }

    fn find_index(&self, id: u32) -> (r: Option<usize>)
        ensures
            match r {
                Some(i) => index_of_id(self.items(), id) == i && i < self.items().len(),
                None => index_of_id(self.items(), id) == -1,
            },
    {
        let ghost items = self.items();
        let ghost p = |i: int| items[i].id == id;
        let mut i: usize = 0;
        while i < self.kept.len()
            invariant
                0 <= i <= self.kept@.len(),
                items == self.items(),
                items.len() == self.kept@.len(),
                p == (|i: int| items[i].id == id),
                forall|j: int| 0 <= j < i ==> !#[trigger] p(j),
            decreases self.kept.len() - i,
        {
            assert(items[i as int] == self.kept@[i as int].download);
            if self.kept[i].download.id == id {
                proof {
                    crate::text::lemma_first_from_is(items.len() as int, p, 0, i as int);
                }
                return Some(i);
            }
            i += 1;
        }
        proof {
            crate::text::lemma_first_from_is(items.len() as int, p, 0, -1);
        }
        None
    }

    /// True when this changed anything the chrome or Home would show.
    /// `twentieths` is how far it has got, already made coarse: a bar that
    /// moves a hundred times a second is a bar nobody reads. More than
    /// twenty twentieths is the whole of it.
    pub fn progressed(&mut self, id: u32, twentieths: Option<u32>) -> (r: bool)
        requires
            old(self).wf(),
        ensures
            final(self).wf(),
            final(self).next() == old(self).next(),
            id_step(*old(self), *final(self), None),
            ({
                let i = index_of_id(old(self).items(), id);
                let twentieths = at_most_whole(twentieths);
                if i == -1 || old(self).items()[i].twentieths == twentieths {
                    !r && final(self).items() == old(self).items()
                } else {
                    r && final(self).items() == old(self).items().update(
                        i,
                        Download { twentieths, ..old(self).items()[i] },
                    )
                }
            }),
    {
        let twentieths = match twentieths {
            Some(n) => Some(if n > 20 { 20 } else { n }),
            None => None,
        };
        let i = match self.find_index(id) {
            Some(i) => i,
            None => return false,
        };
        if self.kept[i].download.twentieths == twentieths {
            return false;
        }
        let ghost before = self.kept@;
        let mut kept = copy(&self.kept[i].download);
        kept.twentieths = twentieths;
        self.kept.set(i, Kept { download: kept, opened: false });
        assert(self.items() == before.map_values(|k: Kept| k.download).update(
            i as int,
            self.kept@[i as int].download,
        ));
        true
    }

    pub fn finished(&mut self, id: u32, progress: Progress, path: Option<&str>) -> (r: bool)
        requires
            old(self).wf(),
        ensures
            final(self).wf(),
            final(self).next() == old(self).next(),
            id_step(*old(self), *final(self), None),
            ({
                let i = index_of_id(old(self).items(), id);
                if i == -1 {
                    !r && final(self).items() == old(self).items()
                } else {
                    let was = old(self).items()[i];
                    let now = final(self).items()[i];
                    &&& r
                    &&& final(self).items() == old(self).items().update(i, now)
                    &&& now.id == was.id
                    &&& now.name == was.name
                    &&& now.progress == progress
                    &&& now.twentieths == if progress == Progress::Saved {
                        Some(20u32)
                    } else {
                        was.twentieths
                    }
                    &&& match path {
                        Some(p) => now.path@ == p@,
                        None => now.path == was.path,
                    }
                }
            }),
    {
        let i = match self.find_index(id) {
            Some(i) => i,
            None => return false,
        };
        let ghost before = self.kept@;
        let mut kept = copy(&self.kept[i].download);
        kept.progress = progress;
        if progress == Progress::Saved {
            kept.twentieths = Some(20);
        }
        match path {
            Some(p) => {
                kept.path = p.to_owned();
            },
            None => {},
        }
        self.kept.set(i, Kept { download: kept, opened: false });
        assert(self.items() == before.map_values(|k: Kept| k.download).update(
            i as int,
            self.kept@[i as int].download,
        ));
        true
    }

    /// The user opened it, so Home has nothing left to say about it.
    pub fn opened(&mut self, id: u32) -> (r: Option<String>)
        requires
            old(self).wf(),
        ensures
            final(self).wf(),
            final(self).next() == old(self).next(),
            id_step(*old(self), *final(self), None),
            ({
                let i = index_of_id(old(self).items(), id);
                if i == -1 {
                    r is None && final(self).items() == old(self).items()
                } else {
                    r is Some && r.unwrap()@ == old(self).items()[i].path@ && final(self).items()
                        == old(self).items().remove(i)
                }
            }),
    {
        let i = match self.find_index(id) {
            Some(i) => i,
            None => return None,
        };
        let ghost before = self.kept@;
        let path = self.kept[i].download.path.clone();
        let gone = self.kept.remove(i);
        assert(self.items() == before.map_values(|k: Kept| k.download).remove(i as int));
        Some(path)
    }

    /// How many are still arriving: the toolbar's mark.
    pub fn running(&self) -> (r: usize)
        ensures
            r == running_count(self.items()),
    {
        let ghost items = self.items();
        let ghost p = |d: Download| is_running(d);
        let mut count: usize = 0;
        let mut i: usize = 0;
        while i < self.kept.len()
            invariant
                0 <= i <= self.kept@.len(),
                items == self.items(),
                items.len() == self.kept@.len(),
                p == (|d: Download| is_running(d)),
                count == items.take(i as int).filter(p).len(),
                count <= i,
            decreases self.kept.len() - i,
        {
            proof {
                crate::text::lemma_filter_take(items, p, i as int);
            }
            assert(items[i as int] == self.kept@[i as int].download);
            if self.kept[i].download.progress == Progress::Running {
                count += 1;
            }
            i += 1;
        }
        assert(items.take(items.len() as int) == items);
        count
    }

    /// What Home shows: newest first, and never a long list.
    pub fn showing(&self) -> (r: Vec<Download>)
        requires
            self.wf(),
        ensures
            r@ == showing_spec(self.items()),
    {
        let ghost items = self.items();
        let n = self.kept.len();
        let mut out: Vec<Download> = Vec::new();
        let mut k: usize = 0;
        while k < n && k < SHOWN
            invariant
                0 <= k <= n,
                k <= SHOWN,
                n == self.kept@.len(),
                items == self.items(),
                items.len() == n,
                out@ == items.reverse().take(k as int),
            decreases n - k,
        {
            let d = copy(&self.kept[n - 1 - k].download);
            assert(items[n - 1 - k] == self.kept@[n - 1 - k].download);
            assert(items.reverse()[k as int] == items[n - 1 - k]);
            assert(items.reverse().take(k + 1) == items.reverse().take(k as int).push(d));
            out.push(d);
            k += 1;
        }
        assert(k == (if n < SHOWN {
            n
        } else {
            SHOWN
        }));
        out
    }

    /// Forget the ones that have finished, leaving anything still arriving.
    pub fn forget_finished(&mut self)
        requires
            old(self).wf(),
        ensures
            final(self).wf(),
            final(self).next() == old(self).next(),
            id_step(*old(self), *final(self), None),
            final(self).items() == old(self).items().filter(|d: Download| is_running(d)),
    {
        let ghost items = self.items();
        let ghost p = |d: Download| is_running(d);
        let mut out: Vec<Kept> = Vec::new();
        let mut i: usize = 0;
        while i < self.kept.len()
            invariant
                0 <= i <= self.kept@.len(),
                items == self.items(),
                items.len() == self.kept@.len(),
                p == (|d: Download| is_running(d)),
                self.wf(),
                out@.map_values(|k: Kept| k.download) == items.take(i as int).filter(p),
                forall|a: int| 0 <= a < out@.len() ==> !out@[a].opened,
                forall|a: int| 0 <= a < out@.len() ==> out@[a].download.id < self.next_id,
                forall|a: int, b: int|
                    0 <= a < b < out@.len() ==> out@[a].download.id < out@[b].download.id,
                forall|a: int|
                    0 <= a < out@.len() && i < self.kept@.len() ==> out@[a].download.id
                        < self.kept@[i as int].download.id,
            decreases self.kept.len() - i,
        {
            proof {
                crate::text::lemma_filter_take(items, p, i as int);
            }
            assert(items[i as int] == self.kept@[i as int].download);
            if self.kept[i].download.progress == Progress::Running {
                let ghost before = out@;
                out.push(Kept { download: copy(&self.kept[i].download), opened: false });
                assert(out@.map_values(|k: Kept| k.download) == before.map_values(
                    |k: Kept| k.download,
                ).push(self.kept@[i as int].download));
            }
            i += 1;
        }
        assert(items.take(items.len() as int) == items);
        self.kept = out;
    }
}

/// What follows the last `/`: the name alone, without the folders.
pub open spec fn last_piece(s: Seq<char>) -> Seq<char> {
    let i = rfind_char(s, '/');
    if i == -1 {
        s
    } else {
        s.skip(i + 1)
    }
}

/// `s` without its NUL characters.
pub open spec fn without_nul(s: Seq<char>) -> Seq<char>
    decreases s.len(),
{
    if s.len() == 0 {
        s
    } else if s.last() == '\0' {
        without_nul(s.drop_last())
    } else {
        without_nul(s.drop_last()).push(s.last())
    }
}

/// The name a page suggested for a file, as a name and nothing else: what
/// follows its last `/`, trimmed and without NULs; `download` when that
/// leaves nothing, `.` or `..`.
pub open spec fn file_name_spec(suggested: Seq<char>) -> Seq<char> {
    let name = without_nul(trim(last_piece(suggested)));
    if name.len() == 0 || name == "."@ || name == ".."@ {
        "download"@
    } else {
        name
    }
}

/// The name a page suggested, as a name and nothing else: what it suggests
/// doesn't get to choose the folder.
pub fn file_name(suggested: &str) -> (r: String)
    ensures
        r@ == file_name_spec(suggested@),
{
    let all = chars_of(suggested);
    let found = rfind_char_in(all.as_slice(), '/');
    proof {
        lemma_last_before(is_char_at(all@, '/'), all@.len() as int);
    }
    let n = all.len();
    let piece = match found {
        Some(i) => {
            assert(rfind_char(all@, '/') == i as int);
            assert(i < n);
            slice_of(&all, i + 1, n)
        },
        None => all,
    };
    let trimmed_piece = trimmed(&piece);
    let mut name: Vec<char> = Vec::new();
    let mut i: usize = 0;
    while i < trimmed_piece.len()
        invariant
            0 <= i <= trimmed_piece@.len(),
            name@ == without_nul(trimmed_piece@.take(i as int)),
        decreases trimmed_piece.len() - i,
    {
        assert(trimmed_piece@.take(i + 1).drop_last() == trimmed_piece@.take(i as int));
        if trimmed_piece[i] != '\0' {
            name.push(trimmed_piece[i]);
        }
        i += 1;
    }
    assert(trimmed_piece@.take(trimmed_piece@.len() as int) == trimmed_piece@);
    proof {
        assert(piece@ == last_piece(suggested@)) by {
            if rfind_char(all@, '/') != -1 {
                assert(all@.subrange(rfind_char(all@, '/') + 1, all@.len() as int) == all@.skip(rfind_char(all@, '/') + 1));
            }
        }
        reveal_strlit(".");
        reveal_strlit("..");
        reveal_strlit("download");
    }
    let dot = name.len() == 1 && name[0] == '.';
    let dots = name.len() == 2 && name[0] == '.' && name[1] == '.';
    assert(dot == (name@ == "."@)) by {
        if name@.len() == 1 && name@[0] == '.' {
            assert(name@ =~= "."@);
        }
    }
    assert(dots == (name@ == ".."@)) by {
        if name@.len() == 2 && name@[0] == '.' && name@[1] == '.' {
            assert(name@ =~= ".."@);
        }
    }
    if name.len() == 0 || dot || dots {
        "download".to_owned()
    } else {
        string_of(&name)
    }
}

} // verus!
