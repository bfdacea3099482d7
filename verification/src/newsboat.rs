//! Good news for Newsboat, the feed reader that runs in a terminal: which
//! feeds, where Newsboat keeps its list of them, and adding them to that list
//! or taking them out again.
//!
//! Lines are only ever added or removed whole, and only lines carrying the
//! `glimmerwood` tag are ever removed, so the user's own feeds and comments
//! are left as they were.

use vstd::prelude::*;

use crate::protocol::NewsKind;
use crate::text::{
    blank, chars_of, concat_map, ends, ends_with, is_blank, join, last_before, lemma_concat_map_push,
    lemma_filter_take, lemma_last_before, lemma_last_before_is, lemma_trim_empty, lines, lines_of,
    push_all, push_str, same, starts, starts_with, string_of, split_words, views, words_of,
    is_dark_at, is_white, is_white_at, lemma_first_from_is, lemma_lines_append,
    lemma_lines_end, lemma_lines_one, lemma_words_plain, lemma_words_quoted, lemma_words_space,
    trim_start, lemma_filter_from, lemma_filter_all_pass, lemma_first_from, first_from, is_char_at,
    strip_cr,
};

verus! {

/// The tag on every line Glimmerwood writes, and the only lines it removes.
pub const TAG: &'static str = "glimmerwood";

/// The comment above the feeds Glimmerwood adds.
pub const HEADER: &'static str = "# Good news from Glimmerwood. Its Settings can take these out again.";

#[derive(Clone, Debug)]
pub struct Feed {
    /// The reputation-list entry its stories open under.
    pub site: String,
    pub url: String,
    pub name: String,
    pub kind: NewsKind,
}

#[derive(Clone, Debug)]
pub struct GoodNews {
    pub feeds: Vec<Feed>,
}

/// What adding the feeds did.
#[derive(Debug, PartialEq)]
pub struct Added {
    pub text: String,
    pub added: usize,
    /// Feeds that were in the list already, whoever put them there.
    pub already: usize,
}

// --- What the list says --------------------------------------------------------

/// The feed a line of the list is for: its first word, unless that starts a
/// comment; none for blanks and comments.
pub open spec fn url_of_spec(line: Seq<char>) -> Option<Seq<char>> {
    let w = split_words(line);
    if w.len() == 0 {
        None
    } else if starts_with(w[0], "#"@) {
        None
    } else {
        Some(w[0])
    }
}

/// Some line of `text` is for `url`.
pub open spec fn lists_url(text: Seq<char>, url: Seq<char>) -> bool {
    exists|i: int| 0 <= i < lines(text).len() && url_of_spec(#[trigger] lines(text)[i]) == Some(url)
}

pub open spec fn kind_word(kind: NewsKind) -> Seq<char> {
    match kind {
        NewsKind::Working => "\"what's working\""@,
        NewsKind::Light => "light"@,
        NewsKind::Awe => "awe"@,
    }
}

/// One feed as a line of Newsboat's list: the address, `~` and the name it
/// shows, then tags.
pub open spec fn line_for_spec(feed: Feed) -> Seq<char> {
    feed.url@ + " \"~"@ + feed.name@ + "\" "@ + TAG@ + " "@ + kind_word(feed.kind)
}

pub open spec fn feed_line(feed: Feed) -> Seq<char> {
    line_for_spec(feed) + "\n"@
}

pub open spec fn is_missing(text: Seq<char>) -> spec_fn(Feed) -> bool {
    |f: Feed| !lists_url(text, f.url@)
}

/// The feeds `text` doesn't list, in order.
pub open spec fn missing(text: Seq<char>, feeds: Seq<Feed>) -> Seq<Feed> {
    feeds.filter(is_missing(text))
}

/// What goes before the added lines: a line feed to end an unfinished last
/// line, a blank line to set them apart, and the header unless the list has
/// it already.
pub open spec fn add_prefix(text: Seq<char>) -> Seq<char> {
    let ended = if text.len() > 0 && !ends_with(text, "\n"@) {
        text + "\n"@
    } else {
        text
    };
    let apart = if !is_blank(ended) && !ends_with(ended, "\n\n"@) {
        ended + "\n"@
    } else {
        ended
    };
    if !lines(text).contains(HEADER@) {
        apart + HEADER@ + "\n"@
    } else {
        apart
    }
}

pub open spec fn add_text(text: Seq<char>, feeds: Seq<Feed>) -> Seq<char> {
    if missing(text, feeds).len() == 0 {
        text
    } else {
        add_prefix(text) + concat_map(missing(text, feeds), |f: Feed| feed_line(f))
    }
}

/// Some feed in `feeds` has this address.
pub open spec fn is_ours(feeds: Seq<Feed>, url: Seq<char>) -> bool {
    exists|j: int| 0 <= j < feeds.len() && (#[trigger] feeds[j]).url@ == url
}

/// A line Glimmerwood added for one of `feeds`: its address, and the tag
/// among its later words.
pub open spec fn drops(feeds: Seq<Feed>, line: Seq<char>) -> bool {
    match url_of_spec(line) {
        Some(url) => is_ours(feeds, url) && split_words(line).skip(1).contains(TAG@),
        None => false,
    }
}

pub open spec fn is_dropped(feeds: Seq<Feed>) -> spec_fn(Seq<char>) -> bool {
    |l: Seq<char>| drops(feeds, l)
}

pub open spec fn is_kept(feeds: Seq<Feed>) -> spec_fn(Seq<char>) -> bool {
    |l: Seq<char>| !drops(feeds, l) && l != HEADER@
}

pub open spec fn is_dark_line(ls: Seq<Seq<char>>) -> spec_fn(int) -> bool {
    |i: int| !is_blank(ls[i])
}

pub open spec fn removed_count(text: Seq<char>, feeds: Seq<Feed>) -> nat {
    lines(text).filter(is_dropped(feeds)).len()
}

/// The lines that stay, up to the last that isn't blank, each ended by a
/// line feed.
pub open spec fn remove_text(text: Seq<char>, feeds: Seq<Feed>) -> Seq<char> {
    let kept = lines(text).filter(is_kept(feeds));
    let end = last_before(is_dark_line(kept), kept.len() as int) + 1;
    let out = join(kept.take(end), "\n"@);
    if out.len() > 0 {
        out + "\n"@
    } else {
        out
    }
}

pub open spec fn remove_spec(text: Seq<char>, feeds: Seq<Feed>) -> (Seq<char>, nat) {
    if removed_count(text, feeds) == 0 {
        (text, 0)
    } else {
        (remove_text(text, feeds), removed_count(text, feeds))
    }
}

/// Whether `text` lists each of `feeds`, in order.
pub open spec fn present_spec(text: Seq<char>, feeds: Seq<Feed>) -> Seq<bool> {
    Seq::new(feeds.len(), |i: int| lists_url(text, feeds[i].url@))
}

/// `base` joined with a relative path, as `Path::join` joins them.
pub open spec fn path_join(base: Seq<char>, rel: Seq<char>) -> Seq<char> {
    if base.len() == 0 || ends_with(base, "/"@) {
        base + rel
    } else {
        base + "/"@ + rel
    }
}

// --- Adding twice ---------------------------------------------------------------

/// A feed whose address is found again in the list: one word, with no
/// white space, starting with neither `#` (a comment) nor a double quote (a
/// quoted word).
pub open spec fn plain_feed(f: Feed) -> bool {
    &&& f.url@.len() > 0
    &&& f.url@[0] != '#'
    &&& f.url@[0] != '"'
    &&& forall|i: int| 0 <= i < f.url@.len() ==> !is_white(#[trigger] f.url@[i])
}

/// A feed whose line reads back as its own line: an address that is one
/// word (no white space, no quote, not a comment) and a name on one line.
pub open spec fn one_line_feed(f: Feed) -> bool {
    &&& f.url@.len() > 0
    &&& f.url@[0] != '#'
    &&& forall|i: int| 0 <= i < f.url@.len() ==> !is_white(#[trigger] f.url@[i]) && f.url@[i] != '"'
    &&& forall|i: int| 0 <= i < f.name@.len() ==> #[trigger] f.name@[i] != '\n'
}

/// A plain feed's line is one line, and names its address.
proof fn lemma_line_for(f: Feed)
    requires
        one_line_feed(f),
    ensures
        forall|j: int| 0 <= j < line_for_spec(f).len() ==> #[trigger] line_for_spec(f)[j] != '\n',
        line_for_spec(f).len() > 0 && line_for_spec(f).last() != '\r',
        url_of_spec(line_for_spec(f)) == Some(f.url@),
{
    reveal_strlit(" \"~");
    reveal_strlit("\" ");
    reveal_strlit("glimmerwood");
    reveal_strlit(" ");
    reveal_strlit("\"what's working\"");
    reveal_strlit("light");
    reveal_strlit("awe");
    reveal_strlit("#");
    let u = f.url@;
    let l = line_for_spec(f);
    let tail = " \"~"@ + f.name@ + "\" "@ + TAG@ + " "@ + kind_word(f.kind);
    assert(l == u + tail);
    assert(tail[0] == ' ');
    assert(kind_word(f.kind).len() > 0);
    assert(l.last() == kind_word(f.kind).last());
    assert forall|j: int| 0 <= j < l.len() implies #[trigger] l[j] != '\n' by {
        if j < u.len() {
            assert(l[j] == u[j]);
            assert(!is_white(u[j]));
        } else {
            let k = j - u.len();
            assert(l[j] == tail[k]);
            let a = " \"~"@;
            let b = a + f.name@;
            let c = b + "\" "@;
            let d = c + TAG@;
            let e = d + " "@;
            assert(tail == e + kind_word(f.kind));
            if k >= e.len() {
                assert(tail[k] == kind_word(f.kind)[k - e.len()]);
            } else if k >= d.len() {
                assert(tail[k] == ' ');
            } else if k >= c.len() {
                assert(tail[k] == TAG@[k - c.len()]);
            } else if k >= b.len() {
                assert(tail[k] == "\" "@[k - b.len()]);
            } else if k >= a.len() {
                assert(tail[k] == f.name@[k - a.len()]);
            } else {
                assert(tail[k] == a[k]);
            }
        }
    }
    // The first word is the address.
    assert(l[0] == u[0]);
    lemma_first_from_is(l.len() as int, is_dark_at(l), 0, 0);
    assert(l.skip(0) == l);
    assert(trim_start(l) == l);
    assert(l[u.len() as int] == ' ');
    assert forall|i: int| 0 <= i < u.len() implies !#[trigger] is_white_at(l)(i) by {
        assert(l[i] == u[i]);
    }
    lemma_first_from_is(l.len() as int, is_white_at(l), 0, u.len() as int);
    assert(l.take(u.len() as int) == u);
    let w = split_words(l);
    assert(w[0] == u);
    assert(!starts_with(u, "#"@)) by {
        if starts_with(u, "#"@) {
            assert(u.take(1)[0] == u[0]);
        }
    }
}

/// A feed whose line Glimmerwood can also find again to take out: plain,
/// with no quote in its name.
pub open spec fn tagged_feed(f: Feed) -> bool {
    &&& one_line_feed(f)
    &&& forall|i: int| 0 <= i < f.name@.len() ==> #[trigger] f.name@[i] != '"'
}

/// The tag is among the later words of a feed's line.
proof fn lemma_line_tagged(f: Feed)
    requires
        tagged_feed(f),
    ensures
        split_words(line_for_spec(f)).skip(1).contains(TAG@),
{
    reveal_strlit(" \"~");
    reveal_strlit("\" ");
    reveal_strlit("glimmerwood");
    reveal_strlit(" ");
    let u = f.url@;
    let n = f.name@;
    let nl = n.len() as int;
    let k = kind_word(f.kind);
    let l = line_for_spec(f);
    let r1 = " \"~"@ + n + "\" "@ + TAG@ + " "@ + k;
    assert(l == u + r1);
    assert(l[0] == u[0]);
    assert(l[u.len() as int] == ' ');
    assert forall|i: int| 0 <= i < u.len() implies !is_white(#[trigger] l[i]) by {
        assert(l[i] == u[i]);
    }
    lemma_words_plain(l, u.len() as int);
    assert(l.take(u.len() as int) == u);
    assert(l.skip(u.len() as int) == r1);
    // Past the space, the quoted name.
    assert(r1[0] == ' ' && r1[1] == '"');
    lemma_words_space(r1);
    let q = r1.skip(1);
    let r2 = " "@ + TAG@ + " "@ + k;
    assert(q =~= "\"~"@ + n + "\""@ + r2) by {
        reveal_strlit("\"~");
        reveal_strlit("\"");
    }
    assert(q[0] == '"');
    assert(q[nl + 2] == '"');
    assert forall|i: int| 1 <= i < nl + 2 implies #[trigger] q[i] != '"' by {
        if i > 1 {
            assert(q[i] == n[i - 2]);
        }
    }
    lemma_words_quoted(q, nl + 2);
    assert(q.skip(nl + 3) == r2);
    // Past the space, the tag.
    assert(r2[0] == ' ' && r2[1] == 'g');
    lemma_words_space(r2);
    let r3 = r2.skip(1);
    assert(r3 == TAG@ + " "@ + k);
    assert(r3[11] == ' ');
    assert forall|i: int| 0 <= i < 11 implies !is_white(#[trigger] r3[i]) by {
        assert(r3[i] == TAG@[i]);
    }
    assert(r3[0] != '"');
    lemma_words_plain(r3, 11);
    assert(r3.take(11) == TAG@);
    let w = split_words(l);
    assert(w == seq![u] + (seq![q.subrange(1, nl + 2)] + (seq![TAG@] + split_words(r3.skip(11)))));
    assert(w.skip(1)[1] == TAG@);
}

/// Every feed missing from a list is one of the feeds.
proof fn lemma_missing_in(text: Seq<char>, feeds: Seq<Feed>, k: int)
    requires
        0 <= k < missing(text, feeds).len(),
    ensures
        exists|j: int| 0 <= j < feeds.len() && feeds[j] == missing(text, feeds)[k],
    decreases feeds.len(),
{
    reveal(Seq::filter);
    let pred = is_missing(text);
    let rest = feeds.drop_last();
    let sub = rest.filter(pred);
    let out = feeds.filter(pred);
    assert(out == if pred(feeds.last()) {
        sub.push(feeds.last())
    } else {
        sub
    });
    if k < sub.len() {
        assert(out[k] == sub[k]);
        assert(sub == missing(text, rest));
        lemma_missing_in(text, rest, k);
        let j = choose|j: int| 0 <= j < rest.len() && rest[j] == missing(text, rest)[k];
        assert(feeds[j] == rest[j]);
    } else {
        assert(out[k] == feeds[feeds.len() - 1]);
    }
}

pub open spec fn feed_lines(m: Seq<Feed>) -> Seq<char> {
    concat_map(m, |f: Feed| feed_line(f))
}

/// The lines that adding writes are the feeds' lines, one each.
proof fn lemma_feed_lines(m: Seq<Feed>)
    requires
        forall|k: int| 0 <= k < m.len() ==> one_line_feed(#[trigger] m[k]),
    ensures
        lines(feed_lines(m)) == m.map_values(|f: Feed| line_for_spec(f)),
        feed_lines(m).len() == 0 || feed_lines(m).last() == '\n',
    decreases m.len(),
{
    reveal_strlit("\n");
    if m.len() > 0 {
        let m2 = m.drop_last();
        let f = m.last();
        assert(one_line_feed(m[m.len() - 1]));
        lemma_feed_lines(m2);
        lemma_concat_map_push(m2, |f: Feed| feed_line(f), f);
        assert(m2.push(f) == m);
        lemma_line_for(f);
        lemma_lines_one(line_for_spec(f));
        let c2 = feed_lines(m2);
        assert(feed_lines(m) == c2 + feed_line(f));
        if c2.len() > 0 {
            lemma_lines_append(c2, feed_line(f));
        } else {
            assert(c2 + feed_line(f) == feed_line(f));
            assert(lines(c2) == Seq::<Seq<char>>::empty());
        }
        assert(m.map_values(|f: Feed| line_for_spec(f)) == m2.map_values(|f: Feed| line_for_spec(f)).push(line_for_spec(f)));
    } else {
        assert(m.map_values(|f: Feed| line_for_spec(f)) == Seq::<Seq<char>>::empty());
    }
}

/// The header is one line, and a comment.
proof fn lemma_header_line()
    ensures
        lines(HEADER@ + "\n"@) == seq![HEADER@],
        url_of_spec(HEADER@) is None,
{
    reveal_strlit("# Good news from Glimmerwood. Its Settings can take these out again.");
    reveal_strlit("#");
    let h = HEADER@;
    assert(h.len() > 0 && h.last() == '.');
    lemma_lines_one(h);
    assert(h[0] == '#');
    lemma_first_from_is(h.len() as int, is_dark_at(h), 0, 0);
    assert(h.skip(0) == h);
    assert(h[1] == ' ');
    lemma_first_from_is(h.len() as int, is_white_at(h), 0, 1);
    assert(trim_start(h) == h);
    let w = split_words(h);
    assert(w == seq![h.take(1)] + split_words(h.skip(1)));
    assert(w.len() > 0);
    assert(w[0] == h.take(1));
    assert(h.take(1) == "#"@);
    assert(w[0].len() == 1);
    assert(w[0].take(1) == w[0]);
    assert(starts_with(w[0], "#"@));
}

/// What goes before the added lines keeps the list's own lines first, adds
/// only blank lines and the header, and ends a line.
proof fn lemma_add_prefix(t: Seq<char>)
    ensures
        lines(t).len() <= lines(add_prefix(t)).len(),
        forall|i: int| 0 <= i < lines(t).len() ==> lines(add_prefix(t))[i] == lines(t)[i],
        forall|i: int|
            lines(t).len() <= i < lines(add_prefix(t)).len() ==> (#[trigger] lines(add_prefix(t))[i]
                == Seq::<char>::empty() || lines(add_prefix(t))[i] == HEADER@),
        add_prefix(t).len() > 0,
        add_prefix(t).last() == '\n',
{
    lemma_header_line();
    reveal_strlit("\n");
    reveal_strlit("\n\n");
    let nl = "\n"@;
    let ended = if t.len() > 0 && !ends_with(t, nl) {
        t + nl
    } else {
        t
    };
    if t.len() > 0 && !ends_with(t, nl) {
        assert(t.last() != '\n') by {
            if t.last() == '\n' {
                assert(t.skip(t.len() - 1) == nl);
            }
        }
        lemma_lines_end(t);
    }
    if t.len() > 0 && ends_with(t, nl) {
        assert(t.skip(t.len() - 1)[0] == t.last());
    }
    assert(lines(ended) == lines(t));
    assert(ended.len() == 0 || ended.last() == '\n');
    let apart = if !is_blank(ended) && !ends_with(ended, "\n\n"@) {
        ended + nl
    } else {
        ended
    };
    if !is_blank(ended) && !ends_with(ended, "\n\n"@) {
        lemma_lines_append(ended, nl);
        lemma_lines_one(Seq::<char>::empty());
        assert(Seq::<char>::empty() + nl == nl);
    }
    assert(ended.len() == 0 ==> is_blank(ended));
    assert(lines(apart).len() >= lines(t).len());
    assert(forall|i: int| 0 <= i < lines(t).len() ==> lines(apart)[i] == lines(t)[i]);
    assert(apart.len() == 0 || apart.last() == '\n');
    assert(apart.len() == 0 ==> t.len() == 0);
    if !lines(t).contains(HEADER@) {
        let p = apart + HEADER@ + nl;
        assert(p == apart + (HEADER@ + nl));
        if apart.len() > 0 {
            lemma_lines_append(apart, HEADER@ + nl);
        } else {
            assert(lines(t) == Seq::<Seq<char>>::empty());
        }
        assert(p.last() == '\n');
    } else {
        assert(lines(t).len() > 0);
        assert(t.len() > 0);
    }
}

/// Every element of `missing(text, feeds)` is one of `feeds`, so plain when
/// they all are.
proof fn lemma_missing_one_line(text: Seq<char>, feeds: Seq<Feed>)
    requires
        forall|j: int| 0 <= j < feeds.len() ==> one_line_feed(#[trigger] feeds[j]),
    ensures
        forall|k: int| 0 <= k < missing(text, feeds).len() ==> one_line_feed(#[trigger] missing(text, feeds)[k]),
    decreases feeds.len(),
{
    reveal(Seq::filter);
    if feeds.len() > 0 {
        let rest = feeds.drop_last();
        assert forall|j: int| 0 <= j < rest.len() implies one_line_feed(#[trigger] rest[j]) by {
            assert(rest[j] == feeds[j]);
        }
        lemma_missing_one_line(text, rest);
        assert(one_line_feed(feeds[feeds.len() - 1]));
        let pred = is_missing(text);
        let sub = rest.filter(pred);
        let out = feeds.filter(pred);
        assert(out == if pred(feeds.last()) {
            sub.push(feeds.last())
        } else {
            sub
        });
        assert forall|k: int| 0 <= k < out.len() implies one_line_feed(#[trigger] out[k]) by {
            if k < sub.len() {
                assert(out[k] == sub[k]);
                assert(one_line_feed(missing(text, rest)[k]));
            } else {
                assert(out[k] == feeds.last());
            }
        }
    }
}

/// A line that starts with a plain address and then a space is for that
/// address.
proof fn lemma_url_first(u: Seq<char>, r: Seq<char>)
    requires
        u.len() > 0,
        u[0] != '#',
        u[0] != '"',
        forall|i: int| 0 <= i < u.len() ==> !is_white(#[trigger] u[i]),
        r.len() > 0,
        r[0] == ' ',
    ensures
        url_of_spec(u + r) == Some(u),
{
    reveal_strlit("#");
    let l = u + r;
    assert(l[u.len() as int] == ' ');
    assert forall|i: int| 0 <= i < u.len() implies !is_white(#[trigger] l[i]) by {
        assert(l[i] == u[i]);
    }
    assert(l[0] == u[0]);
    lemma_words_plain(l, u.len() as int);
    assert(l.take(u.len() as int) == u);
    let w = split_words(l);
    assert(w[0] == u);
    assert(!starts_with(u, "#"@)) by {
        if starts_with(u, "#"@) {
            assert(u.take(1)[0] == u[0]);
        }
    }
}

/// The first line a feed's line makes, whatever its name holds, is for its
/// address; the line ends with a line feed.
proof fn lemma_feed_first_line(f: Feed)
    requires
        plain_feed(f),
    ensures
        lines(feed_line(f)).len() > 0,
        url_of_spec(lines(feed_line(f))[0]) == Some(f.url@),
        feed_line(f).len() > 0 && feed_line(f).last() == '\n',
{
    reveal_strlit(" \"~");
    reveal_strlit("\n");
    let u = f.url@;
    let x = feed_line(f);
    let tail = " \"~"@ + f.name@ + "\" "@ + TAG@ + " "@ + kind_word(f.kind) + "\n"@;
    assert(x == u + tail);
    assert(x.last() == '\n');
    let ul = u.len() as int;
    assert(x[ul] == ' ' && x[ul + 1] == '"' && x[ul + 2] == '~');
    lemma_first_from(x.len() as int, is_char_at(x, '\n'), 0);
    assert(is_char_at(x, '\n')(x.len() - 1));
    let i = first_from(x.len() as int, is_char_at(x, '\n'), 0);
    assert(0 <= i < x.len());
    assert(i >= u.len() + 3) by {
        if i < u.len() {
            assert(x[i] == u[i]);
            assert(!is_white(u[i]));
        }
    }
    let l = x.take(i);
    assert(lines(x)[0] == strip_cr(l));
    let r = strip_cr(l).skip(u.len() as int);
    assert(strip_cr(l) == u + r) by {
        assert(strip_cr(l).take(u.len() as int) == u);
    }
    assert(r[0] == ' ');
    lemma_url_first(u, r);
}

/// Every feed added has a line of its own among those adding writes, and
/// they end with a line feed.
proof fn lemma_feed_lines_found(m: Seq<Feed>)
    requires
        forall|k: int| 0 <= k < m.len() ==> plain_feed(#[trigger] m[k]),
    ensures
        feed_lines(m).len() == 0 || feed_lines(m).last() == '\n',
        forall|k: int|
            0 <= k < m.len() ==> exists|i: int|
                0 <= i < lines(feed_lines(m)).len() && url_of_spec(#[trigger] lines(feed_lines(m))[i])
                    == Some((#[trigger] m[k]).url@),
    decreases m.len(),
{
    if m.len() > 0 {
        let m2 = m.drop_last();
        let f = m.last();
        assert(plain_feed(m[m.len() - 1]));
        assert forall|k: int| 0 <= k < m2.len() implies plain_feed(#[trigger] m2[k]) by {
            assert(m2[k] == m[k]);
        }
        lemma_feed_lines_found(m2);
        lemma_concat_map_push(m2, |f: Feed| feed_line(f), f);
        assert(m2.push(f) == m);
        lemma_feed_first_line(f);
        let c2 = feed_lines(m2);
        let lf = lines(feed_line(f));
        assert(feed_lines(m) == c2 + feed_line(f));
        let lc = lines(feed_lines(m));
        if c2.len() > 0 {
            lemma_lines_append(c2, feed_line(f));
        } else {
            assert(c2 + feed_line(f) == feed_line(f));
            assert(lines(c2) == Seq::<Seq<char>>::empty());
        }
        assert(lc == lines(c2) + lf);
        assert forall|k: int| 0 <= k < m.len() implies exists|i: int|
            0 <= i < lc.len() && url_of_spec(#[trigger] lc[i]) == Some((#[trigger] m[k]).url@) by {
            if k < m.len() - 1 {
                assert(m2[k] == m[k]);
                let i = choose|i: int|
                    0 <= i < lines(c2).len() && url_of_spec(#[trigger] lines(c2)[i]) == Some(m2[k].url@);
                assert(lc[i] == lines(c2)[i]);
            } else {
                let i = lines(c2).len() as int;
                assert(lc[i] == lf[0]);
            }
        }
    }
}

/// Every element of `missing(text, feeds)` is one of `feeds`, so plain when
/// they all are.
proof fn lemma_missing_plain(text: Seq<char>, feeds: Seq<Feed>)
    requires
        forall|j: int| 0 <= j < feeds.len() ==> plain_feed(#[trigger] feeds[j]),
    ensures
        forall|k: int| 0 <= k < missing(text, feeds).len() ==> plain_feed(#[trigger] missing(text, feeds)[k]),
{
    assert forall|k: int| 0 <= k < missing(text, feeds).len() implies plain_feed(
        #[trigger] missing(text, feeds)[k],
    ) by {
        lemma_missing_in(text, feeds, k);
    }
}

/// How many of `bs` are true.
pub open spec fn count_true(bs: Seq<bool>) -> nat
    decreases bs.len(),
{
    if bs.len() == 0 {
        0
    } else {
        count_true(bs.drop_last()) + if bs.last() {
            1nat
        } else {
            0nat
        }
    }
}

proof fn lemma_present_counts(text: Seq<char>, feeds: Seq<Feed>)
    ensures
        missing(text, feeds).len() <= feeds.len(),
        feeds.len() - missing(text, feeds).len() == count_true(present_spec(text, feeds)),
    decreases feeds.len(),
{
    reveal(Seq::filter);
    if feeds.len() > 0 {
        let rest = feeds.drop_last();
        lemma_present_counts(text, rest);
        assert(present_spec(text, feeds).drop_last() == present_spec(text, rest));
        assert(feeds.filter(is_missing(text)) == if is_missing(text)(feeds.last()) {
            rest.filter(is_missing(text)).push(feeds.last())
        } else {
            rest.filter(is_missing(text))
        });
    } else {
        assert(feeds.filter(is_missing(text)) == feeds);
    }
}

/// Adding keeps the list as it was and only writes after it, and the feeds
/// counted as there already are those the list had: the result starts with
/// the text, and the feeds not added are the feeds present before.
pub proof fn adding_keeps_the_list_and_counts_what_was_there(text: Seq<char>, feeds: Seq<Feed>)
    ensures
        starts_with(add_text(text, feeds), text),
        missing(text, feeds).len() <= feeds.len(),
        feeds.len() - missing(text, feeds).len() == count_true(present_spec(text, feeds)),
{
    lemma_present_counts(text, feeds);
    reveal_strlit("\n");
    let nl = "\n"@;
    let ended = if text.len() > 0 && !ends_with(text, nl) {
        text + nl
    } else {
        text
    };
    let apart = if !is_blank(ended) && !ends_with(ended, "\n\n"@) {
        ended + nl
    } else {
        ended
    };
    assert(ended.take(text.len() as int) == text);
    assert(apart.take(text.len() as int) == text);
    let p = add_prefix(text);
    assert(p.take(text.len() as int) == text);
    if missing(text, feeds).len() > 0 {
        let t2 = add_text(text, feeds);
        assert(t2 == p + concat_map(missing(text, feeds), |f: Feed| feed_line(f)));
        assert(t2.take(text.len() as int) == p.take(text.len() as int));
    } else {
        assert(add_text(text, feeds).take(text.len() as int) == text);
    }
}

/// Adding the feeds a second time changes nothing: after adding, every feed
/// is listed.
pub proof fn adding_twice_changes_nothing(text: Seq<char>, feeds: Seq<Feed>)
    requires
        forall|j: int| 0 <= j < feeds.len() ==> plain_feed(#[trigger] feeds[j]),
    ensures
        missing(add_text(text, feeds), feeds).len() == 0,
        add_text(add_text(text, feeds), feeds) == add_text(text, feeds),
{
    let t2 = add_text(text, feeds);
    let m = missing(text, feeds);
    if m.len() > 0 {
        let p = add_prefix(text);
        lemma_add_prefix(text);
        lemma_missing_plain(text, feeds);
        lemma_feed_lines_found(m);
        assert(t2 == p + feed_lines(m));
        lemma_lines_append(p, feed_lines(m));
        let lp = lines(p);
        let lc = lines(feed_lines(m));
        assert forall|j: int| 0 <= j < feeds.len() implies !#[trigger] is_missing(t2)(feeds[j]) by {
            let u = feeds[j].url@;
            if lists_url(text, u) {
                let i = choose|i: int| 0 <= i < lines(text).len() && url_of_spec(#[trigger] lines(text)[i]) == Some(u);
                assert(lines(t2)[i] == lp[i]);
                assert(url_of_spec(lines(t2)[i]) == Some(u));
            } else {
                assert(is_missing(text)(feeds[j]));
                feeds.lemma_filter_contains(is_missing(text), j);
                let k = choose|k: int| 0 <= k < m.len() && m[k] == feeds[j];
                let i = choose|i: int| 0 <= i < lc.len() && url_of_spec(#[trigger] lc[i]) == Some(m[k].url@);
                let idx = lp.len() + i;
                assert(lines(t2)[idx] == lc[i]);
                assert(url_of_spec(lines(t2)[idx]) == Some(u));
            }
        }
        assert(feeds.all(|x: Feed| !is_missing(t2)(x)));
        feeds.lemma_all_neg_filter_empty(is_missing(t2));
    }
}

// --- Taking out what was added -------------------------------------------------------

/// Every line that adding writes is one that taking out removes.
proof fn lemma_added_lines_dropped(text: Seq<char>, feeds: Seq<Feed>)
    requires
        forall|j: int| 0 <= j < feeds.len() ==> tagged_feed(#[trigger] feeds[j]),
    ensures
        forall|k: int|
            0 <= k < lines(feed_lines(missing(text, feeds))).len() ==> drops(
                feeds,
                #[trigger] lines(feed_lines(missing(text, feeds)))[k],
            ),
        lines(feed_lines(missing(text, feeds))).len() == missing(text, feeds).len(),
{
    let m = missing(text, feeds);
    assert forall|j: int| 0 <= j < feeds.len() implies one_line_feed(#[trigger] feeds[j]) by {
        assert(tagged_feed(feeds[j]));
    }
    lemma_missing_one_line(text, feeds);
    lemma_feed_lines(m);
    assert forall|k: int| 0 <= k < lines(feed_lines(m)).len() implies drops(
        feeds,
        #[trigger] lines(feed_lines(m))[k],
    ) by {
        lemma_missing_in(text, feeds, k);
        let j = choose|j: int| 0 <= j < feeds.len() && feeds[j] == m[k];
        assert(lines(feed_lines(m))[k] == line_for_spec(m[k]));
        lemma_line_for(m[k]);
        lemma_line_tagged(feeds[j]);
        assert(is_ours(feeds, m[k].url@));
    }
}

/// A blank line names no feed.
proof fn lemma_blank_line_no_url()
    ensures
        url_of_spec(Seq::<char>::empty()) is None,
{
    let e = Seq::<char>::empty();
    lemma_first_from(0, is_dark_at(e), 0);
    assert(trim_start(e).len() == 0);
    assert(split_words(e).len() == 0);
}

/// The lines that adding puts before the feeds (blank ones and the
/// header) are never taken out, and of them only blank ones are kept.
proof fn lemma_extra_lines(x: Seq<Seq<char>>, feeds: Seq<Feed>)
    requires
        forall|i: int| 0 <= i < x.len() ==> (#[trigger] x[i] == Seq::<char>::empty() || x[i] == HEADER@),
    ensures
        x.filter(is_dropped(feeds)).len() == 0,
        forall|i: int|
            0 <= i < x.filter(is_kept(feeds)).len() ==> #[trigger] x.filter(is_kept(feeds))[i]
                == Seq::<char>::empty(),
{
    lemma_header_line();
    lemma_blank_line_no_url();
    assert forall|i: int| 0 <= i < x.len() implies !#[trigger] is_dropped(feeds)(x[i]) by {
        assert(x[i] == Seq::<char>::empty() || x[i] == HEADER@);
    }
    assert(x.all(|l: Seq<char>| !is_dropped(feeds)(l)));
    x.lemma_all_neg_filter_empty(is_dropped(feeds));
    let kept = x.filter(is_kept(feeds));
    assert forall|i: int| 0 <= i < kept.len() implies #[trigger] kept[i] == Seq::<char>::empty() by {
        x.lemma_filter_pred(is_kept(feeds), i);
        lemma_filter_from(x, is_kept(feeds), i);
        let j = choose|j: int| 0 <= j < x.len() && x[j] == kept[i];
        assert(x[j] == Seq::<char>::empty() || x[j] == HEADER@);
    }
}

/// Blank lines after the kept ones change nothing of what is written back.
proof fn lemma_remove_text_blank_tail(k: Seq<Seq<char>>, b: Seq<Seq<char>>)
    requires
        forall|i: int| 0 <= i < b.len() ==> #[trigger] b[i] == Seq::<char>::empty(),
    ensures
        ({
            let all = k + b;
            let end = last_before(is_dark_line(all), all.len() as int) + 1;
            let end_k = last_before(is_dark_line(k), k.len() as int) + 1;
            end == end_k && all.take(end) == k.take(end_k)
        }),
{
    let all = k + b;
    lemma_last_before(is_dark_line(k), k.len() as int);
    let r = last_before(is_dark_line(k), k.len() as int);
    assert forall|i: int| r < i < all.len() implies !#[trigger] is_dark_line(all)(i) by {
        if i < k.len() {
            assert(all[i] == k[i]);
            assert(!is_dark_line(k)(i));
        } else {
            assert(all[i] == b[i - k.len()]);
            assert(is_blank(all[i]));
        }
    }
    if r != -1 {
        assert(all[r] == k[r]);
        assert(is_dark_line(k)(r));
    }
    lemma_last_before_is(is_dark_line(all), all.len() as int, r);
    assert(all.take(r + 1) == k.take(r + 1));
}

/// The lines adding puts between the list's own lines and the feeds.
pub open spec fn extra_lines(text: Seq<char>) -> Seq<Seq<char>> {
    lines(add_prefix(text)).skip(lines(text).len() as int)
}

/// After adding, the list's lines are its own, then blank lines or the
/// header, then the feeds' lines.
proof fn lemma_added_lines(text: Seq<char>, feeds: Seq<Feed>)
    requires
        forall|j: int| 0 <= j < feeds.len() ==> tagged_feed(#[trigger] feeds[j]),
        missing(text, feeds).len() > 0,
    ensures
        lines(add_text(text, feeds)) == lines(text) + extra_lines(text) + lines(feed_lines(missing(text, feeds))),
        forall|i: int|
            0 <= i < extra_lines(text).len() ==> (#[trigger] extra_lines(text)[i] == Seq::<char>::empty()
                || extra_lines(text)[i] == HEADER@),
{
    let m = missing(text, feeds);
    let p = add_prefix(text);
    let c = feed_lines(m);
    lemma_add_prefix(text);
    assert(add_text(text, feeds) == p + c);
    lemma_lines_append(p, c);
    let lt = lines(text);
    let lp = lines(p);
    let x = extra_lines(text);
    assert(lp == lt + x);
    assert forall|i: int| 0 <= i < x.len() implies (#[trigger] x[i] == Seq::<char>::empty() || x[i] == HEADER@) by {
        assert(x[i] == lp[lt.len() + i]);
    }
}

/// How many lines come out after adding.
proof fn lemma_count_after(lt: Seq<Seq<char>>, x: Seq<Seq<char>>, lc: Seq<Seq<char>>, feeds: Seq<Feed>)
    requires
        x.filter(is_dropped(feeds)).len() == 0,
        forall|k: int| 0 <= k < lc.len() ==> drops(feeds, #[trigger] lc[k]),
    ensures
        (lt + x + lc).filter(is_dropped(feeds)).len() == lt.filter(is_dropped(feeds)).len() + lc.len(),
{
    let drop = is_dropped(feeds);
    Seq::filter_distributes_over_add(lt + x, lc, drop);
    Seq::filter_distributes_over_add(lt, x, drop);
    assert forall|i: int| 0 <= i < lc.len() implies #[trigger] drop(lc[i]) by {}
    lemma_filter_all_pass(lc, drop);
}

/// What stays after adding and taking out: the lines that stayed before,
/// and blank ones.
proof fn lemma_kept_after(lt: Seq<Seq<char>>, x: Seq<Seq<char>>, lc: Seq<Seq<char>>, feeds: Seq<Feed>)
    requires
        forall|k: int| 0 <= k < lc.len() ==> drops(feeds, #[trigger] lc[k]),
    ensures
        (lt + x + lc).filter(is_kept(feeds)) == lt.filter(is_kept(feeds)) + x.filter(is_kept(feeds)),
{
    let keep = is_kept(feeds);
    Seq::filter_distributes_over_add(lt + x, lc, keep);
    Seq::filter_distributes_over_add(lt, x, keep);
    assert forall|i: int| 0 <= i < lc.len() implies !#[trigger] keep(lc[i]) by {}
    assert(lc.all(|l: Seq<char>| !keep(l)));
    lc.lemma_all_neg_filter_empty(keep);
    assert(lc.filter(keep) == Seq::<Seq<char>>::empty());
    assert(lt.filter(keep) + x.filter(keep) + Seq::<Seq<char>>::empty() == lt.filter(keep) + x.filter(keep));
}

/// Taking the good news out after adding it leaves what taking it out
/// would have left before: the user's own lines stay as they were, and the
/// lines just added are taken out with the rest of Glimmerwood's.
pub proof fn taking_out_after_adding(text: Seq<char>, feeds: Seq<Feed>)
    requires
        forall|j: int| 0 <= j < feeds.len() ==> tagged_feed(#[trigger] feeds[j]),
        missing(text, feeds).len() > 0 || removed_count(text, feeds) > 0,
    ensures
        remove_spec(add_text(text, feeds), feeds) == (
            remove_text(text, feeds),
            removed_count(text, feeds) + missing(text, feeds).len(),
        ),
{
    let m = missing(text, feeds);
    if m.len() > 0 {
        let t2 = add_text(text, feeds);
        let lt = lines(text);
        let x = extra_lines(text);
        let lc = lines(feed_lines(m));
        lemma_added_lines(text, feeds);
        lemma_extra_lines(x, feeds);
        lemma_added_lines_dropped(text, feeds);
        lemma_count_after(lt, x, lc, feeds);
        assert(removed_count(t2, feeds) == removed_count(text, feeds) + m.len());
        lemma_kept_after(lt, x, lc, feeds);
        let kt = lt.filter(is_kept(feeds));
        let b = x.filter(is_kept(feeds));
        assert(lines(t2).filter(is_kept(feeds)) == kt + b);
        lemma_remove_text_blank_tail(kt, b);
    }
}

// --- Computing it --------------------------------------------------------------

fn path_joined(base: &[char], rel: &str) -> (r: Vec<char>)
    ensures
        r@ == path_join(base@, rel@),
{
    let mut out = crate::text::slice_of(base, 0, base.len());
    assert(out@ == base@);
    if base.len() == 0 || ends(base, &chars_of("/")) {
        push_str(&mut out, rel);
    } else {
        push_str(&mut out, "/");
        push_str(&mut out, rel);
    }
    out
}

/// Where Newsboat reads its feeds from, given whether its own directory
/// (`~/.newsboat`) and its XDG directory exist: the first that does.
pub fn urls_file_in(home: &str, own_exists: bool, xdg_exists: bool) -> (r: Option<String>)
    ensures
        match r {
            Some(p) => (own_exists && p@ == path_join(path_join(home@, ".newsboat"@), "urls"@)) || (
            !own_exists && xdg_exists && p@ == path_join(
                path_join(path_join(home@, ".config"@), "newsboat"@),
                "urls"@,
            )),
            None => !own_exists && !xdg_exists,
        },
{
    let home = chars_of(home);
    if own_exists {
        let dir = path_joined(&home, ".newsboat");
        Some(string_of(&path_joined(&dir, "urls")))
    } else if xdg_exists {
        let config = path_joined(&home, ".config");
        let dir = path_joined(&config, "newsboat");
        Some(string_of(&path_joined(&dir, "urls")))
    } else {
        None
    }
}

/// `is_dir` may answer `b` for a path that reads as `path`.
pub open spec fn answered<F: Fn(&str) -> bool>(is_dir: F, path: Seq<char>, b: bool) -> bool {
    exists|a: &str| a@ == path && #[trigger] call_ensures(is_dir, (a,), b)
}

/// Where Newsboat reads its feeds from, if it has been run here. Newsboat
/// uses `~/.newsboat` when it exists and the XDG directory otherwise, and
/// makes one of them the first time it runs. `is_dir` says whether a
/// directory exists; it is asked about the XDG directory only when
/// `~/.newsboat` isn't one.
pub fn urls_file(home: &str, is_dir: impl Fn(&str) -> bool) -> (r: Option<String>)
    requires
        forall|p: &str| is_dir.requires((p,)),
    ensures
        ({
            let own = path_join(home@, ".newsboat"@);
            let xdg = path_join(path_join(home@, ".config"@), "newsboat"@);
            match r {
                Some(p) => (p@ == path_join(own, "urls"@) && answered(is_dir, own, true)) || (p@
                    == path_join(xdg, "urls"@) && answered(is_dir, own, false) && answered(
                    is_dir,
                    xdg,
                    true,
                )),
                None => answered(is_dir, own, false) && answered(is_dir, xdg, false),
            }
        }),
{
    let h = chars_of(home);
    let own = string_of(&path_joined(&h, ".newsboat"));
    let config = path_joined(&h, ".config");
    let xdg = string_of(&path_joined(&config, "newsboat"));
    let own_dir = own.as_str();
    let own_exists = is_dir(own_dir);
    assert(answered(is_dir, own@, own_exists));
    let xdg_exists = if own_exists {
        false
    } else {
        let xdg_dir = xdg.as_str();
        let b = is_dir(xdg_dir);
        assert(answered(is_dir, xdg@, b));
        b
    };
    urls_file_in(home, own_exists, xdg_exists)
}

fn kind_str(kind: NewsKind) -> (r: &'static str)
    ensures
        r@ == kind_word(kind),
{
    match kind {
        NewsKind::Working => "\"what's working\"",
        NewsKind::Light => "light",
        NewsKind::Awe => "awe",
    }
}

fn line_for(feed: &Feed) -> (r: Vec<char>)
    ensures
        r@ == line_for_spec(*feed),
{
    let mut out = chars_of(feed.url.as_str());
    push_str(&mut out, " \"~");
    push_str(&mut out, feed.name.as_str());
    push_str(&mut out, "\" ");
    push_str(&mut out, TAG);
    push_str(&mut out, " ");
    push_str(&mut out, kind_str(feed.kind));
    out
}

fn url_of_chars(line: &[char]) -> (r: Option<Vec<char>>)
    ensures
        match r {
            Some(u) => url_of_spec(line@) == Some(u@),
            None => url_of_spec(line@) is None,
        },
{
    let w = words_of(line);
    assert(views(w@).len() == w@.len());
    if w.len() == 0 {
        return None;
    }
    assert(views(w@)[0] == w@[0]@);
    if starts(&w[0], &chars_of("#")) {
        None
    } else {
        let first = crate::text::slice_of(&w[0], 0, w[0].len());
        assert(first@ == w@[0]@);
        Some(first)
    }
}

/// The address each line is for, if any.
fn urls_of(rows: &Vec<Vec<char>>) -> (r: Vec<Option<Vec<char>>>)
    ensures
        r@.len() == rows@.len(),
        forall|i: int|
            0 <= i < rows@.len() ==> match #[trigger] r@[i] {
                Some(u) => url_of_spec(rows@[i]@) == Some(u@),
                None => url_of_spec(rows@[i]@) is None,
            },
{
    let mut out: Vec<Option<Vec<char>>> = Vec::new();
    let mut i: usize = 0;
    while i < rows.len()
        invariant
            0 <= i <= rows@.len(),
            out@.len() == i,
            forall|k: int|
                0 <= k < i ==> match #[trigger] out@[k] {
                    Some(u) => url_of_spec(rows@[k]@) == Some(u@),
                    None => url_of_spec(rows@[k]@) is None,
                },
        decreases rows.len() - i,
    {
        out.push(url_of_chars(&rows[i]));
        i += 1;
    }
    out
}

/// Whether one of `lines` is for `url`.
fn listed(text: Ghost<Seq<char>>, rows: &Vec<Vec<char>>, urls: &Vec<Option<Vec<char>>>, url: &[char]) -> (r: bool)
    requires
        views(rows@) == lines(text@),
        urls@.len() == rows@.len(),
        forall|i: int|
            0 <= i < rows@.len() ==> match #[trigger] urls@[i] {
                Some(u) => url_of_spec(rows@[i]@) == Some(u@),
                None => url_of_spec(rows@[i]@) is None,
            },
    ensures
        r == lists_url(text@, url@),
{
    let ghost ls = lines(text@);
    assert forall|i: int| 0 <= i < ls.len() implies #[trigger] ls[i] == rows@[i]@ by {
        assert(views(rows@)[i] == rows@[i]@);
    }
    let mut i: usize = 0;
    while i < urls.len()
        invariant
            0 <= i <= urls@.len(),
            urls@.len() == rows@.len(),
            ls == lines(text@),
            ls.len() == rows@.len(),
            forall|k: int| 0 <= k < ls.len() ==> #[trigger] ls[k] == rows@[k]@,
            forall|k: int|
                0 <= k < rows@.len() ==> match #[trigger] urls@[k] {
                    Some(u) => url_of_spec(rows@[k]@) == Some(u@),
                    None => url_of_spec(rows@[k]@) is None,
                },
            forall|k: int| 0 <= k < i ==> url_of_spec(#[trigger] ls[k]) != Some(url@),
        decreases urls.len() - i,
    {
        match &urls[i] {
            Some(u) => {
                assert(ls[i as int] == rows@[i as int]@);
                if same(u, url) {
                    return true;
                }
            },
            None => {
                assert(ls[i as int] == rows@[i as int]@);
            },
        }
        i += 1;
    }
    false
}

fn has_line(rows: &Vec<Vec<char>>, line: &[char]) -> (r: bool)
    ensures
        r == views(rows@).contains(line@),
{
    let mut i: usize = 0;
    while i < rows.len()
        invariant
            0 <= i <= rows@.len(),
            forall|k: int| 0 <= k < i ==> views(rows@)[k] != line@,
        decreases rows.len() - i,
    {
        if same(&rows[i], line) {
            assert(views(rows@)[i as int] == line@);
            return true;
        }
        i += 1;
    }
    false
}

fn prefix_for(text: &[char], rows: &Vec<Vec<char>>) -> (r: Vec<char>)
    requires
        views(rows@) == lines(text@),
    ensures
        r@ == add_prefix(text@),
{
    let mut out = crate::text::slice_of(text, 0, text.len());
    assert(out@ == text@);
    if text.len() > 0 && !ends(text, &chars_of("\n")) {
        push_str(&mut out, "\n");
    }
    proof {
        lemma_trim_empty(out@);
    }
    if !blank(&out) && !ends(&out, &chars_of("\n\n")) {
        push_str(&mut out, "\n");
    }
    if !has_line(rows, &chars_of(HEADER)) {
        push_str(&mut out, HEADER);
        push_str(&mut out, "\n");
    }
    out
}

/// `text` with every feed it hasn't got added at the end, under a comment.
pub fn add(text: &str, feeds: &[Feed]) -> (r: Added)
    ensures
        r.text@ == add_text(text@, feeds@),
        r.added == missing(text@, feeds@).len(),
        r.already == feeds@.len() - missing(text@, feeds@).len(),
{
    let t = chars_of(text);
    let ls = lines_of(&t);
    let urls = urls_of(&ls);
    let ghost pred = is_missing(text@);
    // How many are missing.
    let mut count: usize = 0;
    let mut i: usize = 0;
    while i < feeds.len()
        invariant
            0 <= i <= feeds@.len(),
            t@ == text@,
            pred == is_missing(text@),
            views(ls@) == lines(text@),
            urls@.len() == ls@.len(),
            forall|k: int|
                0 <= k < ls@.len() ==> match #[trigger] urls@[k] {
                    Some(u) => url_of_spec(ls@[k]@) == Some(u@),
                    None => url_of_spec(ls@[k]@) is None,
                },
            count == feeds@.take(i as int).filter(pred).len(),
            count <= i,
        decreases feeds.len() - i,
    {
        proof {
            lemma_filter_take(feeds@, pred, i as int);
        }
        let url = chars_of(feeds[i].url.as_str());
        if !listed(Ghost(text@), &ls, &urls, &url) {
            count += 1;
        }
        i += 1;
    }
    assert(feeds@.take(feeds@.len() as int) == feeds@);
    if count == 0 {
        return Added { text: string_of(&t), added: 0, already: feeds.len() };
    }
    let mut out = prefix_for(&t, &ls);
    let ghost prefix = out@;
    let ghost f = |fd: Feed| feed_line(fd);
    let mut i: usize = 0;
    while i < feeds.len()
        invariant
            0 <= i <= feeds@.len(),
            pred == is_missing(text@),
            f == (|fd: Feed| feed_line(fd)),
            views(ls@) == lines(text@),
            urls@.len() == ls@.len(),
            forall|k: int|
                0 <= k < ls@.len() ==> match #[trigger] urls@[k] {
                    Some(u) => url_of_spec(ls@[k]@) == Some(u@),
                    None => url_of_spec(ls@[k]@) is None,
                },
            out@ == prefix + concat_map(feeds@.take(i as int).filter(pred), f),
        decreases feeds.len() - i,
    {
        proof {
            lemma_filter_take(feeds@, pred, i as int);
            lemma_concat_map_push(feeds@.take(i as int).filter(pred), f, feeds@[i as int]);
        }
        let url = chars_of(feeds[i].url.as_str());
        if !listed(Ghost(text@), &ls, &urls, &url) {
            let line = line_for(&feeds[i]);
            push_all(&mut out, &line);
            push_str(&mut out, "\n");
        }
        i += 1;
    }
    Added { text: string_of(&out), added: count, already: feeds.len() - count }
}

/// The feed a line of the list is for; none for blanks and comments.
pub fn url_of(line: &str) -> (r: Option<String>)
    ensures
        match r {
            Some(u) => url_of_spec(line@) == Some(u@),
            None => url_of_spec(line@) is None,
        },
{
    match url_of_chars(&chars_of(line)) {
        Some(u) => Some(string_of(&u)),
        None => None,
    }
}

/// A line's words, where a word in double quotes may hold spaces.
pub fn words(line: &str) -> (r: Vec<String>)
    ensures
        r@.len() == split_words(line@).len(),
        forall|i: int| 0 <= i < r@.len() ==> #[trigger] r@[i]@ == split_words(line@)[i],
{
    let w = words_of(&chars_of(line));
    let mut out: Vec<String> = Vec::new();
    let mut i: usize = 0;
    while i < w.len()
        invariant
            0 <= i <= w@.len(),
            views(w@) == split_words(line@),
            out@.len() == i,
            forall|k: int| 0 <= k < i ==> #[trigger] out@[k]@ == split_words(line@)[k],
        decreases w.len() - i,
    {
        assert(views(w@)[i as int] == w@[i as int]@);
        out.push(string_of(&w[i]));
        i += 1;
    }
    out
}

fn is_ours_in(feeds: &[Feed], url: &[char]) -> (r: bool)
    ensures
        r == is_ours(feeds@, url@),
{
    let mut j: usize = 0;
    while j < feeds.len()
        invariant
            0 <= j <= feeds@.len(),
            forall|k: int| 0 <= k < j ==> (#[trigger] feeds@[k]).url@ != url@,
        decreases feeds.len() - j,
    {
        if same(&chars_of(feeds[j].url.as_str()), url) {
            assert((feeds@[j as int]).url@ == url@);
            return true;
        }
        j += 1;
    }
    false
}

fn drops_line(feeds: &[Feed], line: &[char]) -> (r: bool)
    ensures
        r == drops(feeds@, line@),
{
    match url_of_chars(line) {
        Some(url) => {
            if !is_ours_in(feeds, &url) {
                return false;
            }
            let w = words_of(line);
            let tag = chars_of(TAG);
            let mut k: usize = 1;
            while k < w.len()
                invariant
                    1 <= k,
                    tag@ == TAG@,
                    views(w@) == split_words(line@),
                    url_of_spec(line@) == Some(url@),
                    is_ours(feeds@, url@),
                    forall|m: int| 1 <= m < k && m < w@.len() ==> views(w@)[m] != TAG@,
                decreases w.len() - k,
            {
                if same(&w[k], &tag) {
                    assert(views(w@).skip(1)[k - 1] == TAG@);
                    return true;
                }
                k += 1;
            }
            assert forall|m: int| 0 <= m < views(w@).skip(1).len() implies views(w@).skip(1)[m]
                != TAG@ by {
                assert(views(w@).skip(1)[m] == views(w@)[m + 1]);
            }
            false
        },
        None => false,
    }
}

fn join_lines(pieces: &Vec<Vec<char>>, end: usize) -> (r: Vec<char>)
    requires
        end <= pieces@.len(),
    ensures
        r@ == join(views(pieces@).take(end as int), "\n"@),
{
    let mut out: Vec<char> = Vec::new();
    let mut i: usize = 0;
    proof {
        reveal_strlit("\n");
    }
    while i < end
        invariant
            0 <= i <= end <= pieces@.len(),
            out@ == join(views(pieces@).take(i as int), "\n"@),
        decreases end - i,
    {
        let ghost before = views(pieces@).take(i as int);
        assert(views(pieces@).take(i + 1).drop_last() == before);
        assert(views(pieces@).take(i + 1).last() == pieces@[i as int]@);
        if i > 0 {
            proof {
                reveal_strlit("\n");
                assert(seq!['\n'] == "\n"@);
            }
            out.push('\n');
            assert(out@ == join(before, "\n"@) + "\n"@);
        } else {
            assert(views(pieces@).take(1) == seq![pieces@[0]@]);
        }
        push_all(&mut out, &pieces[i]);
        i += 1;
    }
    out
}

/// `text` without the lines Glimmerwood added, and how many feeds went.
pub fn remove(text: &str, feeds: &[Feed]) -> (r: (String, usize))
    ensures
        (r.0@, r.1 as nat) == remove_spec(text@, feeds@),
{
    let t = chars_of(text);
    let ls = lines_of(&t);
    let header = chars_of(HEADER);
    let ghost dropped = is_dropped(feeds@);
    let ghost keep = is_kept(feeds@);
    let ghost all = views(ls@);
    let mut kept: Vec<Vec<char>> = Vec::new();
    let mut removed: usize = 0;
    let mut i: usize = 0;
    while i < ls.len()
        invariant
            0 <= i <= ls@.len(),
            all == views(ls@),
            all == lines(text@),
            header@ == HEADER@,
            dropped == is_dropped(feeds@),
            keep == is_kept(feeds@),
            removed == all.take(i as int).filter(dropped).len(),
            removed <= i,
            views(kept@) == all.take(i as int).filter(keep),
        decreases ls.len() - i,
    {
        proof {
            lemma_filter_take(all, dropped, i as int);
            lemma_filter_take(all, keep, i as int);
        }
        assert(all[i as int] == ls@[i as int]@);
        let drop = drops_line(feeds, &ls[i]);
        if drop {
            removed += 1;
        }
        if !drop && !same(&ls[i], &header) {
            let line = crate::text::slice_of(&ls[i], 0, ls[i].len());
            assert(line@ == ls@[i as int]@);
            let ghost before = kept@;
            kept.push(line);
            assert(views(kept@) == views(before).push(line@));
        }
        i += 1;
    }
    assert(all.take(all.len() as int) == all);
    if removed == 0 {
        return (string_of(&t), 0);
    }
    let ghost ks = views(kept@);
    let mut end = kept.len();
    while end > 0 && blank(&kept[end - 1])
        invariant
            end <= kept@.len(),
            ks == views(kept@),
            forall|j: int| end <= j < ks.len() ==> !#[trigger] is_dark_line(ks)(j),
        decreases end,
    {
        assert(ks[end - 1] == kept@[end - 1]@);
        end -= 1;
    }
    proof {
        if end > 0 {
            assert(ks[end - 1] == kept@[end - 1]@);
            lemma_last_before_is(is_dark_line(ks), ks.len() as int, end - 1);
        } else {
            lemma_last_before_is(is_dark_line(ks), ks.len() as int, -1);
        }
    }
    let mut out = join_lines(&kept, end);
    if out.len() > 0 {
        push_str(&mut out, "\n");
    }
    (string_of(&out), removed)
}

/// Which of `feeds` the list has, in order, whoever added them.
pub fn present(text: &str, feeds: &[Feed]) -> (r: Vec<bool>)
    ensures
        r@ == present_spec(text@, feeds@),
{
    let t = chars_of(text);
    let ls = lines_of(&t);
    let urls = urls_of(&ls);
    let mut out: Vec<bool> = Vec::new();
    let mut i: usize = 0;
    while i < feeds.len()
        invariant
            0 <= i <= feeds@.len(),
            views(ls@) == lines(text@),
            urls@.len() == ls@.len(),
            forall|k: int|
                0 <= k < ls@.len() ==> match #[trigger] urls@[k] {
                    Some(u) => url_of_spec(ls@[k]@) == Some(u@),
                    None => url_of_spec(ls@[k]@) is None,
                },
            out@ == present_spec(text@, feeds@).take(i as int),
        decreases feeds.len() - i,
    {
        let url = chars_of(feeds[i].url.as_str());
        let here = listed(Ghost(text@), &ls, &urls, &url);
        out.push(here);
        assert(present_spec(text@, feeds@).take(i + 1) == present_spec(text@, feeds@).take(
            i as int,
        ).push(here));
        i += 1;
    }
    assert(present_spec(text@, feeds@).take(feeds@.len() as int) == present_spec(text@, feeds@));
    out
}

} // verus!
