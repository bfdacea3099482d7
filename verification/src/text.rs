//! Text as sequences of characters: what the rest of the library says about
//! strings, and the few loops that compute it.
//!
//! Specifications speak of `Seq<char>`; executable code turns a `&str` into a
//! `Vec<char>` once, works on that, and turns the result back into a `String`.

use vstd::prelude::*;

verus! {

// --- Characters ---------------------------------------------------------------

pub open spec fn is_ascii_upper(c: char) -> bool {
    'A' <= c <= 'Z'
}

pub open spec fn is_ascii_lower(c: char) -> bool {
    'a' <= c <= 'z'
}

pub open spec fn is_ascii_alpha(c: char) -> bool {
    is_ascii_upper(c) || is_ascii_lower(c)
}

pub open spec fn is_ascii_digit(c: char) -> bool {
    '0' <= c <= '9'
}

pub open spec fn is_ascii_alnum(c: char) -> bool {
    is_ascii_alpha(c) || is_ascii_digit(c)
}

/// Unicode's White_Space property, which is what `char::is_whitespace` and
/// `str::trim` go by.
pub open spec fn is_white(c: char) -> bool {
    let n = c as u32;
    ||| n == 0x20
    ||| 0x09 <= n <= 0x0d
    ||| n == 0x85
    ||| n == 0xa0
    ||| n == 0x1680
    ||| 0x2000 <= n <= 0x200a
    ||| n == 0x2028
    ||| n == 0x2029
    ||| n == 0x202f
    ||| n == 0x205f
    ||| n == 0x3000
}

pub open spec fn lower_char(c: char) -> char {
    if is_ascii_upper(c) {
        ((c as u32) + 32) as char
    } else {
        c
    }
}

pub open spec fn upper_char(c: char) -> char {
    if is_ascii_lower(c) {
        ((c as u32) - 32) as char
    } else {
        c
    }
}

/// ASCII letters in lower case, everything else as it is.
pub open spec fn lower(s: Seq<char>) -> Seq<char> {
    Seq::new(s.len(), |i: int| lower_char(s[i]))
}

pub open spec fn upper(s: Seq<char>) -> Seq<char> {
    Seq::new(s.len(), |i: int| upper_char(s[i]))
}

pub fn white(c: char) -> (b: bool)
    ensures
        b == is_white(c),
{
    let n = c as u32;
    n == 0x20 || (0x09 <= n && n <= 0x0d) || n == 0x85 || n == 0xa0 || n == 0x1680 || (0x2000
        <= n && n <= 0x200a) || n == 0x2028 || n == 0x2029 || n == 0x202f || n == 0x205f || n
        == 0x3000
}

pub fn ascii_alpha(c: char) -> (b: bool)
    ensures
        b == is_ascii_alpha(c),
{
    ('A' <= c && c <= 'Z') || ('a' <= c && c <= 'z')
}

pub fn ascii_digit(c: char) -> (b: bool)
    ensures
        b == is_ascii_digit(c),
{
    '0' <= c && c <= '9'
}

pub fn ascii_alnum(c: char) -> (b: bool)
    ensures
        b == is_ascii_alnum(c),
{
    ascii_alpha(c) || ascii_digit(c)
}

pub fn to_lower(c: char) -> (d: char)
    ensures
        d == lower_char(c),
{
    if 'A' <= c && c <= 'Z' {
        ((c as u8) + 32) as char
    } else {
        c
    }
}

pub fn to_upper(c: char) -> (d: char)
    ensures
        d == upper_char(c),
{
    if 'a' <= c && c <= 'z' {
        ((c as u8) - 32) as char
    } else {
        c
    }
}

// --- Searching ----------------------------------------------------------------

/// The first `i` in `k..n` where `p` holds, or -1.
pub open spec fn first_from(n: int, p: spec_fn(int) -> bool, k: int) -> int
    decreases n - k,
{
    if k >= n {
        -1
    } else if p(k) {
        k
    } else {
        first_from(n, p, k + 1)
    }
}

/// The last `i` in `0..k` where `p` holds, or -1.
pub open spec fn last_before(p: spec_fn(int) -> bool, k: int) -> int
    decreases k,
{
    if k <= 0 {
        -1
    } else if p(k - 1) {
        k - 1
    } else {
        last_before(p, k - 1)
    }
}

pub proof fn lemma_first_from(n: int, p: spec_fn(int) -> bool, k: int)
    requires
        0 <= k,
    ensures
        first_from(n, p, k) == -1 ==> forall|i: int| k <= i < n ==> !#[trigger] p(i),
        first_from(n, p, k) != -1 ==> k <= first_from(n, p, k) < n && p(first_from(n, p, k))
            && forall|i: int| k <= i < first_from(n, p, k) ==> !#[trigger] p(i),
    decreases n - k,
{
    if k < n && !p(k) {
        lemma_first_from(n, p, k + 1);
    }
}

pub proof fn lemma_last_before(p: spec_fn(int) -> bool, k: int)
    ensures
        last_before(p, k) == -1 ==> forall|i: int| 0 <= i < k ==> !#[trigger] p(i),
        last_before(p, k) != -1 ==> 0 <= last_before(p, k) < k && p(last_before(p, k))
            && forall|i: int| last_before(p, k) < i < k ==> !#[trigger] p(i),
    decreases k,
{
    if k > 0 && !p(k - 1) {
        lemma_last_before(p, k - 1);
    }
}

/// `first_from` is fixed by what it says: a caller that found the first match
/// by looking can name it so.
pub proof fn lemma_first_from_is(n: int, p: spec_fn(int) -> bool, k: int, r: int)
    requires
        0 <= k,
        (r == -1 && forall|i: int| k <= i < n ==> !#[trigger] p(i)) || (k <= r < n && p(r)
            && forall|i: int| k <= i < r ==> !#[trigger] p(i)),
    ensures
        first_from(n, p, k) == r,
{
    lemma_first_from(n, p, k);
}

pub proof fn lemma_last_before_is(p: spec_fn(int) -> bool, k: int, r: int)
    requires
        (r == -1 && forall|i: int| 0 <= i < k ==> !#[trigger] p(i)) || (0 <= r < k && p(r)
            && forall|i: int| r < i < k ==> !#[trigger] p(i)),
    ensures
        last_before(p, k) == r,
{
    lemma_last_before(p, k);
}

pub open spec fn is_char_at(s: Seq<char>, c: char) -> spec_fn(int) -> bool {
    |i: int| s[i] == c
}

pub open spec fn is_one_of_at(s: Seq<char>, cs: Seq<char>) -> spec_fn(int) -> bool {
    |i: int| cs.contains(s[i])
}

pub open spec fn is_white_at(s: Seq<char>) -> spec_fn(int) -> bool {
    |i: int| is_white(s[i])
}

pub open spec fn is_dark_at(s: Seq<char>) -> spec_fn(int) -> bool {
    |i: int| !is_white(s[i])
}

pub open spec fn matches_at(s: Seq<char>, pat: Seq<char>, i: int) -> bool {
    0 <= i && i + pat.len() <= s.len() && s.subrange(i, i + pat.len()) == pat
}

pub open spec fn is_match_at(s: Seq<char>, pat: Seq<char>) -> spec_fn(int) -> bool {
    |i: int| matches_at(s, pat, i)
}

/// Where `c` first occurs, or -1.
pub open spec fn find_char(s: Seq<char>, c: char) -> int {
    first_from(s.len() as int, is_char_at(s, c), 0)
}

/// Where `c` last occurs, or -1.
pub open spec fn rfind_char(s: Seq<char>, c: char) -> int {
    last_before(is_char_at(s, c), s.len() as int)
}

/// Where any of `cs` first occurs, or -1.
pub open spec fn find_any(s: Seq<char>, cs: Seq<char>) -> int {
    first_from(s.len() as int, is_one_of_at(s, cs), 0)
}

/// Where `pat` first starts, or -1.
pub open spec fn find(s: Seq<char>, pat: Seq<char>) -> int {
    first_from(s.len() as int, is_match_at(s, pat), 0)
}

/// Where `pat` last starts, or -1.
pub open spec fn rfind(s: Seq<char>, pat: Seq<char>) -> int {
    last_before(is_match_at(s, pat), s.len() as int)
}

pub open spec fn starts_with(s: Seq<char>, p: Seq<char>) -> bool {
    p.len() <= s.len() && s.take(p.len() as int) == p
}

pub open spec fn ends_with(s: Seq<char>, p: Seq<char>) -> bool {
    p.len() <= s.len() && s.skip(s.len() - p.len()) == p
}

pub open spec fn strip_prefix(s: Seq<char>, p: Seq<char>) -> Option<Seq<char>> {
    if starts_with(s, p) {
        Some(s.skip(p.len() as int))
    } else {
        None
    }
}

pub open spec fn contains(s: Seq<char>, pat: Seq<char>) -> bool {
    find(s, pat) != -1
}

/// Before and after the first `pat`.
pub open spec fn split_once(s: Seq<char>, pat: Seq<char>) -> Option<(Seq<char>, Seq<char>)> {
    let i = find(s, pat);
    if i == -1 {
        None
    } else {
        Some((s.take(i), s.skip(i + pat.len())))
    }
}

/// Before and after the last `pat`.
pub open spec fn rsplit_once(s: Seq<char>, pat: Seq<char>) -> Option<(Seq<char>, Seq<char>)> {
    let i = rfind(s, pat);
    if i == -1 {
        None
    } else {
        Some((s.take(i), s.skip(i + pat.len())))
    }
}

/// Everything before the first of `cs`: the first piece of `split(cs)`.
pub open spec fn before_any(s: Seq<char>, cs: Seq<char>) -> Seq<char> {
    let i = find_any(s, cs);
    if i == -1 {
        s
    } else {
        s.take(i)
    }
}

pub open spec fn trim_start(s: Seq<char>) -> Seq<char> {
    let i = first_from(s.len() as int, is_dark_at(s), 0);
    if i == -1 {
        Seq::empty()
    } else {
        s.skip(i)
    }
}

pub open spec fn trim_end(s: Seq<char>) -> Seq<char> {
    let j = last_before(is_dark_at(s), s.len() as int);
    if j == -1 {
        Seq::empty()
    } else {
        s.take(j + 1)
    }
}

pub open spec fn trim(s: Seq<char>) -> Seq<char> {
    trim_end(trim_start(s))
}

/// Nothing but white space, or nothing at all.
pub open spec fn is_blank(s: Seq<char>) -> bool {
    forall|i: int| 0 <= i < s.len() ==> is_white(#[trigger] s[i])
}

// --- Executable counterparts ----------------------------------------------------

/// `String::push`, which vstd leaves without a specification. Stated here:
/// the string afterwards is the one before with `c` added at the end.
#[verifier::external_body]
pub(crate) fn push_char(s: &mut String, c: char)
    ensures
        final(s)@ == old(s)@.push(c),
{
    s.push(c)
}

/// How Rust's `Debug` writes a string: in double quotes, with quotes,
/// backslashes and characters that don't print escaped.
pub uninterp spec fn debug_text(text: Seq<char>) -> Seq<char>;

/// Printable ASCII that `Debug` leaves as it is: anything from the space to
/// the tilde but the double quote and the backslash.
pub open spec fn plain_ascii(s: Seq<char>) -> bool {
    forall|i: int|
        0 <= i < s.len() ==> ' ' <= #[trigger] s[i] <= '~' && s[i] != '"' && s[i] != '\\'
}

/// `format!("{text:?}")`. Stated here: the result is `debug_text` of the
/// text, and text of plain printable ASCII comes back between two double
/// quotes, unchanged, as `str`'s `Debug` documents. How other characters
/// are escaped is left unsaid.
#[verifier::external_body]
pub(crate) fn debug_str(text: &str) -> (r: String)
    ensures
        r@ == debug_text(text@),
        plain_ascii(text@) ==> r@ == seq!['"'] + text@ + seq!['"'],
{
    format!("{text:?}")
}

/// The characters of `s`.
pub fn chars_of(s: &str) -> (r: Vec<char>)
    ensures
        r@ == s@,
{
    let mut v: Vec<char> = Vec::new();
    for c in it: s.chars()
        invariant
            v@ == it.seq().take(it.index() as int),
    {
        v.push(c);
    }
    v
}

/// A string of the characters `v[from..to]`.
pub fn string_of_range(v: &[char], from: usize, to: usize) -> (s: String)
    requires
        from <= to <= v@.len(),
    ensures
        s@ == v@.subrange(from as int, to as int),
{
    let mut s = String::new();
    let mut i: usize = from;
    while i < to
        invariant
            from <= i <= to <= v@.len(),
            s@ == v@.subrange(from as int, i as int),
        decreases to - i,
    {
        push_char(&mut s, v[i]);
        assert(v@.subrange(from as int, i + 1) == v@.subrange(from as int, i as int).push(
            v@[i as int],
        ));
        i += 1;
    }
    s
}

pub fn string_of(v: &[char]) -> (s: String)
    ensures
        s@ == v@,
{
    let s = string_of_range(v, 0, v.len());
    assert(v@.subrange(0, v@.len() as int) == v@);
    s
}

/// `v` with `w` added at the end.
pub fn push_all(v: &mut Vec<char>, w: &[char])
    ensures
        final(v)@ == old(v)@ + w@,
{
    let ghost start = v@;
    let mut i: usize = 0;
    while i < w.len()
        invariant
            0 <= i <= w@.len(),
            v@ == start + w@.take(i as int),
        decreases w.len() - i,
    {
        v.push(w[i]);
        assert(w@.take(i + 1) == w@.take(i as int).push(w@[i as int]));
        i += 1;
    }
    assert(w@.take(w@.len() as int) == w@);
}

/// `v` with the characters of `s` added at the end.
pub fn push_str(v: &mut Vec<char>, s: &str)
    ensures
        final(v)@ == old(v)@ + s@,
{
    let w = chars_of(s);
    push_all(v, &w);
}

/// `v[from..to]` as its own vector.
pub fn slice_of(v: &[char], from: usize, to: usize) -> (r: Vec<char>)
    requires
        from <= to <= v@.len(),
    ensures
        r@ == v@.subrange(from as int, to as int),
{
    let mut r: Vec<char> = Vec::new();
    let mut i: usize = from;
    while i < to
        invariant
            from <= i <= to <= v@.len(),
            r@ == v@.subrange(from as int, i as int),
        decreases to - i,
    {
        r.push(v[i]);
        assert(v@.subrange(from as int, i + 1) == v@.subrange(from as int, i as int).push(
            v@[i as int],
        ));
        i += 1;
    }
    r
}

pub fn same(a: &[char], b: &[char]) -> (r: bool)
    ensures
        r == (a@ == b@),
{
    if a.len() != b.len() {
        return false;
    }
    let mut i: usize = 0;
    while i < a.len()
        invariant
            a@.len() == b@.len(),
            0 <= i <= a@.len(),
            forall|j: int| 0 <= j < i ==> a@[j] == b@[j],
        decreases a.len() - i,
    {
        if a[i] != b[i] {
            return false;
        }
        i += 1;
    }
    assert(a@ == b@);
    true
}

pub fn lowered(v: &[char]) -> (r: Vec<char>)
    ensures
        r@ == lower(v@),
{
    let mut r: Vec<char> = Vec::new();
    let mut i: usize = 0;
    while i < v.len()
        invariant
            0 <= i <= v@.len(),
            r@ == lower(v@).take(i as int),
        decreases v.len() - i,
    {
        r.push(to_lower(v[i]));
        assert(lower(v@).take(i + 1) == lower(v@).take(i as int).push(lower_char(v@[i as int])));
        i += 1;
    }
    assert(lower(v@).take(v@.len() as int) == lower(v@));
    r
}

pub fn uppered(v: &[char]) -> (r: Vec<char>)
    ensures
        r@ == upper(v@),
{
    let mut r: Vec<char> = Vec::new();
    let mut i: usize = 0;
    while i < v.len()
        invariant
            0 <= i <= v@.len(),
            r@ == upper(v@).take(i as int),
        decreases v.len() - i,
    {
        r.push(to_upper(v[i]));
        assert(upper(v@).take(i + 1) == upper(v@).take(i as int).push(upper_char(v@[i as int])));
        i += 1;
    }
    assert(upper(v@).take(v@.len() as int) == upper(v@));
    r
}

/// Whether `v[at..]` begins with `pat`.
pub fn matches_here(v: &[char], pat: &[char], at: usize) -> (r: bool)
    ensures
        r == matches_at(v@, pat@, at as int),
{
    let n = v.len();
    if at > n || pat.len() > n - at {
        return false;
    }
    let mut i: usize = 0;
    while i < pat.len()
        invariant
            at + pat@.len() <= n,
            n == v@.len(),
            0 <= i <= pat@.len(),
            forall|j: int| 0 <= j < i ==> v@[at + j] == pat@[j],
        decreases pat.len() - i,
    {
        if v[at + i] != pat[i] {
            assert(v@.subrange(at as int, at + pat@.len())[i as int] != pat@[i as int]);
            return false;
        }
        i += 1;
    }
    assert(v@.subrange(at as int, at + pat@.len()) == pat@);
    true
}

pub fn starts(v: &[char], pat: &[char]) -> (r: bool)
    ensures
        r == starts_with(v@, pat@),
{
    let r = matches_here(v, pat, 0);
    assert(r ==> v@.subrange(0, pat@.len() as int) == v@.take(pat@.len() as int));
    assert(starts_with(v@, pat@) ==> v@.subrange(0, pat@.len() as int) == v@.take(
        pat@.len() as int,
    ));
    r
}

pub fn ends(v: &[char], pat: &[char]) -> (r: bool)
    ensures
        r == ends_with(v@, pat@),
{
    if pat.len() > v.len() {
        return false;
    }
    let at = v.len() - pat.len();
    let r = matches_here(v, pat, at);
    assert(v@.subrange(at as int, at + pat@.len()) == v@.skip(at as int));
    r
}

/// The first `c` at or after `from`.
pub fn find_char_from(v: &[char], c: char, from: usize) -> (r: Option<usize>)
    ensures
        match r {
            Some(i) => first_from(v@.len() as int, is_char_at(v@, c), from as int) == i,
            None => first_from(v@.len() as int, is_char_at(v@, c), from as int) == -1,
        },
{
    let ghost p = is_char_at(v@, c);
    let mut i: usize = from;
    while i < v.len()
        invariant
            p == is_char_at(v@, c),
            from <= i,
            forall|j: int| from <= j < i ==> !#[trigger] p(j),
        decreases v.len() - i,
    {
        if v[i] == c {
            proof {
                lemma_first_from_is(v@.len() as int, p, from as int, i as int);
            }
            return Some(i);
        }
        i += 1;
    }
    proof {
        lemma_first_from_is(v@.len() as int, p, from as int, -1);
    }
    None
}

pub fn find_char_in(v: &[char], c: char) -> (r: Option<usize>)
    ensures
        match r {
            Some(i) => find_char(v@, c) == i,
            None => find_char(v@, c) == -1,
        },
{
    find_char_from(v, c, 0)
}

pub fn rfind_char_in(v: &[char], c: char) -> (r: Option<usize>)
    ensures
        match r {
            Some(i) => rfind_char(v@, c) == i,
            None => rfind_char(v@, c) == -1,
        },
{
    let ghost p = is_char_at(v@, c);
    let mut k = v.len();
    while k > 0
        invariant
            p == is_char_at(v@, c),
            k <= v@.len(),
            forall|j: int| k <= j < v@.len() ==> !#[trigger] p(j),
        decreases k,
    {
        if v[k - 1] == c {
            proof {
                lemma_last_before_is(p, v@.len() as int, k - 1);
            }
            return Some(k - 1);
        }
        k -= 1;
    }
    proof {
        lemma_last_before_is(p, v@.len() as int, -1);
    }
    None
}

/// The first of `cs` at or after `from`.
pub fn find_any_from(v: &[char], cs: &[char], from: usize) -> (r: Option<usize>)
    ensures
        match r {
            Some(i) => first_from(v@.len() as int, is_one_of_at(v@, cs@), from as int) == i,
            None => first_from(v@.len() as int, is_one_of_at(v@, cs@), from as int) == -1,
        },
{
    let ghost p = is_one_of_at(v@, cs@);
    let mut i: usize = from;
    while i < v.len()
        invariant
            p == is_one_of_at(v@, cs@),
            from <= i,
            forall|j: int| from <= j < i ==> !#[trigger] p(j),
        decreases v.len() - i,
    {
        if has(cs, v[i]) {
            proof {
                lemma_first_from_is(v@.len() as int, p, from as int, i as int);
            }
            return Some(i);
        }
        i += 1;
    }
    proof {
        lemma_first_from_is(v@.len() as int, p, from as int, -1);
    }
    None
}

pub fn has(cs: &[char], c: char) -> (r: bool)
    ensures
        r == cs@.contains(c),
{
    let mut i: usize = 0;
    while i < cs.len()
        invariant
            0 <= i <= cs@.len(),
            forall|j: int| 0 <= j < i ==> cs@[j] != c,
        decreases cs.len() - i,
    {
        if cs[i] == c {
            return true;
        }
        i += 1;
    }
    false
}

/// The first place `pat` starts at or after `from`.
pub fn find_from(v: &[char], pat: &[char], from: usize) -> (r: Option<usize>)
    ensures
        match r {
            Some(i) => first_from(v@.len() as int, is_match_at(v@, pat@), from as int) == i,
            None => first_from(v@.len() as int, is_match_at(v@, pat@), from as int) == -1,
        },
{
    let ghost p = is_match_at(v@, pat@);
    let mut i: usize = from;
    while i < v.len()
        invariant
            p == is_match_at(v@, pat@),
            from <= i,
            forall|j: int| from <= j < i ==> !#[trigger] p(j),
        decreases v.len() - i,
    {
        if matches_here(v, pat, i) {
            proof {
                lemma_first_from_is(v@.len() as int, p, from as int, i as int);
            }
            return Some(i);
        }
        i += 1;
    }
    proof {
        lemma_first_from_is(v@.len() as int, p, from as int, -1);
    }
    None
}

pub fn find_in(v: &[char], pat: &[char]) -> (r: Option<usize>)
    ensures
        match r {
            Some(i) => find(v@, pat@) == i,
            None => find(v@, pat@) == -1,
        },
{
    find_from(v, pat, 0)
}

pub fn rfind_in(v: &[char], pat: &[char]) -> (r: Option<usize>)
    ensures
        match r {
            Some(i) => rfind(v@, pat@) == i,
            None => rfind(v@, pat@) == -1,
        },
{
    let ghost p = is_match_at(v@, pat@);
    let mut k = v.len();
    while k > 0
        invariant
            p == is_match_at(v@, pat@),
            k <= v@.len(),
            forall|j: int| k <= j < v@.len() ==> !#[trigger] p(j),
        decreases k,
    {
        if matches_here(v, pat, k - 1) {
            proof {
                lemma_last_before_is(p, v@.len() as int, k - 1);
            }
            return Some(k - 1);
        }
        k -= 1;
    }
    proof {
        lemma_last_before_is(p, v@.len() as int, -1);
    }
    None
}

/// `split_once` on characters.
pub fn split_once_in(v: &[char], pat: &[char]) -> (r: Option<(Vec<char>, Vec<char>)>)
    ensures
        match r {
            Some((a, b)) => split_once(v@, pat@) == Some((a@, b@)),
            None => split_once(v@, pat@) is None,
        },
{
    match find_in(v, pat) {
        Some(i) => {
            proof {
                lemma_first_from(v@.len() as int, is_match_at(v@, pat@), 0);
            }
            let a = slice_of(v, 0, i);
            let n = v.len();
            let b = slice_of(v, i + pat.len(), n);
            assert(a@ == v@.take(i as int));
            assert(b@ == v@.skip(i + pat@.len()));
            Some((a, b))
        },
        None => None,
    }
}

/// `rsplit_once` on characters.
pub fn rsplit_once_in(v: &[char], pat: &[char]) -> (r: Option<(Vec<char>, Vec<char>)>)
    ensures
        match r {
            Some((a, b)) => rsplit_once(v@, pat@) == Some((a@, b@)),
            None => rsplit_once(v@, pat@) is None,
        },
{
    match rfind_in(v, pat) {
        Some(i) => {
            proof {
                lemma_last_before(is_match_at(v@, pat@), v@.len() as int);
            }
            let a = slice_of(v, 0, i);
            let n = v.len();
            let b = slice_of(v, i + pat.len(), n);
            assert(a@ == v@.take(i as int));
            assert(b@ == v@.skip(i + pat@.len()));
            Some((a, b))
        },
        None => None,
    }
}

pub fn before_any_in(v: &[char], cs: &[char]) -> (r: Vec<char>)
    ensures
        r@ == before_any(v@, cs@),
{
    match find_any_from(v, cs, 0) {
        Some(i) => {
            proof {
                lemma_first_from(v@.len() as int, is_one_of_at(v@, cs@), 0);
            }
            let r = slice_of(v, 0, i);
            assert(r@ == v@.take(i as int));
            r
        },
        None => {
            let r = slice_of(v, 0, v.len());
            assert(r@ == v@);
            r
        },
    }
}

pub fn trimmed_start(v: &[char]) -> (r: Vec<char>)
    ensures
        r@ == trim_start(v@),
{
    let ghost p = is_dark_at(v@);
    let mut i: usize = 0;
    while i < v.len()
        invariant
            p == is_dark_at(v@),
            forall|j: int| 0 <= j < i ==> !#[trigger] p(j),
        decreases v.len() - i,
    {
        if !white(v[i]) {
            proof {
                lemma_first_from_is(v@.len() as int, p, 0, i as int);
            }
            let r = slice_of(v, i, v.len());
            assert(r@ == v@.skip(i as int));
            return r;
        }
        i += 1;
    }
    proof {
        lemma_first_from_is(v@.len() as int, p, 0, -1);
    }
    Vec::new()
}

pub fn trimmed_end(v: &[char]) -> (r: Vec<char>)
    ensures
        r@ == trim_end(v@),
{
    let ghost p = is_dark_at(v@);
    let mut k = v.len();
    while k > 0
        invariant
            p == is_dark_at(v@),
            k <= v@.len(),
            forall|j: int| k <= j < v@.len() ==> !#[trigger] p(j),
        decreases k,
    {
        if !white(v[k - 1]) {
            proof {
                lemma_last_before_is(p, v@.len() as int, k - 1);
            }
            let r = slice_of(v, 0, k);
            assert(r@ == v@.take(k as int));
            return r;
        }
        k -= 1;
    }
    proof {
        lemma_last_before_is(p, v@.len() as int, -1);
    }
    Vec::new()
}

pub fn trimmed(v: &[char]) -> (r: Vec<char>)
    ensures
        r@ == trim(v@),
{
    let s = trimmed_start(v);
    trimmed_end(&s)
}

pub fn blank(v: &[char]) -> (r: bool)
    ensures
        r == is_blank(v@),
{
    let mut i: usize = 0;
    while i < v.len()
        invariant
            0 <= i <= v@.len(),
            forall|j: int| 0 <= j < i ==> is_white(v@[j]),
        decreases v.len() - i,
    {
        if !white(v[i]) {
            return false;
        }
        i += 1;
    }
    true
}

/// Trimming leaves nothing exactly when there was nothing but white space.
pub proof fn lemma_trim_empty(s: Seq<char>)
    ensures
        (trim(s).len() == 0) == is_blank(s),
        (trim_start(s).len() == 0) == is_blank(s),
{
    let p = is_dark_at(s);
    lemma_first_from(s.len() as int, p, 0);
    let i = first_from(s.len() as int, p, 0);
    if i != -1 {
        let t = s.skip(i);
        let q = is_dark_at(t);
        assert(q(0));
        lemma_last_before(q, t.len() as int);
        assert(!is_white(s[i]));
    } else {
        assert forall|j: int| 0 <= j < s.len() implies is_white(s[j]) by {
            assert(!p(j));
        }
    }
}


// --- Pieces -------------------------------------------------------------------

pub open spec fn views(v: Seq<Vec<char>>) -> Seq<Seq<char>> {
    v.map_values(|w: Vec<char>| w@)
}

/// Searching a suffix is searching the whole from where the suffix starts.
pub proof fn lemma_find_char_skip(s: Seq<char>, c: char, k: int)
    requires
        0 <= k <= s.len(),
    ensures
        find_char(s.skip(k), c) == (if first_from(s.len() as int, is_char_at(s, c), k) == -1 {
            -1
        } else {
            first_from(s.len() as int, is_char_at(s, c), k) - k
        }),
{
    let t = s.skip(k);
    let p = is_char_at(s, c);
    let q = is_char_at(t, c);
    lemma_first_from(s.len() as int, p, k);
    let r = first_from(s.len() as int, p, k);
    if r == -1 {
        assert forall|i: int| 0 <= i < t.len() implies !#[trigger] q(i) by {
            assert(!p(i + k));
        }
        lemma_first_from_is(t.len() as int, q, 0, -1);
    } else {
        assert(q(r - k));
        assert forall|i: int| 0 <= i < r - k implies !#[trigger] q(i) by {
            assert(!p(i + k));
        }
        lemma_first_from_is(t.len() as int, q, 0, r - k);
    }
}

/// The pieces of `s` between each `c`: `str::split` with one character.
pub open spec fn split(s: Seq<char>, c: char) -> Seq<Seq<char>>
    decreases s.len(),
{
    let i = find_char(s, c);
    if i == -1 {
        seq![s]
    } else {
        if 0 <= i < s.len() {
            seq![s.take(i)] + split(s.skip(i + 1), c)
        } else {
            seq![s]
        }
    }
}

/// A line without the carriage return before its line feed.
pub open spec fn strip_cr(l: Seq<char>) -> Seq<char> {
    if l.len() > 0 && l.last() == '\r' {
        l.drop_last()
    } else {
        l
    }
}

/// `str::lines`: pieces between line feeds, each without a final carriage
/// return, and no empty piece after a final line feed.
pub open spec fn lines(s: Seq<char>) -> Seq<Seq<char>>
    decreases s.len(),
{
    if s.len() == 0 {
        seq![]
    } else {
        let i = find_char(s, '\n');
        if 0 <= i < s.len() {
            seq![strip_cr(s.take(i))] + lines(s.skip(i + 1))
        } else {
            seq![strip_cr(s)]
        }
    }
}

pub proof fn lemma_split_step(s: Seq<char>, c: char, k: int)
    requires
        0 <= k <= s.len(),
    ensures
        ({
            let r = first_from(s.len() as int, is_char_at(s, c), k);
            if r == -1 {
                split(s.skip(k), c) == seq![s.skip(k)]
            } else {
                k <= r < s.len() && s[r] == c && split(s.skip(k), c) == seq![s.subrange(k, r)]
                    + split(s.skip(r + 1), c)
            }
        }),
{
    lemma_find_char_skip(s, c, k);
    lemma_first_from(s.len() as int, is_char_at(s, c), k);
    let r = first_from(s.len() as int, is_char_at(s, c), k);
    let t = s.skip(k);
    if r != -1 {
        assert(t.take(r - k) == s.subrange(k, r));
        assert(t.skip(r - k + 1) == s.skip(r + 1));
    }
}

pub proof fn lemma_lines_step(s: Seq<char>, k: int)
    requires
        0 <= k < s.len(),
    ensures
        ({
            let r = first_from(s.len() as int, is_char_at(s, '\n'), k);
            if r == -1 {
                lines(s.skip(k)) == seq![strip_cr(s.skip(k))]
            } else {
                k <= r < s.len() && s[r] == '\n' && lines(s.skip(k)) == seq![
                    strip_cr(s.subrange(k, r)),
                ] + lines(s.skip(r + 1))
            }
        }),
{
    lemma_find_char_skip(s, '\n', k);
    lemma_first_from(s.len() as int, is_char_at(s, '\n'), k);
    let r = first_from(s.len() as int, is_char_at(s, '\n'), k);
    let t = s.skip(k);
    if r != -1 {
        assert(t.take(r - k) == s.subrange(k, r));
        assert(t.skip(r - k + 1) == s.skip(r + 1));
    }
}

pub fn strip_cr_of(v: Vec<char>) -> (r: Vec<char>)
    ensures
        r@ == strip_cr(v@),
{
    let mut v = v;
    if v.len() > 0 && v[v.len() - 1] == '\r' {
        v.pop();
    }
    v
}

/// `split` on characters.
pub fn split_char(v: &[char], c: char) -> (r: Vec<Vec<char>>)
    ensures
        views(r@) == split(v@, c),
{
    let mut out: Vec<Vec<char>> = Vec::new();
    let mut start: usize = 0;
    assert(v@.skip(0) == v@);
    loop
        invariant
            start <= v@.len(),
            views(out@) + split(v@.skip(start as int), c) == split(v@, c),
        decreases v@.len() - start,
    {
        let n = v.len();
        proof {
            lemma_split_step(v@, c, start as int);
        }
        match find_char_from(v, c, start) {
            Some(i) => {
                let piece = slice_of(v, start, i);
                let ghost before = out@;
                out.push(piece);
                assert(views(out@) == views(before).push(piece@));
                assert(views(out@) + split(v@.skip(i + 1), c) == views(before) + (seq![piece@]
                    + split(v@.skip(i + 1), c)));
                start = i + 1;
            },
            None => {
                let piece = slice_of(v, start, n);
                let ghost before = out@;
                out.push(piece);
                assert(piece@ == v@.skip(start as int));
                assert(views(out@) == views(before).push(piece@));
                assert(views(out@) == views(before) + seq![piece@]);
                return out;
            },
        }
    }
}

/// After a line feed the lines start afresh: the lines of `x + y` are those
/// of `x` and then those of `y`, when `x` ends with a line feed.
pub proof fn lemma_lines_append(x: Seq<char>, y: Seq<char>)
    requires
        x.len() > 0,
        x.last() == '\n',
    ensures
        lines(x + y) == lines(x) + lines(y),
    decreases x.len(),
{
    let s = x + y;
    lemma_first_from(x.len() as int, is_char_at(x, '\n'), 0);
    assert(is_char_at(x, '\n')(x.len() - 1));
    let i = find_char(x, '\n');
    assert(0 <= i < x.len());
    assert forall|j: int| 0 <= j < i implies !#[trigger] is_char_at(s, '\n')(j) by {
        assert(s[j] == x[j]);
        assert(!is_char_at(x, '\n')(j));
    }
    assert(s[i] == x[i]);
    lemma_first_from_is(s.len() as int, is_char_at(s, '\n'), 0, i);
    assert(s.take(i) == x.take(i));
    assert(s.skip(i + 1) == x.skip(i + 1) + y);
    let head = seq![strip_cr(x.take(i))];
    if i + 1 == x.len() {
        assert(x.skip(i + 1) == Seq::<char>::empty());
        assert(s.skip(i + 1) == y);
        assert(lines(x.skip(i + 1)) == Seq::<Seq<char>>::empty());
        assert(head + Seq::<Seq<char>>::empty() == head);
        assert(lines(x) == head);
    } else {
        let x2 = x.skip(i + 1);
        assert(x2.last() == '\n');
        lemma_lines_append(x2, y);
        assert(head + (lines(x2) + lines(y)) == (head + lines(x2)) + lines(y));
    }
}

/// A line feed at the end of text that lacks one makes no new line.
pub proof fn lemma_lines_end(x: Seq<char>)
    requires
        x.len() > 0,
        x.last() != '\n',
    ensures
        lines(x + "\n"@) == lines(x),
    decreases x.len(),
{
    reveal_strlit("\n");
    let s = x + "\n"@;
    assert(s.len() == x.len() + 1);
    assert(s[x.len() as int] == '\n');
    lemma_first_from(x.len() as int, is_char_at(x, '\n'), 0);
    let i = find_char(x, '\n');
    if i == -1 {
        assert forall|j: int| 0 <= j < x.len() implies !#[trigger] is_char_at(s, '\n')(j) by {
            assert(s[j] == x[j]);
            assert(!is_char_at(x, '\n')(j));
        }
        lemma_first_from_is(s.len() as int, is_char_at(s, '\n'), 0, x.len() as int);
        assert(s.take(x.len() as int) == x);
        assert(s.skip(x.len() as int + 1) == Seq::<char>::empty());
        assert(lines(s.skip(x.len() as int + 1)) == Seq::<Seq<char>>::empty());
        assert(seq![strip_cr(x)] + Seq::<Seq<char>>::empty() == seq![strip_cr(x)]);
        assert(lines(x) == seq![strip_cr(x)]);
    } else {
        assert forall|j: int| 0 <= j < i implies !#[trigger] is_char_at(s, '\n')(j) by {
            assert(s[j] == x[j]);
            assert(!is_char_at(x, '\n')(j));
        }
        assert(s[i] == x[i]);
        lemma_first_from_is(s.len() as int, is_char_at(s, '\n'), 0, i);
        assert(s.take(i) == x.take(i));
        assert(i + 1 < x.len());
        let x2 = x.skip(i + 1);
        assert(s.skip(i + 1) == x2 + "\n"@);
        assert(x2.last() == x.last());
        lemma_lines_end(x2);
        assert(lines(s) == seq![strip_cr(x.take(i))] + lines(x2 + "\n"@));
        assert(lines(x) == seq![strip_cr(x.take(i))] + lines(x2));
    }
}

/// A line without line feeds, ended by one, is that one line.
pub proof fn lemma_lines_one(l: Seq<char>)
    requires
        forall|j: int| 0 <= j < l.len() ==> l[j] != '\n',
        l.len() == 0 || l.last() != '\r',
    ensures
        lines(l + "\n"@) == seq![l],
{
    reveal_strlit("\n");
    let s = l + "\n"@;
    assert(s.len() == l.len() + 1);
    assert(s[l.len() as int] == '\n');
    assert forall|j: int| 0 <= j < l.len() implies !#[trigger] is_char_at(s, '\n')(j) by {
        assert(s[j] == l[j]);
    }
    lemma_first_from_is(s.len() as int, is_char_at(s, '\n'), 0, l.len() as int);
    assert(s.take(l.len() as int) == l);
    assert(s.skip(l.len() as int + 1) == Seq::<char>::empty());
    assert(lines(s.skip(l.len() as int + 1)) == Seq::<Seq<char>>::empty());
    assert(strip_cr(l) == l);
    assert(seq![l] + Seq::<Seq<char>>::empty() == seq![l]);
}


/// `lines` on characters.
pub fn lines_of(v: &[char]) -> (r: Vec<Vec<char>>)
    ensures
        views(r@) == lines(v@),
{
    let mut out: Vec<Vec<char>> = Vec::new();
    let mut start: usize = 0;
    assert(v@.skip(0) == v@);
    loop
        invariant
            start <= v@.len(),
            views(out@) + lines(v@.skip(start as int)) == lines(v@),
        decreases v@.len() - start,
    {
        let n = v.len();
        if start == n {
            assert(v@.skip(start as int).len() == 0);
            assert(views(out@) + lines(v@.skip(start as int)) == views(out@));
            return out;
        }
        proof {
            lemma_lines_step(v@, start as int);
        }
        match find_char_from(v, '\n', start) {
            Some(i) => {
                let piece = strip_cr_of(slice_of(v, start, i));
                let ghost before = out@;
                out.push(piece);
                assert(views(out@) == views(before).push(piece@));
                assert(views(out@) + lines(v@.skip(i + 1)) == views(before) + (seq![piece@]
                    + lines(v@.skip(i + 1))));
                start = i + 1;
            },
            None => {
                let piece = strip_cr_of(slice_of(v, start, n));
                let ghost before = out@;
                out.push(piece);
                assert(v@.subrange(start as int, n as int) == v@.skip(start as int));
                assert(views(out@) == views(before).push(piece@));
                assert(views(out@) == views(before) + seq![piece@]);
                return out;
            },
        }
    }
}

// --- Numbers --------------------------------------------------------------------

pub open spec fn digit_char(d: nat) -> char {
    (('0' as u32) + d) as char
}

/// The decimal digits of `n`, without leading zeros.
pub open spec fn decimal(n: nat) -> Seq<char>
    decreases n,
{
    if n < 10 {
        seq![digit_char(n)]
    } else {
        decimal(n / 10).push(digit_char(n % 10))
    }
}

/// `n` in two digits, for clocks.
pub open spec fn two_digits(n: nat) -> Seq<char> {
    seq![digit_char(n / 10), digit_char(n % 10)]
}

pub fn decimal_of(n: u64) -> (r: Vec<char>)
    ensures
        r@ == decimal(n as nat),
    decreases n,
{
    let d = ((n % 10) as u8 + 48) as char;
    assert(d == digit_char((n % 10) as nat));
    if n < 10 {
        let mut r: Vec<char> = Vec::new();
        r.push(d);
        r
    } else {
        let mut r = decimal_of(n / 10);
        r.push(d);
        r
    }
}

pub fn two_digits_of(n: u64) -> (r: Vec<char>)
    requires
        n < 100,
    ensures
        r@ == two_digits(n as nat),
{
    let mut r: Vec<char> = Vec::new();
    r.push(((n / 10) as u8 + 48) as char);
    r.push(((n % 10) as u8 + 48) as char);
    r
}


// --- Mapping and replacing ------------------------------------------------------

/// Each element of `s` turned into characters, one after another.
pub open spec fn concat_map<A>(s: Seq<A>, f: spec_fn(A) -> Seq<char>) -> Seq<char>
    decreases s.len(),
{
    if s.len() == 0 {
        Seq::empty()
    } else {
        concat_map(s.drop_last(), f) + f(s.last())
    }
}

pub proof fn lemma_concat_map_take<A>(s: Seq<A>, f: spec_fn(A) -> Seq<char>, i: int)
    requires
        0 <= i < s.len(),
    ensures
        concat_map(s.take(i + 1), f) == concat_map(s.take(i), f) + f(s[i]),
{
    assert(s.take(i + 1).drop_last() == s.take(i));
}

pub proof fn lemma_concat_map_all<A>(s: Seq<A>, f: spec_fn(A) -> Seq<char>)
    ensures
        concat_map(s.take(s.len() as int), f) == concat_map(s, f),
{
    assert(s.take(s.len() as int) == s);
}

/// Searching a suffix for a pattern is searching the whole from where the
/// suffix starts.
pub proof fn lemma_find_skip(s: Seq<char>, pat: Seq<char>, k: int)
    requires
        0 <= k <= s.len(),
    ensures
        find(s.skip(k), pat) == (if first_from(s.len() as int, is_match_at(s, pat), k) == -1 {
            -1
        } else {
            first_from(s.len() as int, is_match_at(s, pat), k) - k
        }),
{
    let t = s.skip(k);
    let p = is_match_at(s, pat);
    let q = is_match_at(t, pat);
    assert forall|i: int| 0 <= i < t.len() implies #[trigger] q(i) == p(i + k) by {
        if i + pat.len() <= t.len() {
            assert(t.subrange(i, i + pat.len()) == s.subrange(i + k, i + k + pat.len()));
        }
    }
    lemma_first_from(s.len() as int, p, k);
    let r = first_from(s.len() as int, p, k);
    if r == -1 {
        assert forall|i: int| 0 <= i < t.len() implies !#[trigger] q(i) by {
            assert(!p(i + k));
        }
        lemma_first_from_is(t.len() as int, q, 0, -1);
    } else {
        assert(q(r - k));
        assert forall|i: int| 0 <= i < r - k implies !#[trigger] q(i) by {
            assert(!p(i + k));
        }
        lemma_first_from_is(t.len() as int, q, 0, r - k);
    }
}

/// `str::replace`: every `from`, left to right and not overlapping, made `to`.
pub open spec fn replace(s: Seq<char>, from: Seq<char>, to: Seq<char>) -> Seq<char>
    decreases s.len(),
{
    let i = find(s, from);
    if from.len() > 0 && 0 <= i && i + from.len() <= s.len() {
        s.take(i) + to + replace(s.skip(i + from.len()), from, to)
    } else {
        s
    }
}

pub fn replaced(v: &[char], from: &[char], to: &[char]) -> (r: Vec<char>)
    requires
        from@.len() > 0,
    ensures
        r@ == replace(v@, from@, to@),
{
    let mut out: Vec<char> = Vec::new();
    let mut start: usize = 0;
    assert(v@.skip(0) == v@);
    loop
        invariant
            start <= v@.len(),
            from@.len() > 0,
            out@ + replace(v@.skip(start as int), from@, to@) == replace(v@, from@, to@),
        decreases v@.len() - start,
    {
        let n = v.len();
        proof {
            lemma_find_skip(v@, from@, start as int);
            lemma_first_from(v@.len() as int, is_match_at(v@, from@), start as int);
        }
        match find_from(v, from, start) {
            Some(i) => {
                let ghost t = v@.skip(start as int);
                assert(t.take(i - start) == v@.subrange(start as int, i as int));
                assert(t.skip(i - start + from@.len()) == v@.skip(i + from@.len()));
                let piece = slice_of(v, start, i);
                let ghost before = out@;
                push_all(&mut out, &piece);
                push_all(&mut out, to);
                assert(out@ + replace(v@.skip(i + from@.len()), from@, to@) == before + (piece@
                    + to@ + replace(v@.skip(i + from@.len()), from@, to@)));
                start = i + from.len();
            },
            None => {
                let piece = slice_of(v, start, n);
                assert(piece@ == v@.skip(start as int));
                push_all(&mut out, &piece);
                return out;
            },
        }
    }
}


// --- Words, filters and joins ---------------------------------------------------

pub proof fn lemma_trim_start(s: Seq<char>)
    ensures
        trim_start(s).len() <= s.len(),
        trim_start(s).len() > 0 ==> !is_white(trim_start(s)[0]),
        trim_start(s).len() > 0 ==> exists|k: int| 0 <= k < s.len() && trim_start(s) == s.skip(k),
{
    lemma_first_from(s.len() as int, is_dark_at(s), 0);
}

/// The first white space at or after `from`.
pub fn find_white_from(v: &[char], from: usize) -> (r: Option<usize>)
    ensures
        match r {
            Some(i) => first_from(v@.len() as int, is_white_at(v@), from as int) == i,
            None => first_from(v@.len() as int, is_white_at(v@), from as int) == -1,
        },
{
    let ghost p = is_white_at(v@);
    let mut i: usize = from;
    while i < v.len()
        invariant
            p == is_white_at(v@),
            from <= i,
            forall|j: int| from <= j < i ==> !#[trigger] p(j),
        decreases v.len() - i,
    {
        if white(v[i]) {
            proof {
                lemma_first_from_is(v@.len() as int, p, from as int, i as int);
            }
            return Some(i);
        }
        i += 1;
    }
    proof {
        lemma_first_from_is(v@.len() as int, p, from as int, -1);
    }
    None
}

/// A line's words, where a word in double quotes may hold spaces.
pub open spec fn split_words(line: Seq<char>) -> Seq<Seq<char>>
    decreases line.len(),
{
    let rest = trim_start(line);
    if rest.len() == 0 || rest.len() > line.len() {
        Seq::empty()
    } else if rest[0] == '"' {
        let quoted = rest.drop_first();
        let e = find_char(quoted, '"');
        if 0 <= e < quoted.len() {
            seq![quoted.take(e)] + split_words(quoted.skip(e + 1))
        } else {
            seq![quoted]
        }
    } else {
        let e = first_from(rest.len() as int, is_white_at(rest), 0);
        if 0 < e < rest.len() {
            seq![rest.take(e)] + split_words(rest.skip(e))
        } else {
            seq![rest]
        }
    }
}

/// A line that starts with a plain word of `w` characters splits into
/// that word and the words after it.
pub proof fn lemma_words_plain(s: Seq<char>, w: int)
    requires
        0 < w < s.len(),
        s[0] != '"',
        forall|i: int| 0 <= i < w ==> !is_white(#[trigger] s[i]),
        is_white(s[w]),
    ensures
        split_words(s) == seq![s.take(w)] + split_words(s.skip(w)),
{
    assert(!is_white(s[0]));
    lemma_first_from_is(s.len() as int, is_dark_at(s), 0, 0);
    assert(s.skip(0) == s);
    assert forall|i: int| 0 <= i < w implies !#[trigger] is_white_at(s)(i) by {}
    lemma_first_from_is(s.len() as int, is_white_at(s), 0, w);
}

/// White space before a word is passed over.
pub proof fn lemma_words_space(s: Seq<char>)
    requires
        s.len() > 1,
        is_white(s[0]),
        !is_white(s[1]),
    ensures
        split_words(s) == split_words(s.skip(1)),
{
    let t = s.skip(1);
    assert(t[0] == s[1]);
    lemma_first_from_is(s.len() as int, is_dark_at(s), 0, 1);
    lemma_first_from_is(t.len() as int, is_dark_at(t), 0, 0);
    assert(t.skip(0) == t);
    assert(trim_start(s) == t);
    assert(trim_start(t) == t);
}

/// A line that starts with a quoted word, its closing quote at `e`, splits
/// into what the quotes hold and the words after it.
pub proof fn lemma_words_quoted(s: Seq<char>, e: int)
    requires
        1 <= e < s.len(),
        s[0] == '"',
        s[e] == '"',
        forall|i: int| 1 <= i < e ==> #[trigger] s[i] != '"',
    ensures
        split_words(s) == seq![s.subrange(1, e)] + split_words(s.skip(e + 1)),
{
    assert(!is_white(s[0]));
    lemma_first_from_is(s.len() as int, is_dark_at(s), 0, 0);
    assert(s.skip(0) == s);
    let q = s.drop_first();
    assert forall|i: int| 0 <= i < e - 1 implies !#[trigger] is_char_at(q, '"')(i) by {
        assert(q[i] == s[i + 1]);
    }
    assert(q[e - 1] == s[e]);
    lemma_first_from_is(q.len() as int, is_char_at(q, '"'), 0, e - 1);
    assert(q.take(e - 1) == s.subrange(1, e));
    assert(q.skip(e) == s.skip(e + 1));
}

/// `str::split_whitespace`: the pieces between runs of white space.
pub open spec fn white_split(line: Seq<char>) -> Seq<Seq<char>>
    decreases line.len(),
{
    let rest = trim_start(line);
    if rest.len() == 0 || rest.len() > line.len() {
        Seq::empty()
    } else {
        let e = first_from(rest.len() as int, is_white_at(rest), 0);
        if 0 < e < rest.len() {
            seq![rest.take(e)] + white_split(rest.skip(e))
        } else {
            seq![rest]
        }
    }
}

pub fn white_words_of(line: &[char]) -> (r: Vec<Vec<char>>)
    ensures
        views(r@) == white_split(line@),
{
    let mut out: Vec<Vec<char>> = Vec::new();
    let mut rest = slice_of(line, 0, line.len());
    assert(rest@ == line@);
    loop
        invariant
            views(out@) + white_split(rest@) == white_split(line@),
        decreases rest@.len(),
    {
        let t = trimmed_start(&rest);
        proof {
            lemma_trim_start(rest@);
        }
        let ghost before = out@;
        if t.len() == 0 {
            assert(white_split(rest@) == Seq::<Seq<char>>::empty());
            assert(views(out@) + white_split(rest@) == views(out@));
            return out;
        }
        match find_white_from(&t, 0) {
            Some(e) => {
                proof {
                    lemma_first_from(t@.len() as int, is_white_at(t@), 0);
                }
                let n = t.len();
                let word = slice_of(&t, 0, e);
                let after = slice_of(&t, e, n);
                assert(word@ == t@.take(e as int));
                assert(after@ == t@.skip(e as int));
                out.push(word);
                assert(views(out@) == views(before).push(word@));
                assert(views(out@) + white_split(after@) == views(before) + (seq![word@] + white_split(
                    after@,
                )));
                rest = after;
            },
            None => {
                out.push(t);
                assert(views(out@) == views(before).push(t@));
                assert(views(out@) == views(before) + seq![t@]);
                return out;
            },
        }
    }
}

pub fn words_of(line: &[char]) -> (r: Vec<Vec<char>>)
    ensures
        views(r@) == split_words(line@),
{
    let mut out: Vec<Vec<char>> = Vec::new();
    let mut rest = slice_of(line, 0, line.len());
    assert(rest@ == line@);
    loop
        invariant
            views(out@) + split_words(rest@) == split_words(line@),
        decreases rest@.len(),
    {
        let t = trimmed_start(&rest);
        proof {
            lemma_trim_start(rest@);
        }
        let ghost before = out@;
        if t.len() == 0 {
            assert(split_words(rest@) == Seq::<Seq<char>>::empty());
            assert(views(out@) + split_words(rest@) == views(out@));
            return out;
        }
        if t[0] == '"' {
            let n = t.len();
            let quoted = slice_of(&t, 1, n);
            assert(quoted@ == t@.drop_first());
            match find_char_in(&quoted, '"') {
                Some(e) => {
                    proof {
                        lemma_first_from(quoted@.len() as int, is_char_at(quoted@, '"'), 0);
                    }
                    let q = quoted.len();
                    let word = slice_of(&quoted, 0, e);
                    let after = slice_of(&quoted, e + 1, q);
                    assert(word@ == quoted@.take(e as int));
                    assert(after@ == quoted@.skip(e + 1));
                    out.push(word);
                    assert(views(out@) == views(before).push(word@));
                    assert(views(out@) + split_words(after@) == views(before) + (seq![word@] + split_words(
                        after@,
                    )));
                    rest = after;
                },
                None => {
                    out.push(quoted);
                    assert(views(out@) == views(before).push(quoted@));
                    assert(views(out@) == views(before) + seq![quoted@]);
                    return out;
                },
            }
        } else {
            match find_white_from(&t, 0) {
                Some(e) => {
                    proof {
                        lemma_first_from(t@.len() as int, is_white_at(t@), 0);
                    }
                    let n = t.len();
                    let word = slice_of(&t, 0, e);
                    let after = slice_of(&t, e, n);
                    assert(word@ == t@.take(e as int));
                    assert(after@ == t@.skip(e as int));
                    out.push(word);
                    assert(views(out@) == views(before).push(word@));
                    assert(views(out@) + split_words(after@) == views(before) + (seq![word@] + split_words(
                        after@,
                    )));
                    rest = after;
                },
                None => {
                    out.push(t);
                    assert(views(out@) == views(before).push(t@));
                    assert(views(out@) == views(before) + seq![t@]);
                    return out;
                },
            }
        }
    }
}

/// `s.take(i + 1).filter(p)` is `s.take(i).filter(p)` with `s[i]` if it passes.
pub proof fn lemma_filter_take<A>(s: Seq<A>, p: spec_fn(A) -> bool, i: int)
    requires
        0 <= i < s.len(),
    ensures
        s.take(i + 1).filter(p) == (if p(s[i]) {
            s.take(i).filter(p).push(s[i])
        } else {
            s.take(i).filter(p)
        }),
{
    reveal(Seq::filter);
    assert(s.take(i + 1).drop_last() == s.take(i));
}

/// What a filter keeps comes from what it was given.
pub proof fn lemma_filter_from<A>(s: Seq<A>, p: spec_fn(A) -> bool, i: int)
    requires
        0 <= i < s.filter(p).len(),
    ensures
        exists|j: int| 0 <= j < s.len() && s[j] == s.filter(p)[i],
    decreases s.len(),
{
    reveal(Seq::filter);
    let rest = s.drop_last();
    let sub = rest.filter(p);
    if i < sub.len() {
        assert(s.filter(p)[i] == sub[i]);
        lemma_filter_from(rest, p, i);
        let j = choose|j: int| 0 <= j < rest.len() && rest[j] == sub[i];
        assert(s[j] == rest[j]);
    } else {
        assert(s.filter(p)[i] == s[s.len() - 1]);
    }
}

/// A filter that everything passes keeps everything.
pub proof fn lemma_filter_all_pass<A>(s: Seq<A>, p: spec_fn(A) -> bool)
    requires
        forall|i: int| 0 <= i < s.len() ==> #[trigger] p(s[i]),
    ensures
        s.filter(p) == s,
    decreases s.len(),
{
    reveal(Seq::filter);
    if s.len() > 0 {
        let rest = s.drop_last();
        assert forall|i: int| 0 <= i < rest.len() implies #[trigger] p(rest[i]) by {
            assert(rest[i] == s[i]);
        }
        lemma_filter_all_pass(rest, p);
        assert(p(s[s.len() - 1]));
        assert(rest.push(s.last()) == s);
    }
}

pub proof fn lemma_concat_map_push<A>(s: Seq<A>, f: spec_fn(A) -> Seq<char>, x: A)
    ensures
        concat_map(s.push(x), f) == concat_map(s, f) + f(x),
{
    assert(s.push(x).drop_last() == s);
}

/// Pieces joined with `sep` between them.
pub open spec fn join(pieces: Seq<Seq<char>>, sep: Seq<char>) -> Seq<char>
    decreases pieces.len(),
{
    if pieces.len() == 0 {
        Seq::empty()
    } else if pieces.len() == 1 {
        pieces[0]
    } else {
        join(pieces.drop_last(), sep) + sep + pieces.last()
    }
}


/// `join` of the pieces from `from` up to `to`.
pub fn joined(pieces: &[Vec<char>], from: usize, to: usize, sep: &[char]) -> (r: Vec<char>)
    requires
        from <= to <= pieces@.len(),
    ensures
        r@ == join(views(pieces@).subrange(from as int, to as int), sep@),
{
    let mut out: Vec<char> = Vec::new();
    let mut i: usize = from;
    while i < to
        invariant
            from <= i <= to,
            to <= pieces@.len(),
            out@ == join(views(pieces@).subrange(from as int, i as int), sep@),
        decreases to - i,
    {
        let ghost ps = views(pieces@).subrange(from as int, i + 1);
        assert(ps.drop_last() == views(pieces@).subrange(from as int, i as int));
        assert(ps.last() == pieces@[i as int]@);
        if i > from {
            push_all(&mut out, sep);
        } else {
            assert(out@ == Seq::<char>::empty());
        }
        push_all(&mut out, &pieces[i]);
        i += 1;
    }
    out
}

// --- Reading numbers --------------------------------------------------------------

pub open spec fn all_digits(s: Seq<char>) -> bool {
    forall|i: int| 0 <= i < s.len() ==> is_ascii_digit(#[trigger] s[i])
}

/// The number decimal digits spell.
pub open spec fn digits_value(s: Seq<char>) -> int
    decreases s.len(),
{
    if s.len() == 0 {
        0
    } else {
        digits_value(s.drop_last()) * 10 + (s.last() as int - 48)
    }
}

/// What `str::parse` reads as a signed integer, before any bound on its size:
/// an optional sign, then one or more digits.
pub open spec fn int_value(s: Seq<char>) -> Option<int> {
    if s.len() > 0 && (s[0] == '+' || s[0] == '-') {
        let d = s.drop_first();
        if d.len() > 0 && all_digits(d) {
            Some(
                if s[0] == '-' {
                    -digits_value(d)
                } else {
                    digits_value(d)
                },
            )
        } else {
            None
        }
    } else if s.len() > 0 && all_digits(s) {
        Some(digits_value(s))
    } else {
        None
    }
}

/// What `str::parse` reads as an unsigned integer, before any bound on its
/// size: an optional plus sign, then one or more digits.
pub open spec fn uint_value(s: Seq<char>) -> Option<int> {
    if s.len() > 0 && s[0] == '+' {
        let d = s.drop_first();
        if d.len() > 0 && all_digits(d) {
            Some(digits_value(d))
        } else {
            None
        }
    } else if s.len() > 0 && all_digits(s) {
        Some(digits_value(s))
    } else {
        None
    }
}

pub proof fn lemma_digits_nonneg(s: Seq<char>)
    requires
        all_digits(s),
    ensures
        digits_value(s) >= 0,
    decreases s.len(),
{
    if s.len() > 0 {
        lemma_digits_nonneg(s.drop_last());
    }
}

/// What `str::parse` reads as an unsigned integer is never negative.
pub proof fn lemma_uint_nonneg(s: Seq<char>)
    ensures
        uint_value(s) matches Some(v) ==> v >= 0,
{
    if s.len() > 0 && s[0] == '+' {
        if s.drop_first().len() > 0 && all_digits(s.drop_first()) {
            lemma_digits_nonneg(s.drop_first());
        }
    } else if s.len() > 0 && all_digits(s) {
        lemma_digits_nonneg(s);
    }
}

/// More digits never make a smaller number.
pub proof fn lemma_digits_grow(s: Seq<char>, i: int)
    requires
        all_digits(s),
        0 <= i <= s.len(),
    ensures
        digits_value(s) >= digits_value(s.take(i)),
    decreases s.len() - i,
{
    if i < s.len() {
        lemma_digits_grow(s, i + 1);
        assert(s.take(i + 1).drop_last() == s.take(i));
        lemma_digits_nonneg(s.take(i));
    } else {
        assert(s.take(i) == s);
    }
}

/// The digits of `v[from..]` read as a number while it stays at most `cap`;
/// `None` once it has passed `cap`.
pub fn digits_up_to(v: &[char], from: usize, cap: u64) -> (r: Option<u64>)
    requires
        from <= v@.len(),
        all_digits(v@.skip(from as int)),
        cap <= 1_000_000_000,
    ensures
        match r {
            Some(n) => n == digits_value(v@.skip(from as int)) && n <= cap,
            None => digits_value(v@.skip(from as int)) > cap,
        },
{
    let ghost d = v@.skip(from as int);
    let mut acc: u64 = 0;
    let mut i: usize = from;
    assert(d.take(0) == Seq::<char>::empty());
    while i < v.len()
        invariant
            from <= i <= v@.len(),
            d == v@.skip(from as int),
            all_digits(d),
            cap <= 1_000_000_000,
            acc == digits_value(d.take(i - from)),
            acc <= cap,
        decreases v.len() - i,
    {
        assert(d.take(i - from + 1).drop_last() == d.take(i - from));
        assert(d[i - from] == v@[i as int]);
        let digit = (v[i] as u32 - 48) as u64;
        acc = acc * 10 + digit;
        i += 1;
        if acc > cap {
            proof {
                lemma_digits_grow(d, i - from);
            }
            return None;
        }
    }
    assert(d.take(i - from) == d);
    Some(acc)
}

fn all_digits_from(v: &[char], from: usize) -> (r: bool)
    requires
        from <= v@.len(),
    ensures
        r == all_digits(v@.skip(from as int)),
{
    let mut i: usize = from;
    while i < v.len()
        invariant
            from <= i <= v@.len(),
            forall|j: int| from <= j < i ==> is_ascii_digit(#[trigger] v@[j]),
        decreases v.len() - i,
    {
        if !ascii_digit(v[i]) {
            assert(!is_ascii_digit(v@.skip(from as int)[i - from]));
            return false;
        }
        i += 1;
    }
    assert forall|j: int| 0 <= j < v@.skip(from as int).len() implies is_ascii_digit(
        #[trigger] v@.skip(from as int)[j],
    ) by {
        assert(v@.skip(from as int)[j] == v@[j + from]);
    }
    true
}

/// A signed integer as `str::parse` reads it, when it is no further from
/// zero than `cap`; `None` when it isn't a number or is larger than that.
pub fn small_int(v: &[char], cap: u64) -> (r: Option<i64>)
    requires
        cap <= 1_000_000_000,
    ensures
        match r {
            Some(n) => int_value(v@) == Some(n as int) && -cap <= n <= cap,
            None => match int_value(v@) {
                Some(x) => x > cap || x < -cap,
                None => true,
            },
        },
{
    if v.len() == 0 {
        return None;
    }
    let signed = v[0] == '+' || v[0] == '-';
    let from: usize = if signed {
        1
    } else {
        0
    };
    if signed && v.len() == 1 {
        return None;
    }
    if !all_digits_from(v, from) {
        return None;
    }
    assert(v@.skip(0) == v@);
    assert(v@.skip(1) == v@.drop_first());
    proof {
        lemma_digits_nonneg(v@.skip(from as int));
    }
    match digits_up_to(v, from, cap) {
        Some(n) => if v[0] == '-' {
            Some(-(n as i64))
        } else {
            Some(n as i64)
        },
        None => None,
    }
}

fn wide_digits_up_to(v: &[char], from: usize, cap: u128) -> (r: Option<u128>)
    requires
        from <= v@.len(),
        all_digits(v@.skip(from as int)),
        cap <= 0x1_0000_0000_0000_0000,
    ensures
        match r {
            Some(n) => n == digits_value(v@.skip(from as int)) && n <= cap,
            None => digits_value(v@.skip(from as int)) > cap,
        },
{
    let ghost d = v@.skip(from as int);
    let mut acc: u128 = 0;
    let mut i: usize = from;
    assert(d.take(0) == Seq::<char>::empty());
    while i < v.len()
        invariant
            from <= i <= v@.len(),
            d == v@.skip(from as int),
            all_digits(d),
            cap <= 0x1_0000_0000_0000_0000,
            acc == digits_value(d.take(i - from)),
            acc <= cap,
        decreases v.len() - i,
    {
        assert(d.take(i - from + 1).drop_last() == d.take(i - from));
        assert(d[i - from] == v@[i as int]);
        let digit = (v[i] as u32 - 48) as u128;
        acc = acc * 10 + digit;
        i += 1;
        if acc > cap {
            proof {
                lemma_digits_grow(d, i - from);
            }
            return None;
        }
    }
    assert(d.take(i - from) == d);
    Some(acc)
}

/// A signed integer as `str::parse::<i64>` reads it.
pub fn parse_i64(v: &[char]) -> (r: Option<i64>)
    ensures
        match r {
            Some(n) => int_value(v@) == Some(n as int),
            None => match int_value(v@) {
                Some(x) => x > i64::MAX || x < i64::MIN,
                None => true,
            },
        },
{
    if v.len() == 0 {
        return None;
    }
    let negative = v[0] == '-';
    let signed = v[0] == '+' || negative;
    let from: usize = if signed {
        1
    } else {
        0
    };
    if signed && v.len() == 1 {
        return None;
    }
    if !all_digits_from(v, from) {
        return None;
    }
    assert(v@.skip(0) == v@);
    assert(v@.skip(1) == v@.drop_first());
    proof {
        lemma_digits_nonneg(v@.skip(from as int));
    }
    let cap: u128 = if negative {
        0x8000_0000_0000_0000
    } else {
        0x7fff_ffff_ffff_ffff
    };
    match wide_digits_up_to(v, from, cap) {
        Some(n) => if negative {
            Some((0 - (n as i128)) as i64)
        } else {
            Some(n as i64)
        },
        None => None,
    }
}

/// An unsigned integer as `str::parse::<u32>` reads it.
pub fn parse_u32(v: &[char]) -> (r: Option<u32>)
    ensures
        match r {
            Some(n) => uint_value(v@) == Some(n as int),
            None => match uint_value(v@) {
                Some(x) => x > u32::MAX,
                None => true,
            },
        },
{
    if v.len() == 0 {
        return None;
    }
    let from: usize = if v[0] == '+' {
        1
    } else {
        0
    };
    if from == 1 && v.len() == 1 {
        return None;
    }
    if !all_digits_from(v, from) {
        return None;
    }
    assert(v@.skip(0) == v@);
    assert(v@.skip(1) == v@.drop_first());
    let ghost d = v@.skip(from as int);
    let mut acc: u64 = 0;
    let mut i: usize = from;
    assert(d.take(0) == Seq::<char>::empty());
    while i < v.len()
        invariant
            from <= i <= v@.len(),
            d == v@.skip(from as int),
            all_digits(d),
            uint_value(v@) == Some(digits_value(d)),
            acc == digits_value(d.take(i - from)),
            acc <= u32::MAX,
        decreases v.len() - i,
    {
        assert(d.take(i - from + 1).drop_last() == d.take(i - from));
        assert(d[i - from] == v@[i as int]);
        let digit = (v[i] as u32 - 48) as u64;
        acc = acc * 10 + digit;
        i += 1;
        if acc > 0xffff_ffff {
            proof {
                lemma_digits_grow(d, i - from);
            }
            return None;
        }
    }
    assert(d.take(i - from) == d);
    Some(acc as u32)
}

} // verus!
