//! Turning what was typed into the address field into somewhere to go.

use vstd::prelude::*;
use vstd::utf8::{decode_utf8, encode_scalar, encode_utf8, has_width_1_encoding, valid_utf8};

use crate::protocol::Security;
use crate::text::{
    ascii_alnum, ascii_alpha, ascii_digit, before_any, before_any_in, chars_of, concat_map,
    contains, find, find_any, find_char, find_char_in, is_dark_at, is_match_at, is_one_of_at, lemma_first_from_is, lemma_last_before_is, matches_at, rfind, find_in, is_ascii_alnum, is_ascii_alpha, is_ascii_digit,
    is_white, lemma_concat_map_all, lemma_concat_map_take, lower, lowered, push_all, push_str, rsplit_once, rsplit_once_in, same, slice_of, split, split_char, split_once,
    split_once_in, starts, starts_with, string_of, strip_prefix, trim, trimmed, views, white,
};

verus! {

/// Default search: a privacy-respecting engine.
pub const SEARCH: &'static str = "https://duckduckgo.com/?q=";

pub struct Target {
    /// What to load first.
    pub uri: String,
    /// Plain HTTP to fall back to if `uri` was upgraded to HTTPS and the
    /// connection fails. Never used for certificate errors.
    pub fallback: Option<String>,
}

impl View for Target {
    type V = (Seq<char>, Option<Seq<char>>);

    open spec fn view(&self) -> (Seq<char>, Option<Seq<char>>) {
        (
            self.uri@,
            match self.fallback {
                Some(f) => Some(f@),
                None => None,
            },
        )
    }
}

// --- What the rules say -------------------------------------------------------

/// A URI scheme: a letter, then letters, digits, `+`, `-` or `.`.
pub open spec fn is_scheme_spec(s: Seq<char>) -> bool {
    s.len() > 0 && is_ascii_alpha(s[0]) && forall|i: int|
        1 <= i < s.len() ==> is_ascii_alnum(#[trigger] s[i]) || s[i] == '+' || s[i] == '-'
            || s[i] == '.'
}

pub open spec fn all_digits(s: Seq<char>) -> bool {
    forall|i: int| 0 <= i < s.len() ==> is_ascii_digit(#[trigger] s[i])
}

pub open spec fn all_alpha(s: Seq<char>) -> bool {
    forall|i: int| 0 <= i < s.len() ==> is_ascii_alpha(#[trigger] s[i])
}

pub open spec fn has_white(s: Seq<char>) -> bool {
    exists|i: int| 0 <= i < s.len() && is_white(#[trigger] s[i])
}

/// A domain label: letters, digits and hyphens.
pub open spec fn label_chars(l: Seq<char>) -> bool {
    forall|i: int| 0 <= i < l.len() ==> is_ascii_alnum(#[trigger] l[i]) || l[i] == '-'
}

/// Whether dotted `host` names a machine: two or more labels, none empty and
/// all made of letters, digits and hyphens; four numbers for an IPv4
/// address; otherwise a top-level domain of two or more letters.
pub open spec fn host_looks_real(host: Seq<char>) -> bool {
    let labels = split(host, '.');
    if labels.len() < 2 || exists|i: int| 0 <= i < labels.len() && (#[trigger] labels[i]).len()
        == 0 {
        false
    } else if !(forall|i: int| 0 <= i < labels.len() ==> label_chars(#[trigger] labels[i])) {
        false
    } else if forall|i: int| 0 <= i < labels.len() ==> all_digits(#[trigger] labels[i]) {
        labels.len() == 4
    } else {
        let tld = labels.last();
        tld.len() >= 2 && all_alpha(tld)
    }
}

/// Typed text that is an address rather than a search.
pub open spec fn looks_like_address_spec(input: Seq<char>) -> bool {
    if has_white(input) {
        false
    } else {
        let authority = before_any(input, "/?#"@);
        if starts_with(authority, "["@) {
            contains(authority, "]"@)
        } else {
            match rsplit_once(authority, ":"@) {
                Some((host, port)) => if port.len() > 0 && all_digits(port) {
                    lower(host) == "localhost"@ || host_looks_real(host)
                } else {
                    false
                },
                None => lower(authority) == "localhost"@ || host_looks_real(authority),
            }
        }
    }
}

/// A hexadecimal digit for `d` below sixteen, in capitals.
pub open spec fn hex_upper(d: u8) -> char {
    if d < 10 {
        ((48 + d) as u8) as char
    } else {
        ((55 + d) as u8) as char
    }
}

pub open spec fn is_unreserved(b: u8) -> bool {
    (65 <= b <= 90) || (97 <= b <= 122) || (48 <= b <= 57) || b == 45 || b == 46 || b == 95
        || b == 126
}

/// One byte of a search query as it goes into an address.
pub open spec fn query_byte(b: u8) -> Seq<char> {
    if b == 32 {
        seq!['+']
    } else if is_unreserved(b) {
        seq![b as char]
    } else {
        seq!['%', hex_upper(b / 16), hex_upper(b % 16)]
    }
}

/// The query's UTF-8 bytes, each as it goes into an address.
pub open spec fn encode_query_spec(input: Seq<char>) -> Seq<char> {
    concat_map(encode_utf8(input), |b: u8| query_byte(b))
}

pub open spec fn direct_spec(uri: Seq<char>) -> (Seq<char>, Option<Seq<char>>) {
    (uri, None)
}

/// Where typed text leads: a web address as given, plain HTTP upgraded with a
/// way back, `about:blank`, something that looks like an address tried over
/// HTTPS first, and anything else searched for.
pub open spec fn resolve_spec(typed: Seq<char>) -> Option<(Seq<char>, Option<Seq<char>>)> {
    let input = trim(typed);
    if input.len() == 0 {
        None
    } else {
        let explicit: Option<(Seq<char>, Option<Seq<char>>)> = match split_once(input, ":"@) {
            Some((scheme, rest)) => if !is_scheme_spec(scheme) {
                None
            } else if lower(scheme) == "https"@ && starts_with(rest, "//"@) {
                Some(direct_spec(input))
            } else if lower(scheme) == "http"@ && starts_with(rest, "//"@) {
                Some(("https:"@ + rest, Some(input)))
            } else if lower(scheme) == "about"@ && lower(rest) == "blank"@ {
                Some(direct_spec("about:blank"@))
            } else {
                None
            },
            None => None,
        };
        match explicit {
            Some(t) => Some(t),
            None => if looks_like_address_spec(input) {
                Some(("https://"@ + input, Some("http://"@ + input)))
            } else {
                Some(direct_spec(SEARCH@ + encode_query_spec(input)))
            },
        }
    }
}

/// An address with the slash WebKit adds to an empty path.
pub open spec fn with_root_slash(uri: Seq<char>) -> Seq<char> {
    match split_once(uri, "://"@) {
        Some((scheme, rest)) => if find_char(rest, '/') == -1 {
            scheme + "://"@ + rest + "/"@
        } else {
            uri
        },
        None => uri,
    }
}

pub open spec fn same_address_spec(a: Seq<char>, b: Seq<char>) -> bool {
    lower(with_root_slash(a)) == lower(with_root_slash(b))
}

pub open spec fn host_of_spec(uri: Seq<char>) -> Seq<char> {
    match split_once(uri, "://"@) {
        Some((scheme, rest)) => if scheme == "http"@ || scheme == "https"@ {
            let host = before_any(rest, "/?#:"@);
            lower(
                match strip_prefix(host, "www."@) {
                    Some(h) => h,
                    None => host,
                },
            )
        } else {
            Seq::empty()
        },
        None => Seq::empty(),
    }
}

pub open spec fn security_spec(uri: Seq<char>) -> Security {
    if starts_with(lower(uri), "https://"@) {
        Security::Secure
    } else if starts_with(lower(uri), "http://"@) {
        Security::NotSecure
    } else {
        Security::Local
    }
}

pub open spec fn hex_value(b: u8) -> Option<u8> {
    if 48 <= b <= 57 {
        Some((b - 48) as u8)
    } else if 97 <= b <= 102 {
        Some((b - 87) as u8)
    } else if 65 <= b <= 70 {
        Some((b - 55) as u8)
    } else {
        None
    }
}

/// Every `%` followed by two hexadecimal digits made the byte they spell.
pub open spec fn percent_decode(bytes: Seq<u8>) -> Seq<u8>
    decreases bytes.len(),
{
    if bytes.len() == 0 {
        Seq::empty()
    } else if bytes.len() >= 3 && bytes[0] == 37 && hex_value(bytes[1]) is Some && hex_value(
        bytes[2],
    ) is Some {
        seq![(hex_value(bytes[1]).unwrap() * 16 + hex_value(bytes[2]).unwrap()) as u8]
            + percent_decode(bytes.skip(3))
    } else {
        seq![bytes[0]] + percent_decode(bytes.skip(1))
    }
}

/// What `String::from_utf8_lossy` makes of `bytes`.
pub uninterp spec fn lossy_utf8(bytes: Seq<u8>) -> Seq<char>;

pub open spec fn unescape_spec(text: Seq<char>) -> Seq<char> {
    lossy_utf8(percent_decode(encode_utf8(text)))
}

// --- Computing it -------------------------------------------------------------

/// `String::from_utf8_lossy`: the bytes decoded, with each invalid sequence
/// made U+FFFD. Stated here: the result is `lossy_utf8` of the bytes, and
/// bytes that are valid UTF-8 come back as exactly what they encode. How
/// invalid sequences are replaced is left unsaid.
#[verifier::external_body]
fn from_utf8_lossy(bytes: &[u8]) -> (s: String)
    ensures
        s@ == lossy_utf8(bytes@),
        valid_utf8(bytes@) ==> s@ == decode_utf8(bytes@),
{
    String::from_utf8_lossy(bytes).into_owned()
}

fn direct(uri: &[char]) -> (t: Target)
    ensures
        t@ == direct_spec(uri@),
{
    Target { uri: string_of(uri), fallback: None }
}

fn is_scheme(s: &[char]) -> (r: bool)
    ensures
        r == is_scheme_spec(s@),
{
    if s.len() == 0 || !ascii_alpha(s[0]) {
        return false;
    }
    let mut i: usize = 1;
    while i < s.len()
        invariant
            1 <= i <= s@.len(),
            forall|j: int|
                1 <= j < i ==> is_ascii_alnum(#[trigger] s@[j]) || s@[j] == '+' || s@[j] == '-'
                    || s@[j] == '.',
        decreases s.len() - i,
    {
        let c = s[i];
        if !(ascii_alnum(c) || c == '+' || c == '-' || c == '.') {
            return false;
        }
        i += 1;
    }
    true
}

fn digits_only(s: &[char]) -> (r: bool)
    ensures
        r == all_digits(s@),
{
    let mut i: usize = 0;
    while i < s.len()
        invariant
            0 <= i <= s@.len(),
            forall|j: int| 0 <= j < i ==> is_ascii_digit(#[trigger] s@[j]),
        decreases s.len() - i,
    {
        if !ascii_digit(s[i]) {
            return false;
        }
        i += 1;
    }
    true
}

fn letters_only(s: &[char]) -> (r: bool)
    ensures
        r == all_alpha(s@),
{
    let mut i: usize = 0;
    while i < s.len()
        invariant
            0 <= i <= s@.len(),
            forall|j: int| 0 <= j < i ==> is_ascii_alpha(#[trigger] s@[j]),
        decreases s.len() - i,
    {
        if !ascii_alpha(s[i]) {
            return false;
        }
        i += 1;
    }
    true
}

fn label_ok(s: &[char]) -> (r: bool)
    ensures
        r == label_chars(s@),
{
    let mut i: usize = 0;
    while i < s.len()
        invariant
            0 <= i <= s@.len(),
            forall|j: int| 0 <= j < i ==> is_ascii_alnum(#[trigger] s@[j]) || s@[j] == '-',
        decreases s.len() - i,
    {
        if !(ascii_alnum(s[i]) || s[i] == '-') {
            return false;
        }
        i += 1;
    }
    true
}

fn any_white(s: &[char]) -> (r: bool)
    ensures
        r == has_white(s@),
{
    let mut i: usize = 0;
    while i < s.len()
        invariant
            0 <= i <= s@.len(),
            forall|j: int| 0 <= j < i ==> !is_white(#[trigger] s@[j]),
        decreases s.len() - i,
    {
        if white(s[i]) {
            assert(is_white(s@[i as int]));
            return true;
        }
        i += 1;
    }
    false
}

fn host_real(host: &[char]) -> (r: bool)
    ensures
        r == host_looks_real(host@),
{
    let labels = split_char(host, '.');
    let ghost ls = split(host@, '.');
    assert(views(labels@) == ls);
    assert forall|i: int| 0 <= i < labels@.len() implies (#[trigger] labels@[i])@ == ls[i] by {
        assert(views(labels@)[i] == labels@[i]@);
    }
    if labels.len() < 2 {
        return false;
    }
    let mut i: usize = 0;
    while i < labels.len()
        invariant
            0 <= i <= labels@.len(),
            ls == split(host@, '.'),
            labels@.len() == ls.len(),
            forall|k: int| 0 <= k < labels@.len() ==> (#[trigger] labels@[k])@ == ls[k],
            forall|k: int| 0 <= k < i ==> (#[trigger] ls[k]).len() != 0,
        decreases labels.len() - i,
    {
        if labels[i].len() == 0 {
            assert(ls[i as int].len() == 0);
            assert(exists|k: int| 0 <= k < ls.len() && (#[trigger] ls[k]).len() == 0);
            return false;
        }
        i += 1;
    }
    let mut i: usize = 0;
    while i < labels.len()
        invariant
            0 <= i <= labels@.len(),
            ls == split(host@, '.'),
            labels@.len() == ls.len(),
            forall|k: int| 0 <= k < labels@.len() ==> (#[trigger] labels@[k])@ == ls[k],
            forall|k: int| 0 <= k < i ==> label_chars(#[trigger] ls[k]),
        decreases labels.len() - i,
    {
        if !label_ok(&labels[i]) {
            assert(!label_chars(ls[i as int]));
            assert(!(forall|k: int| 0 <= k < ls.len() ==> label_chars(#[trigger] ls[k])));
            return false;
        }
        i += 1;
    }
    let mut numeric = true;
    let mut i: usize = 0;
    while i < labels.len()
        invariant
            0 <= i <= labels@.len(),
            ls == split(host@, '.'),
            labels@.len() == ls.len(),
            forall|k: int| 0 <= k < labels@.len() ==> (#[trigger] labels@[k])@ == ls[k],
            numeric == forall|k: int| 0 <= k < i ==> all_digits(#[trigger] ls[k]),
        decreases labels.len() - i,
    {
        if !digits_only(&labels[i]) {
            numeric = false;
        }
        i += 1;
    }
    if numeric {
        return labels.len() == 4;
    }
    let tld = &labels[labels.len() - 1];
    assert(tld@ == ls.last());
    tld.len() >= 2 && letters_only(tld)
}

fn looks_like_address(input: &[char]) -> (r: bool)
    ensures
        r == looks_like_address_spec(input@),
{
    if any_white(input) {
        return false;
    }
    let authority = before_any_in(input, &chars_of("/?#"));
    if starts(&authority, &chars_of("[")) {
        return find_in(&authority, &chars_of("]")).is_some();
    }
    let localhost = chars_of("localhost");
    match rsplit_once_in(&authority, &chars_of(":")) {
        Some((host, port)) => {
            if port.len() > 0 && digits_only(&port) {
                same(&lowered(&host), &localhost) || host_real(&host)
            } else {
                false
            }
        },
        None => same(&lowered(&authority), &localhost) || host_real(&authority),
    }
}

fn hex_digit(d: u8) -> (c: char)
    requires
        d < 16,
    ensures
        c == hex_upper(d),
{
    if d < 10 {
        (48 + d) as char
    } else {
        (55 + d) as char
    }
}

fn encode_query(input: &[char]) -> (r: Vec<char>)
    ensures
        r@ == encode_query_spec(input@),
{
    let s = string_of(input);
    let bytes = s.as_str().as_bytes();
    let ghost f = |b: u8| query_byte(b);
    let mut out: Vec<char> = Vec::new();
    let mut i: usize = 0;
    while i < bytes.len()
        invariant
            0 <= i <= bytes@.len(),
            f == (|b: u8| query_byte(b)),
            out@ == concat_map(bytes@.take(i as int), f),
        decreases bytes.len() - i,
    {
        proof {
            lemma_concat_map_take(bytes@, f, i as int);
        }
        let b = bytes[i];
        if b == 32 {
            out.push('+');
        } else if (65 <= b && b <= 90) || (97 <= b && b <= 122) || (48 <= b && b <= 57) || b == 45
            || b == 46 || b == 95 || b == 126 {
            out.push(b as char);
        } else {
            out.push('%');
            out.push(hex_digit(b / 16));
            out.push(hex_digit(b % 16));
        }
        i += 1;
    }
    proof {
        lemma_concat_map_all(bytes@, f);
    }
    out
}

pub fn resolve(input: &str) -> (r: Option<Target>)
    ensures
        match r {
            Some(t) => resolve_spec(input@) == Some(t@),
            None => resolve_spec(input@) is None,
        },
{
    let input = trimmed(&chars_of(input));
    if input.len() == 0 {
        return None;
    }
    if let Some((scheme, rest)) = split_once_in(&input, &chars_of(":")) {
        if is_scheme(&scheme) {
            let lower_scheme = lowered(&scheme);
            let slashes = chars_of("//");
            if same(&lower_scheme, &chars_of("https")) && starts(&rest, &slashes) {
                return Some(direct(&input));
            }
            if same(&lower_scheme, &chars_of("http")) && starts(&rest, &slashes) {
                let mut uri = chars_of("https:");
                push_all(&mut uri, &rest);
                return Some(Target { uri: string_of(&uri), fallback: Some(string_of(&input)) });
            }
            if same(&lower_scheme, &chars_of("about")) && same(&lowered(&rest), &chars_of("blank")) {
                return Some(direct(&chars_of("about:blank")));
            }
        }
    }
    if looks_like_address(&input) {
        let mut uri = chars_of("https://");
        push_all(&mut uri, &input);
        let mut fallback = chars_of("http://");
        push_all(&mut fallback, &input);
        return Some(Target { uri: string_of(&uri), fallback: Some(string_of(&fallback)) });
    }
    let mut uri = chars_of(SEARCH);
    let query = encode_query(&input);
    push_all(&mut uri, &query);
    Some(direct(&uri))
}

fn with_slash(uri: &[char]) -> (r: Vec<char>)
    ensures
        r@ == with_root_slash(uri@),
{
    match split_once_in(uri, &chars_of("://")) {
        Some((scheme, rest)) => {
            if find_char_in(&rest, '/').is_none() {
                let mut out = scheme;
                push_str(&mut out, "://");
                push_all(&mut out, &rest);
                out.push('/');
                proof {
                    reveal_strlit("/");
                    assert(seq!['/'] == "/"@);
                }
                out
            } else {
                let r = slice_of(uri, 0, uri.len());
                assert(r@ == uri@);
                r
            }
        },
        None => {
            let r = slice_of(uri, 0, uri.len());
            assert(r@ == uri@);
            r
        },
    }
}

/// Whether two addresses name the same page, allowing for WebKit adding the
/// trailing slash to an empty path (`https://example.org` →
/// `https://example.org/`).
pub fn same_address(a: &str, b: &str) -> (r: bool)
    ensures
        r == same_address_spec(a@, b@),
{
    let a = with_slash(&chars_of(a));
    let b = with_slash(&chars_of(b));
    same(&lowered(&a), &lowered(&b))
}

/// `https://www.example.org/a` → `example.org`; empty for local pages.
pub fn host_of(uri: &str) -> (r: String)
    ensures
        r@ == host_of_spec(uri@),
{
    match split_once_in(&chars_of(uri), &chars_of("://")) {
        Some((scheme, rest)) => {
            if same(&scheme, &chars_of("http")) || same(&scheme, &chars_of("https")) {
                let host = before_any_in(&rest, &chars_of("/?#:"));
                let www = chars_of("www.");
                let host = if starts(&host, &www) {
                    let h = slice_of(&host, www.len(), host.len());
                    assert(h@ == host@.skip(www@.len() as int));
                    h
                } else {
                    host
                };
                string_of(&lowered(&host))
            } else {
                String::new()
            }
        },
        None => String::new(),
    }
}

pub fn security(uri: &str) -> (r: Security)
    ensures
        r == security_spec(uri@),
{
    let lower = lowered(&chars_of(uri));
    if starts(&lower, &chars_of("https://")) {
        Security::Secure
    } else if starts(&lower, &chars_of("http://")) {
        Security::NotSecure
    } else {
        Security::Local
    }
}

fn hex_of(b: u8) -> (r: Option<u8>)
    ensures
        r == hex_value(b),
{
    if 48 <= b && b <= 57 {
        Some(b - 48)
    } else if 97 <= b && b <= 102 {
        Some(b - 87)
    } else if 65 <= b && b <= 70 {
        Some(b - 55)
    } else {
        None
    }
}

fn decode_percents(bytes: &[u8]) -> (r: Vec<u8>)
    ensures
        r@ == percent_decode(bytes@),
{
    let mut out: Vec<u8> = Vec::new();
    let mut i: usize = 0;
    assert(bytes@.skip(0) == bytes@);
    while i < bytes.len()
        invariant
            0 <= i <= bytes@.len(),
            out@ + percent_decode(bytes@.skip(i as int)) == percent_decode(bytes@),
        decreases bytes.len() - i,
    {
        let ghost rest = bytes@.skip(i as int);
        let n = bytes.len();
        if bytes[i] == 37 && n - i >= 3 {
            match (hex_of(bytes[i + 1]), hex_of(bytes[i + 2])) {
                (Some(high), Some(low)) => {
                    assert(rest[1] == bytes@[i + 1] && rest[2] == bytes@[i + 2]);
                    assert(rest.skip(3) == bytes@.skip(i + 3));
                    let ghost before = out@;
                    out.push(high * 16 + low);
                    assert(out@ + percent_decode(bytes@.skip(i + 3)) == before + (seq![
                        (high * 16 + low) as u8,
                    ] + percent_decode(bytes@.skip(i + 3))));
                    i += 3;
                    continue ;
                },
                _ => {},
            }
        }
        assert(rest[0] == bytes@[i as int]);
        assert(rest.skip(1) == bytes@.skip(i + 1));
        let ghost before = out@;
        out.push(bytes[i]);
        assert(out@ + percent_decode(bytes@.skip(i + 1)) == before + (seq![bytes@[i as int]]
            + percent_decode(bytes@.skip(i + 1))));
        i += 1;
    }
    assert(bytes@.skip(i as int).len() == 0);
    out
}

/// Percent-decoding, for text that arrived inside an address.
pub fn unescape(text: &str) -> (r: String)
    ensures
        r@ == unescape_spec(text@),
        valid_utf8(percent_decode(encode_utf8(text@))) ==> r@ == decode_utf8(
            percent_decode(encode_utf8(text@)),
        ),
        !text@.contains('%') ==> r@ == text@,
{
    let bytes = text.as_bytes();
    let out = decode_percents(bytes);
    proof {
        if !text@.contains('%') {
            lemma_plain_bytes(text@);
            lemma_percent_decode_plain(encode_utf8(text@));
            vstd::utf8::encode_utf8_valid_utf8(text@);
            vstd::utf8::encode_utf8_decode_utf8(text@);
        }
    }
    from_utf8_lossy(out.as_slice())
}

/// No character but `%` is written with the byte `%` in UTF-8.
proof fn lemma_scalar_plain(c: char)
    requires
        c != '%',
    ensures
        forall|j: int|
            0 <= j < encode_scalar(c as u32).len() ==> #[trigger] encode_scalar(c as u32)[j] != 37,
{
    let v = c as u32;
    if has_width_1_encoding(v) {
        assert((v & 0x7F) as u8 == v) by (bit_vector)
            requires
                v <= 0x7F,
        ;
    } else {
        let a = ((v >> 6) & 0x1F) as u8;
        let b = ((v >> 12) & 0x0F) as u8;
        let d = ((v >> 18) & 0x7) as u8;
        let e = (v & 0x3F) as u8;
        let f = ((v >> 6) & 0x3F) as u8;
        let g = ((v >> 12) & 0x3F) as u8;
        assert((0xC0 | a) != 37u8) by (bit_vector);
        assert((0xE0 | b) != 37u8) by (bit_vector);
        assert((0xF0 | d) != 37u8) by (bit_vector);
        assert((0x80 | e) != 37u8) by (bit_vector);
        assert((0x80 | f) != 37u8) by (bit_vector);
        assert((0x80 | g) != 37u8) by (bit_vector);
    }
}

/// Text without `%` has no byte `%` in UTF-8.
proof fn lemma_plain_bytes(text: Seq<char>)
    requires
        !text.contains('%'),
    ensures
        forall|j: int| 0 <= j < encode_utf8(text).len() ==> #[trigger] encode_utf8(text)[j] != 37,
    decreases text.len(),
{
    if text.len() > 0 {
        assert(text[0] != '%') by {
            if text[0] == '%' {
                assert(text.contains('%'));
            }
        }
        assert(!text.drop_first().contains('%')) by {
            if text.drop_first().contains('%') {
                let k = choose|k: int| 0 <= k < text.drop_first().len() && text.drop_first()[k] == '%';
                assert(text[k + 1] == '%');
            }
        }
        lemma_scalar_plain(text[0]);
        lemma_plain_bytes(text.drop_first());
        let head = encode_scalar(text[0] as u32);
        let tail = encode_utf8(text.drop_first());
        assert(encode_utf8(text) == head + tail);
        assert forall|j: int| 0 <= j < encode_utf8(text).len() implies #[trigger] encode_utf8(text)[j]
            != 37 by {
            if j < head.len() {
                assert(encode_utf8(text)[j] == head[j]);
            } else {
                assert(encode_utf8(text)[j] == tail[j - head.len()]);
            }
        }
    }
}

/// Bytes without `%` decode as themselves.
proof fn lemma_percent_decode_plain(bytes: Seq<u8>)
    requires
        forall|j: int| 0 <= j < bytes.len() ==> #[trigger] bytes[j] != 37,
    ensures
        percent_decode(bytes) == bytes,
    decreases bytes.len(),
{
    if bytes.len() > 0 {
        assert forall|j: int| 0 <= j < bytes.skip(1).len() implies #[trigger] bytes.skip(1)[j] != 37 by {
            assert(bytes.skip(1)[j] == bytes[j + 1]);
        }
        lemma_percent_decode_plain(bytes.skip(1));
        assert(bytes[0] != 37);
        assert(seq![bytes[0]] + bytes.skip(1) == bytes);
    }
}

/// A hexadecimal digit in lower case.
pub open spec fn hex_lower(d: u8) -> char {
    if d < 10 {
        ((48 + d) as u8) as char
    } else {
        ((87 + d) as u8) as char
    }
}

/// Every byte written as `%` and two hexadecimal digits, in upper or lower
/// case.
pub open spec fn percent_escaped(bytes: Seq<u8>, upper: bool) -> Seq<char>
    decreases bytes.len(),
{
    if bytes.len() == 0 {
        seq![]
    } else {
        let b = bytes[0];
        let hi = (b / 16) as u8;
        let lo = (b % 16) as u8;
        seq!['%', if upper { hex_upper(hi) } else { hex_lower(hi) }, if upper {
            hex_upper(lo)
        } else {
            hex_lower(lo)
        }] + percent_escaped(bytes.drop_first(), upper)
    }
}

/// An ASCII character is its own byte.
proof fn lemma_ascii_scalar(x: u8)
    requires
        x <= 0x7F,
    ensures
        encode_scalar((x as char) as u32) == seq![x],
{
    let v = (x as char) as u32;
    assert(v == x);
    assert((v & 0x7F) as u8 == v) by (bit_vector)
        requires
            v <= 0x7F,
    ;
}

proof fn lemma_hex_digit(d: u8, upper: bool)
    requires
        d < 16,
    ensures
        ({
            let c = if upper { hex_upper(d) } else { hex_lower(d) };
            &&& (c as u32) <= 0x7F
            &&& encode_scalar(c as u32) == seq![(c as u32) as u8]
            &&& hex_value((c as u32) as u8) == Some(d)
        }),
{
    let x: u8 = if d < 10 {
        (48 + d) as u8
    } else if upper {
        (55 + d) as u8
    } else {
        (87 + d) as u8
    };
    lemma_ascii_scalar(x);
    assert(((x as char) as u32) as u8 == x);
}

/// Decoding what escaping every byte wrote gives the bytes back.
proof fn lemma_escaped_decode(bytes: Seq<u8>, upper: bool)
    ensures
        percent_decode(encode_utf8(percent_escaped(bytes, upper))) == bytes,
    decreases bytes.len(),
{
    if bytes.len() > 0 {
        let b = bytes[0];
        let hi = (b / 16) as u8;
        let lo = (b % 16) as u8;
        let c1 = if upper { hex_upper(hi) } else { hex_lower(hi) };
        let c2 = if upper { hex_upper(lo) } else { hex_lower(lo) };
        let rest = percent_escaped(bytes.drop_first(), upper);
        let t = percent_escaped(bytes, upper);
        assert(t == seq!['%', c1, c2] + rest);
        lemma_ascii_scalar(37);
        assert(('%' as u32) == 37);
        assert(((37u8 as char) as u32) == 37);
        lemma_hex_digit(hi, upper);
        lemma_hex_digit(lo, upper);
        assert(t.drop_first() == seq![c1, c2] + rest);
        assert(t.drop_first().drop_first() == seq![c2] + rest);
        assert(t.drop_first().drop_first().drop_first() == rest);
        let e = encode_utf8(t);
        let b1 = (c1 as u32) as u8;
        let b2 = (c2 as u32) as u8;
        let t1 = t.drop_first();
        let t2 = t1.drop_first();
        assert(t[0] == '%' && t1[0] == c1 && t2[0] == c2);
        assert('%' == (37u8 as char));
        assert(encode_scalar(t[0] as u32) == seq![37u8]);
        assert(encode_scalar(t1[0] as u32) == seq![b1]);
        assert(encode_scalar(t2[0] as u32) == seq![b2]);
        assert(encode_utf8(t2) == seq![b2] + encode_utf8(rest));
        assert(encode_utf8(t1) == seq![b1] + encode_utf8(t2));
        assert(e == seq![37u8] + encode_utf8(t1));
        assert(e == seq![37u8] + (seq![b1] + (seq![b2] + encode_utf8(rest))));
        assert(e == seq![37u8, b1, b2] + encode_utf8(rest));
        lemma_escaped_decode(bytes.drop_first(), upper);
        assert(e.skip(3) == encode_utf8(rest));
        assert(e[0] == 37 && e[1] == b1 && e[2] == b2);
        assert((hi * 16 + lo) as u8 == b);
        assert(percent_decode(e) == seq![b] + bytes.drop_first());
        assert(seq![b] + bytes.drop_first() == bytes);
    }
}

/// Text with every byte of its UTF-8 written as `%` and two hexadecimal
/// digits, in either case, unescapes to the text again: what the bytes
/// decode to is valid UTF-8 and decodes to the text, so `unescape` gives it
/// back.
pub proof fn escaping_every_byte_comes_back(text: Seq<char>, upper: bool)
    ensures
        ({
            let decoded = percent_decode(encode_utf8(percent_escaped(encode_utf8(text), upper)));
            valid_utf8(decoded) && decode_utf8(decoded) == text
        }),
{
    lemma_escaped_decode(encode_utf8(text), upper);
    vstd::utf8::encode_utf8_valid_utf8(text);
    vstd::utf8::encode_utf8_decode_utf8(text);
}

/// Letters, digits, hyphens and dots: what a typed name is made of.
pub open spec fn name_char(c: char) -> bool {
    is_ascii_alnum(c) || c == '-' || c == '.'
}

proof fn lemma_no_char(s: Seq<char>, c: char)
    requires
        forall|i: int| 0 <= i < s.len() ==> name_char(#[trigger] s[i]),
        !name_char(c),
    ensures
        find(s, seq![c]) == -1,
        rfind(s, seq![c]) == -1,
        find_any(s, "/?#"@) == -1,
{
    let pat = seq![c];
    assert forall|i: int| 0 <= i < s.len() implies !#[trigger] is_match_at(s, pat)(i) by {
        if matches_at(s, pat, i) {
            assert(s.subrange(i, i + 1)[0] == s[i]);
        }
    }
    lemma_first_from_is(s.len() as int, is_match_at(s, pat), 0, -1);
    lemma_last_before_is(is_match_at(s, pat), s.len() as int, -1);
    reveal_strlit("/?#");
    assert forall|i: int| 0 <= i < s.len() implies !#[trigger] is_one_of_at(s, "/?#"@)(i) by {
        if "/?#"@.contains(s[i]) {
            let k = choose|k: int| 0 <= k < 3 && "/?#"@[k] == s[i];
            assert(name_char(s[i]));
        }
    }
    lemma_first_from_is(s.len() as int, is_one_of_at(s, "/?#"@), 0, -1);
}

/// A name of dotted labels opens as an address: typed text made only of
/// letters, digits, hyphens and dots, whose pieces between the dots are two
/// or more, none of them empty, each of letters, digits and hyphens, and
/// whose last piece is two or more letters (a country's `uk`, `de` as much
/// as `org`), is tried over HTTPS with plain HTTP to fall back to, and is
/// never searched for.
pub proof fn dotted_names_open_as_addresses(text: Seq<char>)
    requires
        forall|i: int| 0 <= i < text.len() ==> name_char(#[trigger] text[i]),
        split(text, '.').len() >= 2,
        forall|i: int|
            0 <= i < split(text, '.').len() ==> (#[trigger] split(text, '.')[i]).len() > 0
                && forall|j: int|
                0 <= j < split(text, '.')[i].len() ==> is_ascii_alnum(#[trigger] split(text, '.')[i][j])
                    || split(text, '.')[i][j] == '-',
        split(text, '.').last().len() >= 2,
        forall|j: int|
            0 <= j < split(text, '.').last().len() ==> is_ascii_alpha(
                #[trigger] split(text, '.').last()[j],
            ),
    ensures
        resolve_spec(text) == Some(("https://"@ + text, Some("http://"@ + text))),
{
    let labels = split(text, '.');
    if text.len() == 0 {
        assert(find_char(text, '.') == -1);
        assert(labels.len() == 1);
    }
    assert(text.len() > 0);
    // Nothing to trim.
    assert(!is_white(text[0]));
    lemma_first_from_is(text.len() as int, is_dark_at(text), 0, 0);
    assert(text.skip(0) == text);
    assert(!is_white(text[text.len() - 1]));
    lemma_last_before_is(is_dark_at(text), text.len() as int, text.len() - 1);
    assert(text.take(text.len() as int) == text);
    assert(trim(text) == text);
    // No scheme, no path, no port, no brackets.
    reveal_strlit(":");
    reveal_strlit("[");
    assert(":"@ == seq![':']);
    lemma_no_char(text, ':');
    assert(split_once(text, ":"@) is None);
    assert(rsplit_once(text, ":"@) is None);
    assert(before_any(text, "/?#"@) == text);
    assert(!has_white(text));
    assert(!starts_with(text, "["@)) by {
        if starts_with(text, "["@) {
            assert(text.take(1)[0] == text[0]);
        }
    }
    // The name is real: its last label is letters, so not all labels are
    // numbers.
    let last = labels.last();
    assert(!all_digits(last)) by {
        assert(is_ascii_alpha(last[0]));
    }
    assert(labels[labels.len() - 1] == last);
    assert forall|i: int| 0 <= i < labels.len() implies label_chars(#[trigger] labels[i]) by {
        assert(labels[i].len() > 0);
    }
    assert(!(forall|i: int| 0 <= i < labels.len() ==> all_digits(#[trigger] labels[i])));
    assert(host_looks_real(text));
    assert(looks_like_address_spec(text));
}

} // verus!
