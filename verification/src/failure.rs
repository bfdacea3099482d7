//! What a tab shows when a page can't be opened.
//!
//! An engine's own words can mislead: a server that never answers is reported
//! by one as "Operation was cancelled" and by another as a bare error number.
//! This says what happened in plain words, quietly, with a way to try again.
//!
//! The shell classifies its engine's error into a `Reason`, and hands the
//! template in, since each platform carries its files differently.

use vstd::prelude::*;

use crate::text::{
    before_any, before_any_in, chars_of, concat_map, lemma_concat_map_all, lemma_concat_map_take,
    push_str, replace, replaced, rsplit_once, rsplit_once_in, split_once,
    split_once_in, string_of,
};

verus! {

/// Why a page didn't open, in the terms a reader cares about.
#[derive(Clone, Debug, PartialEq, Eq)]
pub enum Reason {
    /// The server accepted nothing or said nothing before the network gave up.
    NoAnswer,
    /// The connection was refused or dropped.
    Refused,
    /// The name doesn't resolve.
    NotFound,
    /// This machine has no route to the network.
    Offline,
    /// The connection couldn't be trusted: a certificate that doesn't match,
    /// has expired, or isn't signed by anyone known.
    Untrusted,
    /// Anything else, with the engine's own words.
    Other(String),
}

/// The title and the line under it, for a reason and a host.
pub open spec fn words_spec(reason: Reason, host: Seq<char>) -> (Seq<char>, Seq<char>) {
    match reason {
        Reason::NoAnswer => (
            host + " didn’t answer"@,
            "It may be busy, or not reachable from this network."@,
        ),
        Reason::Refused => (
            host + " closed the connection"@,
            "The site may be down for now."@,
        ),
        Reason::NotFound => (
            "Couldn’t find "@ + host,
            "The address may be mistyped, or the name no longer in use."@,
        ),
        Reason::Offline => (
            "Not connected"@,
            "Glimmerwood can’t reach the network at the moment."@,
        ),
        Reason::Untrusted => (
            "Can’t make a private connection to "@ + host,
            "The certificate it offered doesn’t check out, so what you send could be read by someone else."@,
        ),
        Reason::Other(message) => ("Couldn’t open "@ + host, message@),
    }
}

fn string_from(v: &Vec<char>) -> (s: String)
    ensures
        s@ == v@,
{
    string_of(v)
}

impl Reason {
    pub fn words(&self, host: &str) -> (r: (String, String))
        ensures
            (r.0@, r.1@) == words_spec(*self, host@),
    {
        let mut title: Vec<char> = Vec::new();
        match self {
            Reason::NoAnswer => {
                push_str(&mut title, host);
                push_str(&mut title, " didn’t answer");
                (string_from(&title), "It may be busy, or not reachable from this network.".to_owned())
            },
            Reason::Refused => {
                push_str(&mut title, host);
                push_str(&mut title, " closed the connection");
                (string_from(&title), "The site may be down for now.".to_owned())
            },
            Reason::NotFound => {
                push_str(&mut title, "Couldn’t find ");
                push_str(&mut title, host);
                (
                    string_from(&title),
                    "The address may be mistyped, or the name no longer in use.".to_owned(),
                )
            },
            Reason::Offline => (
                "Not connected".to_owned(),
                "Glimmerwood can’t reach the network at the moment.".to_owned(),
            ),
            Reason::Untrusted => {
                push_str(&mut title, "Can’t make a private connection to ");
                push_str(&mut title, host);
                (
                    string_from(&title),
                    "The certificate it offered doesn’t check out, so what you send could be read by someone else.".to_owned(),
                )
            },
            Reason::Other(message) => {
                push_str(&mut title, "Couldn’t open ");
                push_str(&mut title, host);
                (string_from(&title), message.clone())
            },
        }
    }
}

/// The host an address names: what is between the scheme and the path,
/// without any user name; "This page" when there is none.
pub open spec fn host_spec(uri: Seq<char>) -> Seq<char> {
    let rest = match split_once(uri, "://"@) {
        Some((_, rest)) => rest,
        None => uri,
    };
    let authority = before_any(rest, "/?#"@);
    let host = match rsplit_once(authority, "@"@) {
        Some((_, host)) => host,
        None => authority,
    };
    if host.len() == 0 {
        "This page"@
    } else {
        host
    }
}

pub fn host(uri: &str) -> (r: String)
    ensures
        r@ == host_spec(uri@),
{
    let v = chars_of(uri);
    let rest = match split_once_in(&v, &chars_of("://")) {
        Some((_, rest)) => rest,
        None => v,
    };
    let authority = before_any_in(&rest, &chars_of("/?#"));
    let host = match rsplit_once_in(&authority, &chars_of("@")) {
        Some((_, host)) => host,
        None => authority,
    };
    if host.len() == 0 {
        "This page".to_owned()
    } else {
        string_of(&host)
    }
}

/// A character as it may stand in HTML text or an attribute.
pub open spec fn escape_char(c: char) -> Seq<char> {
    if c == '&' {
        "&amp;"@
    } else if c == '<' {
        "&lt;"@
    } else if c == '>' {
        "&gt;"@
    } else if c == '"' {
        "&quot;"@
    } else if c == '\'' {
        "&#39;"@
    } else {
        seq![c]
    }
}

pub open spec fn escape_spec(text: Seq<char>) -> Seq<char> {
    concat_map(text, |c: char| escape_char(c))
}

fn escape_chars(v: &[char]) -> (r: Vec<char>)
    ensures
        r@ == escape_spec(v@),
{
    let ghost f = |c: char| escape_char(c);
    let mut out: Vec<char> = Vec::new();
    let mut i: usize = 0;
    while i < v.len()
        invariant
            0 <= i <= v@.len(),
            f == (|c: char| escape_char(c)),
            out@ == concat_map(v@.take(i as int), f),
        decreases v.len() - i,
    {
        proof {
            lemma_concat_map_take(v@, f, i as int);
        }
        let c = v[i];
        if c == '&' {
            push_str(&mut out, "&amp;");
        } else if c == '<' {
            push_str(&mut out, "&lt;");
        } else if c == '>' {
            push_str(&mut out, "&gt;");
        } else if c == '"' {
            push_str(&mut out, "&quot;");
        } else if c == '\'' {
            push_str(&mut out, "&#39;");
        } else {
            out.push(c);
        }
        i += 1;
    }
    proof {
        lemma_concat_map_all(v@, f);
    }
    out
}

pub fn escape(text: &str) -> (r: String)
    ensures
        r@ == escape_spec(text@),
{
    string_of(&escape_chars(&chars_of(text)))
}

/// The page for `uri`: the template with its title, detail and address filled
/// in, each escaped.
pub open spec fn fill_spec(template: Seq<char>, uri: Seq<char>, reason: Reason) -> Seq<char> {
    let (title, detail) = words_spec(reason, host_spec(uri));
    replace(
        replace(
            replace(template, "{{title}}"@, escape_spec(title)),
            "{{detail}}"@,
            escape_spec(detail),
        ),
        "{{uri}}"@,
        escape_spec(uri),
    )
}

/// The page for `uri`, built from the bundled template.
pub fn fill(template: &str, uri: &str, reason: &Reason) -> (r: String)
    ensures
        r@ == fill_spec(template@, uri@, *reason),
{
    let (title, detail) = reason.words(host(uri).as_str());
    let t = chars_of(template);
    let title_key = chars_of("{{title}}");
    let detail_key = chars_of("{{detail}}");
    let uri_key = chars_of("{{uri}}");
    proof {
        reveal_strlit("{{title}}");
        reveal_strlit("{{detail}}");
        reveal_strlit("{{uri}}");
    }
    let a = replaced(&t, &title_key, &chars_of(escape(title.as_str()).as_str()));
    let b = replaced(&a, &detail_key, &chars_of(escape(detail.as_str()).as_str()));
    let c = replaced(&b, &uri_key, &chars_of(escape(uri).as_str()));
    string_of(&c)
}

} // verus!
