//! Carrying the chrome's files into a binary.
//!
//! GTK has GResource for this and the other platforms have nothing like it,
//! so their builds write the files into a table the binary embeds. The list
//! comes from the same GResource manifest the GTK build uses, so no platform
//! can quietly grow or lose a file the others have never heard of. Reading
//! the manifest and writing the table are the build's; which file each line
//! names, and where it is served, are read here.

use vstd::prelude::*;

use crate::pages::strip_prefix_of;
use crate::text::{
    before_any, before_any_in, chars_of, ends, ends_with, slice_of, split_once, split_once_in,
    string_of, strip_prefix, trim, trimmed,
};

verus! {

pub open spec fn strip_suffix(s: Seq<char>, p: Seq<char>) -> Option<Seq<char>> {
    if ends_with(s, p) {
        Some(s.take(s.len() - p.len()))
    } else {
        None
    }
}

/// What a line of the manifest names: where the file is served, and where
/// it is read from.
pub open spec fn entry_spec(line: Seq<char>) -> Option<(Seq<char>, Seq<char>)> {
    match strip_prefix(trim(line), "<file"@) {
        None => None,
        Some(rest) => match split_once(rest, ">"@) {
            None => None,
            Some((attributes, rest)) => match strip_suffix(rest, "</file>"@) {
                None => None,
                Some(inner) => {
                    let from = trim(inner);
                    let served = match split_once(attributes, "alias=\""@) {
                        Some((_, tail)) => before_any(tail, "\""@),
                        None => from,
                    };
                    Some((served, from))
                },
            },
        },
    }
}

/// `<file alias="chrome/x.js">dist/chrome/x.js</file>` → served as
/// `chrome/x.js`, read from `dist/chrome/x.js`. Without an alias, both are the
/// same path.
pub fn entry(line: &str) -> (r: Option<(String, String)>)
    ensures
        match r {
            Some((served, from)) => entry_spec(line@) == Some((served@, from@)),
            None => entry_spec(line@) is None,
        },
{
    let line = trimmed(&chars_of(line));
    let rest = match strip_prefix_of(&line, &chars_of("<file")) {
        Some(rest) => rest,
        None => return None,
    };
    let (attributes, rest) = match split_once_in(&rest, &chars_of(">")) {
        Some(parts) => parts,
        None => return None,
    };
    let close = chars_of("</file>");
    if !ends(&rest, &close) {
        return None;
    }
    let inner = slice_of(&rest, 0, rest.len() - close.len());
    assert(inner@ == rest@.take(rest@.len() - close@.len()));
    let from = trimmed(&inner);
    let served = match split_once_in(&attributes, &chars_of("alias=\"")) {
        Some((_, tail)) => before_any_in(&tail, &chars_of("\"")),
        None => slice_of(&from, 0, from.len()),
    };
    assert(from@.subrange(0, from@.len() as int) == from@);
    Some((string_of(&served), string_of(&from)))
}

} // verus!
