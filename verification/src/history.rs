//! Where you have been this week, and no longer than that. The database is
//! the shell's; which addresses are worth a line is decided here.

use vstd::prelude::*;

use crate::dose::{in_range, Moment};
use crate::nav::{host_of, host_of_spec};
use crate::pages::{is_local_page, is_local_page_spec};

verus! {

/// How long a page is remembered. Not configurable: a week is what makes it
/// useful for finding something again, and anything longer is an archive.
pub const KEEP_DAYS: i64 = 7;

pub const DAY_MS: i64 = 86_400_000;

#[derive(Clone, Debug, PartialEq, Eq)]
pub struct Visit {
    pub at: i64,
    pub url: String,
    pub title: String,
    pub host: String,
}

/// Glimmerwood's own pages, blank tabs and anything that isn't the web are
/// not places you went.
pub open spec fn worth_keeping_spec(url: Seq<char>) -> bool {
    url.len() > 0 && !is_local_page_spec(url) && host_of_spec(url).len() > 0
}

pub fn worth_keeping(url: &str) -> (r: bool)
    ensures
        r == worth_keeping_spec(url@),
{
    !url.is_empty() && !is_local_page(url) && !host_of(url).as_str().is_empty()
}

/// The row a visit leaves, if the address is worth keeping: the time, the
/// address, the title and the site.
pub fn visit(at: Moment, url: &str, title: &str) -> (r: Option<Visit>)
    ensures
        match r {
            Some(v) => worth_keeping_spec(url@) && v.at == at.ms && v.url@ == url@ && v.title@
                == title@ && v.host@ == host_of_spec(url@),
            None => !worth_keeping_spec(url@),
        },
{
    if !worth_keeping(url) {
        return None;
    }
    Some(Visit { at: at.ms, url: url.to_owned(), title: title.to_owned(), host: host_of(url) })
}

/// A page returned to within the minute replaces its earlier row: rows for
/// the same address from this time on go.
pub fn replaces_from(at: Moment) -> (r: i64)
    requires
        in_range(at),
    ensures
        r == at.ms - 60_000,
{
    at.ms - 60_000
}

/// Where the week, which is all there ever is, begins.
pub fn week_start(now: Moment) -> (r: i64)
    requires
        in_range(now),
    ensures
        r == now.ms - KEEP_DAYS * DAY_MS,
{
    now.ms - KEEP_DAYS * DAY_MS
}

} // verus!
