//! The user's bookmarks, as the rest of the library sees them.

use vstd::prelude::*;

verus! {

#[derive(Clone, Debug, PartialEq)]
pub struct Bookmark {
    pub id: i64,
    pub url: String,
    pub title: String,
}

} // verus!
