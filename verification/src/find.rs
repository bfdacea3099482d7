//! Find in page: how a search went, in words for the find bar.

use vstd::prelude::*;

use crate::text::{decimal, decimal_of, push_str, string_of};

verus! {

/// WebKit stops counting here and reports "more than this".
pub const MAX_MATCHES: u32 = 999;

pub open spec fn summary_spec(matches: Option<u32>) -> Seq<char> {
    match matches {
        None => "No matches"@,
        Some(n) => if n == 0 {
            "No matches"@
        } else if n == 1 {
            "One match"@
        } else if n > MAX_MATCHES {
            "Over "@ + decimal(MAX_MATCHES as nat) + " matches"@
        } else {
            decimal(n as nat) + " matches"@
        },
    }
}

/// `matches` is `None` when nothing was found. WebKit reports `u32::MAX` once
/// the count passes `MAX_MATCHES`.
pub fn summary(matches: Option<u32>) -> (r: String)
    ensures
        r@ == summary_spec(matches),
{
    match matches {
        None => string_of(&crate::text::chars_of("No matches")),
        Some(n) => {
            if n == 0 {
                string_of(&crate::text::chars_of("No matches"))
            } else if n == 1 {
                string_of(&crate::text::chars_of("One match"))
            } else if n > MAX_MATCHES {
                let mut out: Vec<char> = Vec::new();
                push_str(&mut out, "Over ");
                let digits = decimal_of(MAX_MATCHES as u64);
                crate::text::push_all(&mut out, &digits);
                push_str(&mut out, " matches");
                string_of(&out)
            } else {
                let mut out = decimal_of(n as u64);
                push_str(&mut out, " matches");
                string_of(&out)
            }
        },
    }
}

} // verus!
