//! Upper and lower case.

use vstd::prelude::*;
use vstd::utf8::is_ascii_chars;
use crate::outside::{ascii_lower, ascii_upper, lowercase, uppercase};

verus! {

/// `s` in lower case. An ASCII text is mapped character by character.
pub open spec fn lower(s: Seq<char>) -> Seq<char> {
    if is_ascii_chars(s) {
        s.map_values(|c: char| ascii_lower(c))
    } else {
        lowercase(s)
    }
}

/// `s` in upper case. An ASCII text is mapped character by character.
pub open spec fn upper(s: Seq<char>) -> Seq<char> {
    if is_ascii_chars(s) {
        s.map_values(|c: char| ascii_upper(c))
    } else {
        uppercase(s)
    }
}

/// Each text in lower case.
pub open spec fn lower_all(texts: Seq<Seq<char>>) -> Seq<Seq<char>> {
    texts.map_values(|s: Seq<char>| lower(s))
}

/// `s` in lower case.
pub fn to_lower(s: &str) -> (r: String)
    ensures
        r@ == lower(s@),
{
    s.to_lowercase()
}

/// `s` in upper case.
pub fn to_upper(s: &str) -> (r: String)
    ensures
        r@ == upper(s@),
{
    s.to_uppercase()
}

} // verus!
