//! The calls out of this crate. What is stated here is not proved: it is what
//! the documentation of the called functions says.

use vstd::prelude::*;
use vstd::utf8::is_ascii_chars;
use crate::chars;
use crate::json::JsonView;
use crate::models::{opt_view, Timestamp};
use crate::patterns;
use crate::patterns::{DOTTED, JSON_FENCE, NON_SLUG, PLAIN_FENCE, QUOTED};

verus! {

/// Group 1 of the first match, by `regex::Regex::new`, `Regex::captures` and
/// `Captures::get`. The expression is one of the two for fenced blocks; the
/// match is the leftmost one, in which `\s*` takes as much and `.*?` as little
/// as it can.
#[verifier::external_body]
pub(crate) fn first_group(pattern: &str, text: &str) -> (r: Option<String>)
    requires
        pattern@ == JSON_FENCE@ || pattern@ == PLAIN_FENCE@,
    ensures
        pattern@ == JSON_FENCE@ ==> opt_view(r) == patterns::json_fence(text@),
        pattern@ == PLAIN_FENCE@ ==> opt_view(r) == patterns::plain_fence(text@),
{
    let re = regex::Regex::new(pattern).ok()?;
    let found = re.captures(text)?;
    found.get(1).map(|m| m.as_str().to_string())
}

/// Group 1 of every match of a regular expression in a text, as
/// `regex::Regex::captures_iter` finds them.
pub uninterp spec fn regex_groups(pattern: Seq<char>, text: Seq<char>) -> Seq<Seq<char>>;

/// Group 1 of every match in turn, by `regex::Regex::new` and
/// `Regex::captures_iter`; each match is looked for behind the one before it.
/// The expression is the one for snippets in backticks or the one for dotted
/// identifiers. Which characters outside ASCII belong to an identifier is left
/// to the crate's Unicode tables.
#[verifier::external_body]
pub(crate) fn all_groups(pattern: &str, text: &str) -> (r: Vec<String>)
    requires
        pattern@ == QUOTED@ || pattern@ == DOTTED@,
    ensures
        chars::views(r@) == regex_groups(pattern@, text@),
        pattern@ == QUOTED@ ==> chars::views(r@) == patterns::quoted(text@),
        pattern@ == DOTTED@ && is_ascii_chars(text@) ==> chars::views(r@) == patterns::dotted_from(
            text@,
            0,
        ),
{
    let re = regex::Regex::new(pattern).unwrap();
    re.captures_iter(text).map(|found| found[1].to_string()).collect()
}

/// Every match replaced, by `regex::Regex::new` and `Regex::replace_all`. The
/// expression is the one for runs of characters that no slug holds, and each
/// run becomes one dash.
#[verifier::external_body]
pub(crate) fn replace_all(pattern: &str, text: &str, with: &str) -> (r: String)
    requires
        pattern@ == NON_SLUG@,
        with@ == seq!['-'],
    ensures
        r@ == patterns::dashed(text@),
{
    regex::Regex::new(pattern).unwrap().replace_all(text, with).into_owned()
}

/// `s` in lower case, as `str::to_lowercase` of std gives it.
pub uninterp spec fn lowercase(s: Seq<char>) -> Seq<char>;

/// `c` in lower case, for an ASCII character.
pub open spec fn ascii_lower(c: char) -> char {
    if 'A' <= c <= 'Z' {
        (c as u32 + 32) as char
    } else {
        c
    }
}

/// `str::to_lowercase` of std maps each ASCII character by itself; what it
/// makes of other characters is a matter of Unicode's tables.
pub assume_specification[ str::to_lowercase ](s: &str) -> (r: String)
    ensures
        r@ == lowercase(s@),
        is_ascii_chars(s@) ==> r@ == s@.map_values(|c: char| ascii_lower(c)),
;

/// `s` in upper case, as `str::to_uppercase` of std gives it.
pub uninterp spec fn uppercase(s: Seq<char>) -> Seq<char>;

/// `c` in upper case, for an ASCII character.
pub open spec fn ascii_upper(c: char) -> char {
    if 'a' <= c <= 'z' {
        (c as u32 - 32) as char
    } else {
        c
    }
}

/// `str::to_uppercase` of std maps each ASCII character by itself; what it
/// makes of other characters is a matter of Unicode's tables.
pub assume_specification[ str::to_uppercase ](s: &str) -> (r: String)
    ensures
        r@ == uppercase(s@),
        is_ascii_chars(s@) ==> r@ == s@.map_values(|c: char| ascii_upper(c)),
;

/// The time now, by `chrono::Utc::now`, in whole seconds and nanoseconds, which
/// are less than a second. Which time it is nothing can be said of. That
/// function panics where the system clock stands before 1970.
#[verifier::external_body]
pub(crate) fn current_time() -> (r: Timestamp)
    ensures
        r.nanos < 1_000_000_000,
{
    let now = chrono::Utc::now();
    Timestamp { seconds: now.timestamp(), nanos: now.timestamp_subsec_nanos() }
}

/// A parsed JSON document of `serde_json`.
#[verifier::external_type_specification]
#[verifier::external_body]
pub struct ExValue(serde_json::Value);

/// The tree of values that a parsed document holds.
pub uninterp spec fn json_tree(v: serde_json::Value) -> JsonView;

/// What `serde_json::from_str` makes of a text: a tree of values, or nothing
/// where the text is no JSON.
pub uninterp spec fn parsed_json(text: Seq<char>) -> Option<JsonView>;

/// Parses a JSON document by `serde_json::from_str`.
#[verifier::external_body]
pub(crate) fn parse_document(text: &str) -> (r: Option<serde_json::Value>)
    ensures
        parsed_json(text@) == (match r {
            Some(v) => Some(json_tree(v)),
            None => None,
        }),
{
    serde_json::from_str::<serde_json::Value>(text).ok()
}

/// One value of a parsed document, its children still unopened.
pub(crate) enum JsonNode {
    Null,
    Bool(bool),
    Number,
    Str(String),
    Array(Vec<serde_json::Value>),
    Object(Vec<(String, serde_json::Value)>),
}

impl JsonNode {
    /// The tree below the value.
    pub(crate) open spec fn tree(self) -> JsonView {
        match self {
            JsonNode::Null => JsonView::Null,
            JsonNode::Bool(b) => JsonView::Bool(b),
            JsonNode::Number => JsonView::Number,
            JsonNode::Str(s) => JsonView::Str(s@),
            JsonNode::Array(items) => JsonView::Array(
                items@.map_values(|v: serde_json::Value| json_tree(v)),
            ),
            JsonNode::Object(entries) => JsonView::Object(
                entries@.map_values(|e: (String, serde_json::Value)| e.0@),
                entries@.map_values(|e: (String, serde_json::Value)| json_tree(e.1)),
            ),
        }
    }
}

/// Opens one `serde_json::Value`: tells its variants apart and hands out what
/// the variant holds, the entries of an object in the order of its map.
#[verifier::external_body]
pub(crate) fn open_value(v: serde_json::Value) -> (r: JsonNode)
    ensures
        r.tree() == json_tree(v),
{
    match v {
        serde_json::Value::Null => JsonNode::Null,
        serde_json::Value::Bool(b) => JsonNode::Bool(b),
        serde_json::Value::Number(_) => JsonNode::Number,
        serde_json::Value::String(s) => JsonNode::Str(s),
        serde_json::Value::Array(items) => JsonNode::Array(items),
        serde_json::Value::Object(map) => JsonNode::Object(map.into_iter().collect()),
    }
}

} // verus!
