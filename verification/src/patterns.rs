//! The regular expressions that replies and findings are searched with, and
//! what each of them matches.

use vstd::prelude::*;
use crate::chars;

verus! {

/// A block fenced as JSON: group 1 is what stands between the fences.
pub const JSON_FENCE: &'static str = r"(?s)```json\s*\n(.*?)\n\s*```";

/// A plainly fenced JSON object: group 1 is the object.
pub const PLAIN_FENCE: &'static str = r"(?s)```\s*\n(\{.*?\})\s*\n\s*```";

/// A snippet in backticks: group 1 is the snippet.
pub const QUOTED: &'static str = r"`([^`]+)`";

/// A dotted identifier, with `!`, `?` or `()` after it where they stand there:
/// group 1 is all of it.
pub const DOTTED: &'static str = r"(\w+\.\w+[!?]?(?:\(\))?)";

/// A run of characters that no slug holds.
pub const NON_SLUG: &'static str = r"[^a-z0-9]+";

/// Where a fenced block stands in a text.
pub struct Fence {
    /// Where the opening mark begins.
    pub start: int,
    /// The line end that the opening line ends with.
    pub open: int,
    /// The end of what is fenced, which begins after `open`.
    pub close: int,
    /// Where the closing mark begins.
    pub end: int,
}

/// The closing mark of a fence.
pub open spec fn ticks() -> Seq<char> {
    seq!['`', '`', '`']
}

/// The opening mark of a block fenced as JSON.
pub open spec fn json_mark() -> Seq<char> {
    seq!['`', '`', '`', 'j', 's', 'o', 'n']
}

/// A fence with the opening mark `mark` stands at `m`: white space with a line
/// end follows the opening mark and comes before the closing one.
pub open spec fn is_fence(t: Seq<char>, mark: Seq<char>, m: Fence) -> bool {
    &&& chars::occurs_at(t, mark, m.start)
    &&& m.start + mark.len() <= m.open < m.close <= m.end
    &&& chars::occurs_at(t, ticks(), m.end)
    &&& chars::is_blank(t.subrange(m.start + mark.len(), m.open + 1))
    &&& t[m.open] == '\n'
    &&& chars::is_blank(t.subrange(m.close, m.end))
}

/// A block fenced as JSON stands at `m`: it ends at a line end.
pub open spec fn is_json_fence(t: Seq<char>, m: Fence) -> bool {
    is_fence(t, json_mark(), m) && t[m.close] == '\n' && m.close < m.end
}

/// A plainly fenced object stands at `m`: it begins and ends with its braces.
pub open spec fn is_plain_fence(t: Seq<char>, m: Fence) -> bool {
    &&& is_fence(t, ticks(), m)
    &&& m.open + 3 <= m.close
    &&& t[m.open + 1] == '{'
    &&& t[m.close - 1] == '}'
    &&& t.subrange(m.close, m.end).contains('\n')
}

/// `m` is matched rather than `o`: it begins first; or else its opening line
/// ends last; or else what it fences is not longer.
pub open spec fn is_preferred(m: Fence, o: Fence) -> bool {
    m.start < o.start || (m.start == o.start && (m.open > o.open || (m.open == o.open && m.close
        <= o.close)))
}

/// `m` is the JSON fence that is matched.
pub open spec fn is_first_json_fence(t: Seq<char>, m: Fence) -> bool {
    is_json_fence(t, m) && forall|o: Fence| #[trigger] is_json_fence(t, o) ==> is_preferred(m, o)
}

/// `m` is the plain fence that is matched.
pub open spec fn is_first_plain_fence(t: Seq<char>, m: Fence) -> bool {
    is_plain_fence(t, m) && forall|o: Fence| #[trigger] is_plain_fence(t, o) ==> is_preferred(m, o)
}

/// Group 1 of the first match of [`JSON_FENCE`].
pub open spec fn json_fence(t: Seq<char>) -> Option<Seq<char>> {
    if exists|m: Fence| is_first_json_fence(t, m) {
        let m = choose|m: Fence| is_first_json_fence(t, m);
        Some(t.subrange(m.open + 1, m.close))
    } else {
        None
    }
}

/// Group 1 of the first match of [`PLAIN_FENCE`].
pub open spec fn plain_fence(t: Seq<char>) -> Option<Seq<char>> {
    if exists|m: Fence| is_first_plain_fence(t, m) {
        let m = choose|m: Fence| is_first_plain_fence(t, m);
        Some(t.subrange(m.open + 1, m.close))
    } else {
        None
    }
}

/// Group 1 of each match of [`QUOTED`] from position `i` on.
pub open spec fn quoted_from(t: Seq<char>, i: int) -> Seq<Seq<char>>
    decreases t.len() - i,
    when 0 <= i
{
    match chars::find_from(t, seq!['`'], i) {
        None => Seq::empty(),
        Some(a) => match chars::find_from(t, seq!['`'], a + 1) {
            None => Seq::empty(),
            Some(b) => {
                proof {
                    chars::lemma_find_from(t, seq!['`'], i);
                    chars::lemma_find_from(t, seq!['`'], a + 1);
                }
                if b == a + 1 {
                    quoted_from(t, b)
                } else {
                    seq![t.subrange(a + 1, b)] + quoted_from(t, b + 1)
                }
            },
        },
    }
}

/// Group 1 of each match of [`QUOTED`].
pub open spec fn quoted(t: Seq<char>) -> Seq<Seq<char>> {
    quoted_from(t, 0)
}

/// An ASCII character that `\w` matches.
pub open spec fn is_word_char(c: char) -> bool {
    'a' <= c <= 'z' || 'A' <= c <= 'Z' || '0' <= c <= '9' || c == '_'
}

/// Where the run of word characters that begins at `i` ends.
pub open spec fn word_end(t: Seq<char>, i: int) -> int
    decreases t.len() - i,
{
    if 0 <= i < t.len() && is_word_char(t[i]) {
        word_end(t, i + 1)
    } else {
        i
    }
}

/// A run of word characters is not negative.
pub proof fn lemma_word_end(t: Seq<char>, i: int)
    ensures
        i <= word_end(t, i),
        0 <= i <= t.len() ==> word_end(t, i) <= t.len(),
    decreases t.len() - i,
{
    if 0 <= i < t.len() && is_word_char(t[i]) {
        lemma_word_end(t, i + 1);
    }
}

/// Where the dotted identifier that begins at `i` ends, in an ASCII text.
pub open spec fn dotted_end(t: Seq<char>, i: int) -> Option<int> {
    let dot = word_end(t, i);
    let name = word_end(t, dot + 1);
    if i < dot < t.len() && t[dot] == '.' && dot + 1 < name {
        let mark = if name < t.len() && (t[name] == '!' || t[name] == '?') {
            name + 1
        } else {
            name
        };
        if mark + 1 < t.len() && t[mark] == '(' && t[mark + 1] == ')' {
            Some(mark + 2)
        } else {
            Some(mark)
        }
    } else {
        None
    }
}

/// Group 1 of each match of [`DOTTED`] from position `i` on, in an ASCII text.
pub open spec fn dotted_from(t: Seq<char>, i: int) -> Seq<Seq<char>>
    decreases t.len() - i,
{
    if i < 0 || i >= t.len() {
        Seq::empty()
    } else {
        match dotted_end(t, i) {
            Some(end) => {
                proof {
                    lemma_word_end(t, word_end(t, i) + 1);
                }
                seq![t.subrange(i, end)] + dotted_from(t, end)
            },
            None => dotted_from(t, i + 1),
        }
    }
}

/// A character that a slug holds.
pub open spec fn is_slug_char(c: char) -> bool {
    'a' <= c <= 'z' || '0' <= c <= '9'
}

/// `t` with each match of [`NON_SLUG`], that is each maximal run of other
/// characters, replaced by one dash.
pub open spec fn dashed(t: Seq<char>) -> Seq<char>
    decreases t.len(),
{
    if t.len() == 0 {
        Seq::empty()
    } else {
        let before = dashed(t.drop_last());
        if is_slug_char(t.last()) {
            before.push(t.last())
        } else if t.len() > 1 && !is_slug_char(t[t.len() - 2]) {
            before
        } else {
            before.push('-')
        }
    }
}

/// A character of a name is an ASCII letter, a digit or an underscore.
pub proof fn law_word_characters(c: char)
    ensures
        is_word_char(c) <==> ('a' <= c <= 'z') || ('A' <= c <= 'Z') || ('0' <= c <= '9') || c
            == '_',
{
}

/// A run of word characters ends where the first other character stands.
proof fn lemma_word_end_at(t: Seq<char>, i: int, e: int)
    requires
        0 <= i <= e <= t.len(),
        forall|k: int| i <= k < e ==> is_word_char(#[trigger] t[k]),
        e < t.len() ==> !is_word_char(t[e]),
    ensures
        word_end(t, i) == e,
    decreases e - i,
{
    if i < e {
        assert(is_word_char(t[i]));
        lemma_word_end_at(t, i + 1, e);
    }
}

/// A run of word characters does not go past a character that is none.
proof fn lemma_word_end_before(t: Seq<char>, i: int, e: int)
    requires
        0 <= i <= e < t.len(),
        !is_word_char(t[e]),
    ensures
        word_end(t, i) <= e,
    decreases e - i,
{
    if i < e && is_word_char(t[i]) {
        lemma_word_end_before(t, i + 1, e);
    }
}

/// Nothing is found in a text without dots that does not run into what follows.
proof fn lemma_no_dotted(t: Seq<char>, i: int, n: int)
    requires
        0 <= i <= n <= t.len(),
        forall|k: int| 0 <= k < n ==> t[k] != '.',
        n > 0 ==> !is_word_char(t[n - 1]),
    ensures
        dotted_from(t, i) == dotted_from(t, n),
    decreases n - i,
{
    if i < n {
        lemma_word_end_before(t, i, n - 1);
        lemma_word_end(t, i);
        assert(dotted_end(t, i) is None) by {
            let dot = word_end(t, i);
            assert(t[dot] != '.');
        }
        lemma_no_dotted(t, i + 1, n);
    }
}

/// Two names with a dot between them are found as one, with the mark and the
/// brackets behind them where they stand there; what stands before them does not
/// matter, and the others are found behind them.
pub proof fn law_dotted_name(
    before: Seq<char>,
    first: Seq<char>,
    second: Seq<char>,
    mark: Seq<char>,
    call: Seq<char>,
    after: Seq<char>,
)
    requires
        !before.contains('.'),
        before.len() > 0 ==> !is_word_char(before.last()),
        first.len() > 0,
        forall|k: int| 0 <= k < first.len() ==> is_word_char(#[trigger] first[k]),
        second.len() > 0,
        forall|k: int| 0 <= k < second.len() ==> is_word_char(#[trigger] second[k]),
        mark.len() == 0 || mark == seq!['!'] || mark == seq!['?'],
        call.len() == 0 || call == seq!['(', ')'],
        call.len() == 0 && after.len() > 0 ==> after[0] != '(',
        mark.len() == 0 && call.len() == 0 && after.len() > 0 ==> !is_word_char(after[0])
            && after[0] != '!' && after[0] != '?',
    ensures
        ({
            let name = first + seq!['.'] + second + mark + call;
            let t = before + name + after;
            dotted_from(t, 0) == seq![name] + dotted_from(t, (before.len() + name.len()) as int)
        }),
{
    let name = first + seq!['.'] + second + mark + call;
    let t = before + name + after;
    let n = before.len() as int;
    let dot = n + first.len();
    let stop = dot + 1 + second.len();
    assert forall|k: int| 0 <= k < n implies t[k] != '.' by {
        assert(t[k] == before[k]);
        assert(before.contains(before[k]));
    }
    if n > 0 {
        assert(t[n - 1] == before.last());
    }
    lemma_no_dotted(t, 0, n);
    assert(t[dot] == '.');
    assert forall|k: int| n <= k < dot implies is_word_char(#[trigger] t[k]) by {
        assert(t[k] == first[k - n]);
    }
    assert forall|k: int| dot + 1 <= k < stop implies is_word_char(#[trigger] t[k]) by {
        assert(t[k] == second[k - dot - 1]);
    }
    lemma_word_end_at(t, n, dot);
    if mark.len() > 0 {
        assert(t[stop] == mark[0]);
    } else if call.len() > 0 {
        assert(t[stop] == call[0]);
    } else if after.len() > 0 {
        assert(t[stop] == after[0]);
    }
    lemma_word_end_at(t, dot + 1, stop);
    let end = stop + mark.len();
    if call.len() > 0 {
        assert(t[end] == '(' && t[end + 1] == ')');
    } else if after.len() > 0 {
        assert(t[end] == after[0]);
    }
    assert(dotted_end(t, n) == Some(n + name.len()));
    assert(t.subrange(n, n + name.len()) =~= name);
}

} // verus!
