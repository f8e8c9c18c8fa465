//! The JSON that a reply holds without fences, and how it is found.

use vstd::prelude::*;
use crate::chars;
use crate::extract::{
    depth, extracted, in_string, is_value_end, law_bare_value_extracted, lemma_value_start,
    value_start, CHANGES_ANCHOR,
};
use crate::patterns::{json_fence, json_mark, plain_fence, ticks};

verus! {

/// How a piece of JSON is written: as far as brackets and strings go.
pub enum JsonText {
    /// Characters that are neither quotes nor backslashes, nor brackets that
    /// matter.
    Plain(Seq<char>),
    /// A string with this between its quotes.
    Text(Seq<char>),
    /// One piece behind the other.
    Both(Box<JsonText>, Box<JsonText>),
    /// A piece in curly brackets.
    Curly(Box<JsonText>),
    /// A piece in square brackets.
    Square(Box<JsonText>),
}

impl JsonText {
    /// The characters of the piece.
    pub open spec fn written(self) -> Seq<char>
        decreases self,
    {
        match self {
            JsonText::Plain(s) => s,
            JsonText::Text(s) => seq!['"'] + s + seq!['"'],
            JsonText::Both(a, b) => a.written() + b.written(),
            JsonText::Curly(inner) => seq!['{'] + inner.written() + seq!['}'],
            JsonText::Square(inner) => seq!['['] + inner.written() + seq![']'],
        }
    }

    /// The pieces hold what they may hold in a value that begins with `open`:
    /// brackets of that kind stand in pairs, those of the other kind anywhere.
    pub open spec fn wf(self, open: char) -> bool
        decreases self,
    {
        match self {
            JsonText::Plain(s) => !s.contains('"') && !s.contains('\\') && (if open == '{' {
                !s.contains('{') && !s.contains('}')
            } else {
                !s.contains('[') && !s.contains(']')
            }),
            JsonText::Text(s) => is_string_body(s),
            JsonText::Both(a, b) => a.wf(open) && b.wf(open),
            JsonText::Curly(inner) => inner.wf(open),
            JsonText::Square(inner) => inner.wf(open),
        }
    }
}

/// `s` can stand between the quotes of a string: each quote in it follows a
/// backslash, and it does not end with one.
pub open spec fn is_string_body(s: Seq<char>) -> bool {
    &&& forall|i: int| 0 <= i < s.len() && #[trigger] s[i] == '"' ==> i > 0 && s[i - 1] == '\\'
    &&& s.len() > 0 ==> s.last() != '\\'
}

/// The piece stands in `t` at `p`, outside strings.
spec fn stands_at(t: Seq<char>, p: int, piece: Seq<char>) -> bool {
    &&& t.len() > 0
    &&& t[0] == '{' || t[0] == '['
    &&& 0 < p
    &&& p + piece.len() <= t.len()
    &&& t.subrange(p, p + piece.len()) == piece
    &&& !in_string(t, p)
    &&& t[p - 1] != '\\'
}

/// A string leaves the nesting as it was.
proof fn lemma_string(t: Seq<char>, p: int, s: Seq<char>, k: int)
    requires
        stands_at(t, p, seq!['"'] + s + seq!['"']),
        is_string_body(s),
        0 <= k <= s.len(),
    ensures
        in_string(t, p + 1 + k),
        depth(t, p + 1 + k) == depth(t, p),
        forall|j: int| p < j <= p + 1 + k ==> #[trigger] depth(t, j) == depth(t, p),
    decreases k,
{
    let piece = seq!['"'] + s + seq!['"'];
    let there = t.subrange(p, p + piece.len());
    if k == 0 {
        assert(t[p] == there[0]);
    } else {
        lemma_string(t, p, s, k - 1);
        assert(t[p + k] == there[k]);
        assert(there[k] == s[k - 1]);
        assert(t[p + k - 1] == there[k - 1]);
        if s[k - 1] == '"' {
            assert(there[k - 1] == s[k - 2]);
        }
    }
}

/// A piece leaves the nesting as it was and never falls below it.
proof fn lemma_piece(t: Seq<char>, p: int, v: JsonText)
    requires
        stands_at(t, p, v.written()),
        v.wf(t[0]),
    ensures
        !in_string(t, p + v.written().len()),
        t[p + v.written().len() - 1] != '\\',
        depth(t, p + v.written().len()) == depth(t, p),
        forall|j: int| p < j <= p + v.written().len() ==> #[trigger] depth(t, j) >= depth(t, p),
    decreases v, 0int,
{
    let piece = v.written();
    let end = p + piece.len();
    let there = t.subrange(p, end);
    match v {
        JsonText::Plain(s) => {
            lemma_plain(t, p, s, s.len() as int);
        },
        JsonText::Text(s) => {
            lemma_string(t, p, s, s.len() as int);
            assert(t[end - 1] == there[piece.len() - 1]);
            assert(t[end - 2] == there[piece.len() - 2]);
            if s.len() > 0 {
                assert(there[piece.len() - 2] == s.last());
            }
        },
        JsonText::Both(a, b) => {
            let mid = p + a.written().len();
            assert(t.subrange(p, mid) =~= there.subrange(0, a.written().len() as int));
            assert(there.subrange(0, a.written().len() as int) =~= a.written());
            lemma_piece(t, p, *a);
            let al = a.written().len() as int;
            assert(piece.skip(al) =~= b.written());
            assert(t.subrange(mid, end) =~= there.skip(al));
            lemma_piece(t, mid, *b);
        },
        JsonText::Curly(inner) => {
            lemma_bracketed(t, p, *inner, '{', '}');
        },
        JsonText::Square(inner) => {
            lemma_bracketed(t, p, *inner, '[', ']');
        },
    }
}

proof fn lemma_plain(t: Seq<char>, p: int, s: Seq<char>, k: int)
    requires
        stands_at(t, p, s),
        JsonText::Plain(s).wf(t[0]),
        0 <= k <= s.len(),
    ensures
        !in_string(t, p + k),
        t[p + k - 1] != '\\',
        depth(t, p + k) == depth(t, p),
        forall|j: int| p < j <= p + k ==> #[trigger] depth(t, j) == depth(t, p),
    decreases k,
{
    if k > 0 {
        lemma_plain(t, p, s, k - 1);
        assert(t[p + k - 1] == t.subrange(p, p + s.len())[k - 1]);
        assert(s.contains(s[k - 1]));
    }
}

proof fn lemma_bracketed(t: Seq<char>, p: int, inner: JsonText, open: char, close: char)
    requires
        (open == '{' && close == '}') || (open == '[' && close == ']'),
        stands_at(t, p, seq![open] + inner.written() + seq![close]),
        inner.wf(t[0]),
    ensures
        ({
            let end = p + inner.written().len() + 2;
            &&& !in_string(t, end)
            &&& t[end - 1] != '\\'
            &&& depth(t, end) == depth(t, p)
            &&& forall|j: int| p < j <= end ==> #[trigger] depth(t, j) >= depth(t, p)
        }),
    decreases inner, 1int,
{
    let piece = seq![open] + inner.written() + seq![close];
    let end = p + piece.len();
    let there = t.subrange(p, end);
    assert(t[p] == there[0]);
    assert(t[end - 1] == there[piece.len() - 1]);
    assert(t.subrange(p + 1, end - 1) =~= inner.written()) by {
        assert forall|k: int| 0 <= k < inner.written().len() implies t[p + 1 + k]
            == #[trigger] inner.written()[k] by {
            assert(there[k + 1] == t[p + 1 + k]);
        }
    }
    lemma_piece(t, p + 1, inner);
}

/// A value in brackets is closed by its last character and by none before it.
proof fn lemma_value(v: JsonText)
    requires
        v is Curly || v is Square,
        v.wf(if v is Curly {
            '{'
        } else {
            '['
        }),
    ensures
        is_value_end(v.written(), v.written().len() as int),
        v.written()[0] == '{' || v.written()[0] == '[',
{
    let t = v.written();
    let n = t.len() as int;
    let inner = match v {
        JsonText::Curly(inner) => *inner,
        JsonText::Square(inner) => *inner,
        _ => arbitrary(),
    };
    if v is Curly {
        assert(t == seq!['{'] + inner.written() + seq!['}']);
    } else {
        assert(t == seq!['['] + inner.written() + seq![']']);
    }
    assert(!in_string(t, 0));
    assert(!in_string(t, 1));
    assert(depth(t, 0) == 0);
    assert(depth(t, 1) == 1);
    assert(t.subrange(1, n - 1) =~= inner.written());
    lemma_piece(t, 1, inner);
    assert(depth(t, n) == 0);
    assert forall|j: int| 0 < j < n implies #[trigger] depth(t, j) != 0 by {
        if j > 1 {
            assert(depth(t, j) >= depth(t, 1));
        }
    }
}

/// A value in brackets is extracted whole from the prose around it, however its
/// brackets are nested, whatever brackets of the other kind stand in it and
/// whatever stands in its strings: the first value of the reply, or the first
/// that begins an object of changes.
pub proof fn law_json_text_extracted(prose: Seq<char>, v: JsonText, rest: Seq<char>)
    requires
        v is Curly || v is Square,
        v.wf(if v is Curly {
            '{'
        } else {
            '['
        }),
        json_fence(prose + v.written() + rest) is None,
        plain_fence(prose + v.written() + rest) is None,
        chars::find(prose + v.written() + rest, "{\"changes\""@) == Some(prose.len() as int) || (
        chars::find(prose + v.written() + rest, "{\"changes\""@) is None && !prose.contains('{')
            && !prose.contains('[')),
    ensures
        extracted(prose + v.written() + rest) == Some(v.written()),
{
    lemma_value(v);
    law_bare_value_extracted(prose, v.written(), rest);
}

/// A value whose bracket is never closed is not extracted, even if other
/// brackets behind it are.
pub proof fn law_open_value_not_extracted(prose: Seq<char>, open: char, inner: JsonText)
    requires
        open == '{' || open == '[',
        inner.wf(open),
        json_fence(prose + seq![open] + inner.written()) is None,
        plain_fence(prose + seq![open] + inner.written()) is None,
        chars::find(prose + seq![open] + inner.written(), "{\"changes\""@) == Some(
            prose.len() as int,
        ) || (chars::find(prose + seq![open] + inner.written(), "{\"changes\""@) is None
            && !prose.contains('{') && !prose.contains('[')),
    ensures
        extracted(prose + seq![open] + inner.written()) is None,
{
    let t = prose + seq![open] + inner.written();
    let i = prose.len() as int;
    lemma_value_start(t);
    chars::lemma_find(t, seq!['{']);
    chars::lemma_find(t, seq!['[']);
    assert(t[i] == open);
    assert(t.subrange(i, i + 1) =~= seq![open]);
    assert(chars::occurs_at(t, seq![open], i));
    assert(value_start(t) == Some(i)) by {
        let s = value_start(t).unwrap();
        if s < i {
            assert(t[s] == prose[s]);
            assert(prose.contains(prose[s]));
        }
    }
    let u = t.skip(i);
    let n = u.len() as int;
    assert(u =~= seq![open] + inner.written());
    assert(u[0] == open);
    assert(!in_string(u, 0));
    assert(!in_string(u, 1));
    assert(depth(u, 0) == 0);
    assert(depth(u, 1) == 1);
    assert(u.subrange(1, n) =~= inner.written());
    lemma_piece(u, 1, inner);
    assert forall|k: int| !is_value_end(u, k) by {
        if 1 < k <= n {
            assert(depth(u, k) >= depth(u, 1));
        }
    }
}

/// The marks that replies are searched for.
pub proof fn law_marks()
    ensures
        ticks() == "```"@,
        json_mark() == "```json"@,
        CHANGES_ANCHOR@ == "{\"changes\""@,
{
    reveal_strlit("```");
    reveal_strlit("```json");
    assert(ticks() =~= "```"@);
    assert(json_mark() =~= "```json"@);
}

/// What a string says does not matter: another string in its place leaves the
/// value closed at the same place behind it, or not closed.
pub proof fn law_string_text_does_not_matter(
    head: Seq<char>,
    one: Seq<char>,
    other: Seq<char>,
    tail: Seq<char>,
    k: int,
)
    requires
        head.len() > 0,
        head[0] == '{' || head[0] == '[',
        !in_string(head, head.len() as int),
        head.last() != '\\',
        is_string_body(one),
        is_string_body(other),
        0 <= k <= tail.len(),
    ensures
        ({
            let a = head + (seq!['"'] + one + seq!['"']) + tail;
            let b = head + (seq!['"'] + other + seq!['"']) + tail;
            let i = head.len() + one.len() as int + 2 + k;
            let j = head.len() + other.len() as int + 2 + k;
            in_string(a, i) == in_string(b, j) && depth(a, i) == depth(b, j)
        }),
        forall|j: int| 0 <= j <= one.len() ==> #[trigger] in_string(
            head + (seq!['"'] + one + seq!['"']) + tail,
            head.len() + 1 + j,
        ),
    decreases k,
{
    let a = head + (seq!['"'] + one + seq!['"']) + tail;
    let b = head + (seq!['"'] + other + seq!['"']) + tail;
    let h = head.len() as int;
    lemma_behind_string(head, one, tail);
    lemma_behind_string(head, other, tail);
    if k > 0 {
        law_string_text_does_not_matter(head, one, other, tail, k - 1);
        let i = h + one.len() + 2 + k;
        let j = h + other.len() + 2 + k;
        assert(a[i - 1] == tail[k - 1] && b[j - 1] == tail[k - 1]);
        assert(a[0] == head[0] && b[0] == head[0]);
        if k > 1 {
            assert(a[i - 2] == tail[k - 2] && b[j - 2] == tail[k - 2]);
        } else {
            assert(a[i - 2] == '"' && b[j - 2] == '"');
        }
    }
}

proof fn lemma_behind_string(head: Seq<char>, s: Seq<char>, tail: Seq<char>)
    requires
        head.len() > 0,
        head[0] == '{' || head[0] == '[',
        !in_string(head, head.len() as int),
        head.last() != '\\',
        is_string_body(s),
    ensures
        ({
            let t = head + (seq!['"'] + s + seq!['"']) + tail;
            &&& !in_string(t, head.len() + s.len() as int + 2)
            &&& depth(t, head.len() + s.len() as int + 2) == depth(head, head.len() as int)
            &&& forall|j: int|
                0 <= j <= s.len() ==> #[trigger] in_string(t, head.len() + 1 + j)
        }),
{
    let piece = seq!['"'] + s + seq!['"'];
    let t = head + piece + tail;
    let h = head.len() as int;
    assert(t =~= head + (piece + tail));
    crate::extract::lemma_depth_prefix(head, piece + tail, h);
    assert(t.subrange(h, h + piece.len()) =~= piece);
    assert(t[h - 1] == head.last());
    lemma_piece(t, h, JsonText::Text(s));
    assert forall|j: int| 0 <= j <= s.len() implies #[trigger] in_string(t, h + 1 + j) by {
        lemma_string(t, h, s, j);
    }
}

} // verus!
