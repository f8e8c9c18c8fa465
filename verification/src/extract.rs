//! Finding the JSON in a reply.

use vstd::prelude::*;
use crate::chars;
use crate::generator::ContributionGenerator;
use crate::models::opt_view;
use crate::outside::first_group;
use crate::patterns::{
    is_first_json_fence, is_first_plain_fence, is_json_fence, is_plain_fence, is_preferred, json_fence,
    json_mark, plain_fence, ticks, Fence, JSON_FENCE, PLAIN_FENCE,
};
use crate::text;

verus! {

/// The text that a reply's object of changes begins with.
pub const CHANGES_ANCHOR: &'static str = "{\"changes\"";

/// The first position of `{` or `[`.
pub open spec fn first_bracket(t: Seq<char>) -> Option<int> {
    match (chars::find(t, seq!['{']), chars::find(t, seq!['['])) {
        (Some(b), Some(k)) => Some(if b <= k { b } else { k }),
        (Some(b), None) => Some(b),
        (None, Some(k)) => Some(k),
        (None, None) => None,
    }
}

/// Where a value that is not fenced begins: at an object of changes, or else
/// at the first bracket.
pub open spec fn value_start(t: Seq<char>) -> Option<int> {
    match chars::find(t, CHANGES_ANCHOR@) {
        Some(i) => Some(i),
        None => first_bracket(t),
    }
}

/// An odd number of the first `k` characters of `t` are quotes that no
/// backslash stands right before: position `k` is inside a string.
pub open spec fn in_string(t: Seq<char>, k: int) -> bool
    decreases k,
{
    if k <= 0 {
        false
    } else if t[k - 1] == '"' && (k < 2 || t[k - 2] != '\\') {
        !in_string(t, k - 1)
    } else {
        in_string(t, k - 1)
    }
}

/// How many more opening than closing brackets stand outside strings among the
/// first `k` characters of `t`. Only brackets of the kind that `t` begins with
/// count.
pub open spec fn depth(t: Seq<char>, k: int) -> int
    decreases k,
{
    if k <= 0 {
        0
    } else {
        let open = t[0];
        let close = if open == '{' { '}' } else { ']' };
        let c = t[k - 1];
        depth(t, k - 1) + if in_string(t, k) {
            0int
        } else if c == open {
            1int
        } else if c == close {
            -1int
        } else {
            0int
        }
    }
}

/// The bracket that `t` begins with is closed after `k` characters.
pub open spec fn is_value_end(t: Seq<char>, k: int) -> bool {
    &&& 0 < k <= t.len()
    &&& depth(t, k) == 0
    &&& forall|j: int| 0 < j < k ==> #[trigger] depth(t, j) != 0
}

/// The value that begins at [`value_start`], up to the bracket that closes it.
pub open spec fn bracketed(t: Seq<char>) -> Option<Seq<char>> {
    match value_start(t) {
        Some(i) => if exists|k: int| is_value_end(t.skip(i), k) {
            Some(t.skip(i).take(choose|k: int| is_value_end(t.skip(i), k)))
        } else {
            None
        },
        None => None,
    }
}

/// The JSON of a reply: what a JSON fence holds, or else the object in a plain
/// fence, or else the first value in brackets.
pub open spec fn extracted(t: Seq<char>) -> Option<Seq<char>> {
    match json_fence(t) {
        Some(block) => Some(chars::trim(block)),
        None => match plain_fence(t) {
            Some(block) => Some(chars::trim(block)),
            None => bracketed(t),
        },
    }
}

/// What is extracted stands in the reply.
pub proof fn law_extracted_is_part_of_reply(t: Seq<char>)
    requires
        extracted(t) is Some,
    ensures
        chars::contains(t, extracted(t).unwrap()),
{
    let x = extracted(t).unwrap();
    if json_fence(t) is Some {
        let m = choose|m: Fence| is_first_json_fence(t, m);
        lemma_trimmed_part(t, m.open + 1, m.close);
    } else if plain_fence(t) is Some {
        let m = choose|m: Fence| is_first_plain_fence(t, m);
        lemma_trimmed_part(t, m.open + 1, m.close);
    } else {
        let i = value_start(t).unwrap();
        lemma_value_start(t);
        let k = choose|k: int| is_value_end(t.skip(i), k);
        assert(t.subrange(i, i + x.len()) =~= x);
        assert(chars::occurs_at(t, x, i));
    }
}

/// A value begins inside the text, with a bracket.
pub proof fn lemma_value_start(t: Seq<char>)
    ensures
        value_start(t) matches Some(i) ==> 0 <= i < t.len() && (t[i] == '{' || t[i] == '['),
{
    reveal_strlit("{\"changes\"");
    chars::lemma_find(t, CHANGES_ANCHOR@);
    chars::lemma_find(t, seq!['{']);
    chars::lemma_find(t, seq!['[']);
    if let Some(i) = value_start(t) {
        if let Some(j) = chars::find(t, CHANGES_ANCHOR@) {
            assert(t.subrange(j, j + CHANGES_ANCHOR@.len())[0] == t[j]);
        }
        if let Some(b) = chars::find(t, seq!['{']) {
            assert(t.subrange(b, b + 1)[0] == t[b]);
        }
        if let Some(k) = chars::find(t, seq!['[']) {
            assert(t.subrange(k, k + 1)[0] == t[k]);
        }
    }
}

/// A part of a text, trimmed, is a part of the text.
proof fn lemma_trimmed_part(t: Seq<char>, from: int, to: int)
    requires
        0 <= from <= to <= t.len(),
    ensures
        chars::contains(t, chars::trim(t.subrange(from, to))),
{
    let part = t.subrange(from, to);
    let (a, b) = chars::lemma_trim_range(part);
    assert(part.subrange(a, b) =~= t.subrange(from + a, from + b));
    assert(chars::occurs_at(t, chars::trim(part), from + a));
}

/// A reply without brackets holds no JSON, unless it stands between fences.
pub proof fn law_nothing_extracted_without_brackets(t: Seq<char>)
    requires
        !t.contains('{'),
        !t.contains('['),
        json_fence(t) is None,
        plain_fence(t) is None,
    ensures
        extracted(t) is None,
{
    lemma_value_start(t);
}

/// A reply without three backticks holds no fence of either kind.
pub proof fn law_no_fence_without_backticks(t: Seq<char>)
    requires
        !chars::contains(t, ticks()),
    ensures
        json_fence(t) is None,
        plain_fence(t) is None,
{
    if json_fence(t) is Some {
        let m = choose|m: Fence| is_first_json_fence(t, m);
        assert(chars::occurs_at(t, ticks(), m.end));
    }
    if plain_fence(t) is Some {
        let m = choose|m: Fence| is_first_plain_fence(t, m);
        assert(chars::occurs_at(t, ticks(), m.end));
    }
}

/// Of a reply without fences, the value that the first bracket opens is
/// extracted, whatever prose stands around it; an object of changes is
/// extracted even if other brackets come before it.
pub proof fn law_bare_value_extracted(prose: Seq<char>, value: Seq<char>, rest: Seq<char>)
    requires
        json_fence(prose + value + rest) is None,
        plain_fence(prose + value + rest) is None,
        value.len() > 0,
        value[0] == '{' || value[0] == '[',
        is_value_end(value, value.len() as int),
        chars::find(prose + value + rest, CHANGES_ANCHOR@) == Some(prose.len() as int) || (
        chars::find(prose + value + rest, CHANGES_ANCHOR@) is None && !prose.contains('{')
            && !prose.contains('[')),
    ensures
        extracted(prose + value + rest) == Some(value),
{
    let t = prose + value + rest;
    let i = prose.len() as int;
    lemma_value_start(t);
    chars::lemma_find(t, seq!['{']);
    chars::lemma_find(t, seq!['[']);
    assert(t[i] == value[0]);
    assert(t.subrange(i, i + 1) =~= seq![value[0]]);
    assert(chars::occurs_at(t, seq![value[0]], i));
    assert(value_start(t) == Some(i)) by {
        let s = value_start(t).unwrap();
        if s < i {
            assert(t[s] == prose[s]);
            assert(prose.contains(prose[s]));
        }
    }
    let u = t.skip(i);
    assert(u =~= value + rest);
    assert forall|k: int| 0 <= k <= value.len() implies #[trigger] depth(u, k) == depth(value, k) by {
        lemma_depth_prefix(value, rest, k);
    }
    assert forall|j: int| 0 < j < value.len() implies #[trigger] depth(u, j) != 0 by {
        assert(depth(value, j) != 0);
    }
    assert(is_value_end(u, value.len() as int));
    let k = choose|k: int| is_value_end(u, k);
    assert(k == value.len()) by {
        if k < value.len() {
            assert(depth(u, k) != 0);
        } else if k > value.len() {
            assert(depth(u, value.len() as int) != 0);
        }
    }
    assert(u.take(k) =~= value);
}

/// What follows does not change how deep a prefix is nested.
pub proof fn lemma_depth_prefix(t: Seq<char>, rest: Seq<char>, k: int)
    requires
        0 <= k <= t.len(),
    ensures
        in_string(t + rest, k) == in_string(t, k),
        depth(t + rest, k) == depth(t, k),
    decreases k,
{
    if k > 0 {
        lemma_depth_prefix(t, rest, k - 1);
        assert((t + rest)[k - 1] == t[k - 1]);
        assert((t + rest)[0] == t[0]);
    }
}

/// A line of `t` ends at `o` with the mark at `p`, up to white space: a fence
/// can begin there.
pub open spec fn opens_at(t: Seq<char>, mark: Seq<char>, p: int, o: int) -> bool {
    &&& chars::occurs_at(t, mark, p)
    &&& p + mark.len() <= o < t.len()
    &&& t[o] == '\n'
    &&& chars::is_blank(t.subrange(p + mark.len(), o))
}

/// A line behind the line end at `c` begins with three backticks at `p`, up to
/// white space: a fence can end there.
pub open spec fn closes_at(t: Seq<char>, c: int, p: int) -> bool {
    &&& 0 <= c < p
    &&& t[c] == '\n'
    &&& chars::is_blank(t.subrange(c, p))
    &&& chars::occurs_at(t, ticks(), p)
}

/// `t` is `before`, a line with the JSON mark, `body`, a line end, three
/// backticks and `after`.
spec fn is_written(t: Seq<char>, before: Seq<char>, body: Seq<char>, after: Seq<char>) -> bool {
    let s = before.len() as int;
    let e = s + 8 + body.len();
    &&& t.len() == e + 4 + after.len()
    &&& t.take(s) == before
    &&& t.subrange(s, s + 7) == json_mark()
    &&& t[s + 7] == '\n'
    &&& t.subrange(s + 8, e) == body
    &&& t[e] == '\n'
    &&& t.subrange(e + 1, e + 4) == ticks()
    &&& t.skip(e + 4) == after
}

/// No JSON fence begins before the first line that ends with a JSON mark.
proof fn lemma_written_start(
    t: Seq<char>,
    before: Seq<char>,
    body: Seq<char>,
    after: Seq<char>,
    m: Fence,
)
    requires
        is_written(t, before, body, after),
        forall|p: int, o: int| !opens_at(before, json_mark(), p, o),
        is_json_fence(t, m),
    ensures
        m.start >= before.len(),
{
    let s = before.len() as int;
    let p = m.start;
    if p < s {
        let mark = json_mark();
        let seen = t.subrange(p, p + 7);
        let written = t.subrange(s, s + 7);
        assert(seen == mark);
        assert(written[0] == t[s]);
        if p + 7 <= s {
            let lead = t.subrange(p + 7, m.open + 1);
            assert(before.subrange(p, p + 7) =~= seen);
            if m.open >= s {
                assert(lead[s - p - 7] == t[s]);
            } else {
                assert forall|k: int| 0 <= k < m.open - p - 7 implies chars::is_white_space(
                    #[trigger] before.subrange(p + 7, m.open)[k],
                ) by {
                    assert(lead[k] == before.subrange(p + 7, m.open)[k]);
                }
                assert(t.take(s)[m.open] == t[m.open]);
                assert(opens_at(before, mark, p, m.open));
            }
        } else {
            let d = s - p;
            assert(seen[d] == t[s]);
            assert(d < 3);
            assert(seen[3] == t[p + 3]);
            assert(written[3 - d] == t[p + 3]);
        }
    }
}

/// The written block is a fence, whichever line end of the white space that it
/// begins with ends the opening line.
proof fn lemma_written_fence(
    t: Seq<char>,
    before: Seq<char>,
    body: Seq<char>,
    after: Seq<char>,
    open: int,
)
    requires
        is_written(t, before, body, after),
        before.len() + 7 <= open < before.len() + 8 + body.len(),
        t[open] == '\n',
        chars::is_blank(t.subrange(before.len() as int + 7, open + 1)),
    ensures
        is_json_fence(
            t,
            Fence {
                start: before.len() as int,
                open,
                close: before.len() as int + 8 + body.len(),
                end: before.len() as int + 9 + body.len(),
            },
        ),
{
    let e = before.len() as int + 8 + body.len();
    assert(t.subrange(e, e + 1)[0] == '\n');
}

/// The fence that is matched in a written block that is not blank, and what it
/// holds.
proof fn lemma_written_block(
    t: Seq<char>,
    before: Seq<char>,
    body: Seq<char>,
    after: Seq<char>,
    m: Fence,
)
    requires
        is_written(t, before, body, after),
        forall|c: int, p: int| #[trigger] closes_at(body, c, p) ==> chars::is_blank(body.take(c)),
        !chars::is_blank(body),
        is_first_json_fence(t, m),
        m.start == before.len(),
    ensures
        chars::trim(t.subrange(m.open + 1, m.close)) == chars::trim(body),
{
    let s = before.len() as int;
    let b = s + 8;
    let e = b + body.len();
    let (f, g) = chars::lemma_not_blank(body);
    assert forall|k: int| 0 <= k < body.len() implies #[trigger] body[k] == t[b + k] by {
        assert(t.subrange(b, e)[k] == t[b + k]);
    }
    assert(m.open < b + f) by {
        let lead = t.subrange(m.start + 7, m.open + 1);
        if m.open >= b + f {
            assert(lead[b + f - s - 7] == body[f]);
        }
    }
    lemma_written_fence(t, before, body, after, m.open);
    assert(m.close <= e);
    lemma_no_early_close(t, before, body, after, m, g);
    let block = t.subrange(m.open + 1, m.close);
    let shift = m.open + 1 - b;
    let lo = f - shift;
    let hi = g - shift;
    assert forall|k: int| 0 <= k < block.len() implies #[trigger] block[k] == body[shift + k] by {}
    chars::lemma_trim_exact(block, lo, hi);
    chars::lemma_trim_exact(body, f, g);
    assert(block.subrange(lo, hi + 1) =~= body.subrange(f, g + 1));
}

/// The fence that is matched does not end before the last character of the
/// block that is not white space.
proof fn lemma_no_early_close(
    t: Seq<char>,
    before: Seq<char>,
    body: Seq<char>,
    after: Seq<char>,
    m: Fence,
    g: int,
)
    requires
        is_written(t, before, body, after),
        forall|c: int, p: int| #[trigger] closes_at(body, c, p) ==> chars::is_blank(body.take(c)),
        0 <= g < body.len(),
        !chars::is_white_space(body[g]),
        is_first_json_fence(t, m),
        m.start == before.len(),
    ensures
        m.close > before.len() + 8 + g,
{
    let s = before.len() as int;
    let b = s + 8;
    let e = b + body.len();
    if m.close <= b + g {
        let tail = t.subrange(m.close, m.end);
        assert(t.subrange(b, e)[g] == t[b + g]);
        assert(m.end <= b + g) by {
            if m.end > b + g {
                assert(tail[b + g - m.close] == body[g]);
            }
        }
        let seen = t.subrange(m.end, m.end + 3);
        assert(seen == ticks());
        assert(m.end + 3 <= e) by {
            if m.end + 3 > e {
                assert(seen[e - m.end] == '\n');
            }
        }
        let c = m.close - b;
        let p = m.end - b;
        assert(m.open >= b - 1);
        assert(body.subrange(c, p) =~= tail);
        assert(body.subrange(p, p + 3) =~= seen);
        assert(body[c] == t.subrange(b, e)[c]);
        assert(closes_at(body, c, p));
        // The opening line could have ended at `m.close`.
        let lead = t.subrange(s + 7, m.close + 1);
        assert(chars::is_blank(lead)) by {
            assert forall|k: int| 0 <= k < lead.len() implies chars::is_white_space(
                #[trigger] lead[k],
            ) by {
                if k == 0 {
                    assert(lead[0] == '\n');
                } else if k < lead.len() - 1 {
                    assert(body.take(c)[k - 1] == body[k - 1]);
                    assert(t.subrange(b, e)[k - 1] == lead[k]);
                }
            }
        }
        lemma_written_fence(t, before, body, after, m.close);
        assert(is_preferred(
            m,
            Fence { start: s, open: m.close, close: e, end: e + 1 },
        ));
    }
}

/// What the fence that is matched in a blank block holds is blank, if no other
/// fence ends behind the block.
proof fn lemma_written_blank(
    t: Seq<char>,
    before: Seq<char>,
    body: Seq<char>,
    after: Seq<char>,
    m: Fence,
)
    requires
        is_written(t, before, body, after),
        chars::is_blank(body),
        forall|c: int, p: int| !closes_at(after, c, p),
        is_first_json_fence(t, m),
        m.start == before.len(),
    ensures
        chars::is_blank(t.subrange(m.open + 1, m.close)),
{
    let s = before.len() as int;
    let b = s + 8;
    let e = b + body.len();
    let lead = t.subrange(m.start + 7, m.open + 1);
    let written = t.subrange(e + 1, e + 4);
    assert(m.open <= e) by {
        if m.open > e {
            assert(lead[e + 1 - s - 7] == written[0]);
        }
    }
    assert(m.open < e) by {
        if m.open == e {
            let tail = t.subrange(m.close, m.end);
            assert(m.close >= e + 4) by {
                if m.close < e + 4 {
                    assert(tail[0] == written[m.close - e - 1]);
                }
            }
            let c = m.close - (e + 4);
            let p = m.end - (e + 4);
            assert(after.subrange(c, p) =~= tail);
            assert(after.subrange(p, p + 3) =~= t.subrange(m.end, m.end + 3));
            assert(closes_at(after, c, p));
        }
    }
    lemma_written_fence(t, before, body, after, m.open);
    assert(m.close <= e);
    let block = t.subrange(m.open + 1, m.close);
    assert forall|k: int| 0 <= k < block.len() implies chars::is_white_space(
        #[trigger] block[k],
    ) by {
        assert(block[k] == t.subrange(b, e)[m.open + 1 + k - b]);
    }
}

/// What stands between fences marked as JSON is extracted, whatever stands
/// around them: the first such block, where no line inside it but a first one
/// begins with three backticks and, if it is blank, no line behind it does.
pub proof fn law_json_fence_extracted(before: Seq<char>, body: Seq<char>, after: Seq<char>)
    requires
        forall|p: int, o: int| !opens_at(before, json_mark(), p, o),
        forall|c: int, p: int| #[trigger] closes_at(body, c, p) ==> chars::is_blank(body.take(c)),
        chars::is_blank(body) ==> forall|c: int, p: int| !closes_at(after, c, p),
    ensures
        extracted(before + json_mark() + seq!['\n'] + body + seq!['\n'] + ticks() + after) == Some(
            chars::trim(body),
        ),
{
    let t = before + json_mark() + seq!['\n'] + body + seq!['\n'] + ticks() + after;
    let s = before.len() as int;
    let e = s + 8 + body.len();
    assert(t.take(s) =~= before);
    assert(t.subrange(s, s + 7) =~= json_mark());
    assert(t.subrange(s + 8, e) =~= body);
    assert(t.subrange(e + 1, e + 4) =~= ticks());
    assert(t.skip(e + 4) =~= after);
    assert(is_written(t, before, body, after));
    assert(t.subrange(s + 7, s + 8) =~= seq!['\n']);
    lemma_written_fence(t, before, body, after, s + 7);
    let whole = Fence { start: s, open: s + 7, close: e, end: e + 1 };
    let first = lemma_first_json_fence(t, whole);
    let m = choose|m: Fence| is_first_json_fence(t, m);
    assert(is_preferred(m, whole));
    lemma_written_start(t, before, body, after, m);
    if chars::is_blank(body) {
        lemma_written_blank(t, before, body, after, m);
        chars::lemma_trim_blank(t.subrange(m.open + 1, m.close));
        chars::lemma_trim_blank(body);
    } else {
        lemma_written_block(t, before, body, after, m);
    }
}

/// Where there is a JSON fence, one of them is matched.
proof fn lemma_first_json_fence(t: Seq<char>, m: Fence) -> (first: Fence)
    requires
        is_json_fence(t, m),
    ensures
        is_first_json_fence(t, first),
    decreases m.start, t.len() - m.open, m.close,
{
    if forall|o: Fence| #[trigger] is_json_fence(t, o) ==> is_preferred(m, o) {
        m
    } else {
        let o = choose|o: Fence| #[trigger] is_json_fence(t, o) && !is_preferred(m, o);
        lemma_first_json_fence(t, o)
    }
}

/// An object between plain fences is extracted, whatever stands around them:
/// the first such block, where there is none that is marked as JSON and no line
/// of backticks ends the object early.
pub proof fn law_plain_fence_extracted(before: Seq<char>, object: Seq<char>, after: Seq<char>)
    requires
        object.len() >= 2,
        object[0] == '{',
        object.last() == '}',
        forall|c: int, p: int| !closes_object_at(object, c, p),
        forall|p: int, o: int| #[trigger]
            opens_at(before, ticks(), p, o) ==> o + 1 == before.len() || before[o + 1] != '{',
        json_fence(before + ticks() + seq!['\n'] + object + seq!['\n'] + ticks() + after) is None,
    ensures
        extracted(before + ticks() + seq!['\n'] + object + seq!['\n'] + ticks() + after) == Some(
            object,
        ),
{
    let t = before + ticks() + seq!['\n'] + object + seq!['\n'] + ticks() + after;
    let s = before.len() as int;
    let e = s + 4 + object.len();
    assert(t.take(s) =~= before);
    assert(t.subrange(s, s + 3) =~= ticks());
    assert(t.subrange(s + 4, e) =~= object);
    assert(t.subrange(e + 1, e + 4) =~= ticks());
    assert(t[s + 3] == '\n' && t[e] == '\n');
    let whole = Fence { start: s, open: s + 3, close: e, end: e + 1 };
    lemma_plain_fence(t, before, object);
    let first = lemma_first_plain_fence(t, whole);
    let m = choose|m: Fence| is_first_plain_fence(t, m);
    assert(is_preferred(m, whole));
    lemma_plain_start(t, before, object, m);
    lemma_plain_block(t, before, object, m);
    chars::lemma_trim_exact(object, 0, object.len() - 1);
    assert(object.subrange(0, object.len() as int) =~= object);
}

/// A line with three backticks at `p`, up to white space, follows a brace that
/// ends before `c`: a fenced object can end there.
pub open spec fn closes_object_at(t: Seq<char>, c: int, p: int) -> bool {
    &&& 2 <= c <= p
    &&& t[c - 1] == '}'
    &&& chars::is_blank(t.subrange(c, p))
    &&& t.subrange(c, p).contains('\n')
    &&& chars::occurs_at(t, ticks(), p)
}

/// `t` is `before`, a line of three backticks, `object`, a line end, three
/// backticks and more.
spec fn is_plain(t: Seq<char>, before: Seq<char>, object: Seq<char>) -> bool {
    let s = before.len() as int;
    let e = s + 4 + object.len();
    &&& t.len() >= e + 4
    &&& t.take(s) == before
    &&& t.subrange(s, s + 3) == ticks()
    &&& t[s + 3] == '\n'
    &&& t.subrange(s + 4, e) == object
    &&& t[e] == '\n'
    &&& t.subrange(e + 1, e + 4) == ticks()
    &&& object.len() >= 2
    &&& object[0] == '{'
    &&& object.last() == '}'
}

/// The written object is plainly fenced.
proof fn lemma_plain_fence(t: Seq<char>, before: Seq<char>, object: Seq<char>)
    requires
        is_plain(t, before, object),
    ensures
        is_plain_fence(
            t,
            Fence {
                start: before.len() as int,
                open: before.len() as int + 3,
                close: before.len() as int + 4 + object.len(),
                end: before.len() as int + 5 + object.len(),
            },
        ),
{
    let s = before.len() as int;
    let e = s + 4 + object.len();
    assert(t.subrange(s + 4, e)[0] == t[s + 4]);
    assert(t.subrange(s + 4, e)[object.len() - 1] == t[e - 1]);
    assert(t.subrange(e, e + 1)[0] == '\n');
}

/// No plain fence begins before the first line of backticks that an object
/// follows.
proof fn lemma_plain_start(t: Seq<char>, before: Seq<char>, object: Seq<char>, m: Fence)
    requires
        is_plain(t, before, object),
        forall|p: int, o: int| #[trigger]
            opens_at(before, ticks(), p, o) ==> o + 1 == before.len() || before[o + 1] != '{',
        is_plain_fence(t, m),
    ensures
        m.start >= before.len(),
{
    let s = before.len() as int;
    let p = m.start;
    if p < s {
        let lead = t.subrange(p + 3, m.open + 1);
        let written = t.subrange(s, s + 3);
        let seen = t.subrange(p, p + 3);
        if p + 3 <= s {
            assert(before.subrange(p, p + 3) =~= seen);
            assert(written[0] == t[s]);
            if m.open >= s {
                assert(lead[s - p - 3] == t[s]);
            } else {
                assert forall|k: int| 0 <= k < m.open - p - 3 implies chars::is_white_space(
                    #[trigger] before.subrange(p + 3, m.open)[k],
                ) by {
                    assert(lead[k] == before.subrange(p + 3, m.open)[k]);
                }
                assert(t.take(s)[m.open] == t[m.open]);
                assert(opens_at(before, ticks(), p, m.open));
                if m.open + 1 < s {
                    assert(t.take(s)[m.open + 1] == t[m.open + 1]);
                }
            }
        } else {
            assert(written[p + 3 - s] == t[p + 3]);
            assert(lead[0] == t[p + 3]);
        }
    }
}

/// The plain fence that is matched holds the written object.
proof fn lemma_plain_block(t: Seq<char>, before: Seq<char>, object: Seq<char>, m: Fence)
    requires
        is_plain(t, before, object),
        forall|c: int, p: int| !closes_object_at(object, c, p),
        is_first_plain_fence(t, m),
        m.start == before.len(),
    ensures
        t.subrange(m.open + 1, m.close) == object,
{
    let s = before.len() as int;
    let b = s + 4;
    let e = b + object.len();
    let lead = t.subrange(m.start + 3, m.open + 1);
    assert(t.subrange(b, e)[0] == t[b]);
    assert(m.open == s + 3) by {
        if m.open > s + 3 {
            assert(lead[1] == t[b]);
        }
    }
    lemma_plain_fence(t, before, object);
    assert(m.close <= e);
    if m.close < e {
        let tail = t.subrange(m.close, m.end);
        let seen = t.subrange(m.end, m.end + 3);
        assert(t.subrange(b, e)[object.len() - 1] == t[e - 1]);
        assert(m.end <= e - 1) by {
            if m.end > e - 1 {
                assert(tail[e - 1 - m.close] == '}');
            }
        }
        assert(m.end + 3 <= e) by {
            if m.end + 3 > e {
                assert(seen[e - m.end] == '\n');
            }
        }
        let c = m.close - b;
        let p = m.end - b;
        assert(object.subrange(c, p) =~= tail);
        assert(object.subrange(p, p + 3) =~= seen);
        assert(t.subrange(b, e)[c - 1] == t[m.close - 1]);
        assert(closes_object_at(object, c, p));
    }
}

/// Where there is a plain fence, one of them is matched.
proof fn lemma_first_plain_fence(t: Seq<char>, m: Fence) -> (first: Fence)
    requires
        is_plain_fence(t, m),
    ensures
        is_first_plain_fence(t, first),
    decreases m.start, t.len() - m.open, m.close,
{
    if forall|o: Fence| #[trigger] is_plain_fence(t, o) ==> is_preferred(m, o) {
        m
    } else {
        let o = choose|o: Fence| #[trigger] is_plain_fence(t, o) && !is_preferred(m, o);
        lemma_first_plain_fence(t, o)
    }
}

impl<'a> ContributionGenerator<'a> {
    /// The JSON of a reply.
    ///
    /// 1. What stands between fences marked as JSON.
    /// 2. A JSON object between plain fences.
    /// 3. The text from `{"changes"`, or else from the first `{` or `[`, up to
    ///    the bracket that closes it.
    pub fn extract_json(response: &str) -> (r: Option<String>)
        ensures
            opt_view(r) == extracted(response@),
    {
        if let Some(block) = first_group(JSON_FENCE, response) {
            return Some(text::trim(block.as_str()));
        }
        if let Some(block) = first_group(PLAIN_FENCE, response) {
            return Some(text::trim(block.as_str()));
        }
        let cs = text::chars_of(response);
        let start = match Self::find_value_start(&cs) {
            Some(i) => i,
            None => {
                return None;
            },
        };
        let n = cs.len();
        let ghost t = response@.skip(start as int);
        let open = cs[start];
        let close = if open == '{' {
            '}'
        } else {
            ']'
        };
        let mut nesting: usize = 0;
        let mut quoted = false;
        let mut i: usize = start;
        while i < n
            invariant
                cs@ == response@,
                n == cs@.len(),
                start <= i <= n,
                start < n,
                t == response@.skip(start as int),
                value_start(response@) == Some(start as int),
                json_fence(response@) is None,
                plain_fence(response@) is None,
                open == t[0],
                open == '{' || open == '[',
                close == (if open == '{' {
                    '}'
                } else {
                    ']'
                }),
                quoted == in_string(t, i - start),
                nesting == depth(t, i - start),
                nesting <= i - start,
                i > start ==> nesting > 0,
                forall|j: int| 0 < j <= i - start ==> #[trigger] depth(t, j) != 0,
            decreases n - i,
        {
            let c = cs[i];
            assert(c == t[i - start]);
            if c == '"' && (i == start || cs[i - 1] != '\\') {
                quoted = !quoted;
            }
            assert(i > start ==> cs@[i - 1] == t[i - start - 1]);
            assert(quoted == in_string(t, i - start + 1));
            if !quoted {
                if c == open {
                    nesting += 1;
                } else if c == close {
                    nesting -= 1;
                    if nesting == 0 {
                        let ghost k = i - start + 1;
                        proof {
                            assert(is_value_end(t, k));
                            let e = choose|e: int| is_value_end(t, e);
                            assert(e == k) by {
                                if e < k {
                                    assert(depth(t, e) != 0);
                                } else if k < e {
                                    assert(depth(t, k) != 0);
                                }
                            }
                            assert(t.take(k) =~= cs@.subrange(start as int, i + 1));
                        }
                        return Some(text::text_of(&cs, start, i + 1));
                    }
                }
            }
            assert(nesting == depth(t, i - start + 1));
            i += 1;
        }
        assert(forall|k: int| !is_value_end(t, k));
        None
    }

    /// Where a value that is not fenced begins.
    fn find_value_start(cs: &Vec<char>) -> (r: Option<usize>)
        ensures
            value_start(cs@) == (match r {
                Some(i) => Some(i as int),
                None => None::<int>,
            }),
            r matches Some(i) ==> i < cs@.len() && (cs@[i as int] == '{' || cs@[i as int] == '['),
    {
        let anchor = text::chars_of(CHANGES_ANCHOR);
        proof {
            reveal_strlit("{\"changes\"");
            chars::lemma_find(cs@, anchor@);
            chars::lemma_find(cs@, seq!['{']);
            chars::lemma_find(cs@, seq!['[']);
        }
        if let Some(i) = text::find(cs, &anchor) {
            assert(cs@.subrange(i as int, i + anchor@.len())[0] == anchor@[0]);
            return Some(i);
        }
        let curly = vec!['{'];
        let square = vec!['['];
        assert(curly@ =~= seq!['{']);
        assert(square@ =~= seq!['[']);
        let brace = text::find(cs, &curly);
        let bracket = text::find(cs, &square);
        assert(brace matches Some(b) ==> cs@.subrange(b as int, b + 1)[0] == cs@[b as int]);
        assert(bracket matches Some(k) ==> cs@.subrange(k as int, k + 1)[0] == cs@[k as int]);
        match (brace, bracket) {
            (Some(b), Some(k)) => Some(
                if b <= k {
                    b
                } else {
                    k
                },
            ),
            (Some(b), None) => Some(b),
            (None, Some(k)) => Some(k),
            (None, None) => None,
        }
    }
}

} // verus!
