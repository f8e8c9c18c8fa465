//! Counting unbalanced brackets outside strings and comments.

use vstd::prelude::*;
use crate::chars;
use crate::generator::ContributionGenerator;
use crate::text;

verus! {

/// Where in the source a character stands.
#[derive(Clone, Copy, PartialEq, Eq, Structural)]
pub enum Region {
    Code,
    /// A string literal, with its quote.
    Literal(char),
    LineComment,
    BlockComment,
}

/// The bracket that closes `c`.
pub open spec fn closer(c: char) -> Option<char> {
    if c == '(' {
        Some(')')
    } else if c == '[' {
        Some(']')
    } else if c == '{' {
        Some('}')
    } else {
        None
    }
}

/// `c` closes a bracket.
pub open spec fn is_closer(c: char) -> bool {
    c == ')' || c == ']' || c == '}'
}

/// `c` opens or closes a bracket.
pub open spec fn is_bracket(c: char) -> bool {
    closer(c) is Some || is_closer(c)
}

/// `c` is a quote.
pub open spec fn is_quote(c: char) -> bool {
    c == '"' || c == '\''
}

/// A quote stands at `i` and is not escaped.
pub open spec fn is_quote_at(code: Seq<char>, i: int) -> bool {
    is_quote(code[i]) && !chars::is_escaped(code, i)
}

/// `c` stands at `i`.
pub open spec fn has_at(code: Seq<char>, i: int, c: char) -> bool {
    0 <= i < code.len() && code[i] == c
}

/// The region after the character, or the comment mark of two characters, that
/// begins at `i` in `region`; and where it ends.
pub open spec fn next_region(code: Seq<char>, i: int, region: Region) -> (Region, int) {
    let c = code[i];
    if c == '\n' {
        (if region is LineComment { Region::Code } else { region }, i + 1)
    } else {
        match region {
            Region::LineComment => (region, i + 1),
            Region::BlockComment => if c == '*' && has_at(code, i + 1, '/') {
                (Region::Code, i + 2)
            } else {
                (region, i + 1)
            },
            Region::Literal(quote) => if is_quote_at(code, i) && c == quote {
                (Region::Code, i + 1)
            } else {
                (region, i + 1)
            },
            Region::Code => if c == '/' && has_at(code, i + 1, '*') {
                (Region::BlockComment, i + 2)
            } else if c == '#' {
                (Region::LineComment, i + 1)
            } else if c == '/' && has_at(code, i + 1, '/') {
                (Region::LineComment, i + 2)
            } else if is_quote_at(code, i) {
                (Region::Literal(c), i + 1)
            } else {
                (Region::Code, i + 1)
            },
        }
    }
}

/// The brackets from position `i` on that stand in code, where `i` is in
/// `region`.
pub open spec fn brackets_from(code: Seq<char>, i: int, region: Region) -> Seq<char>
    decreases code.len() - i,
{
    if i < 0 || i >= code.len() {
        Seq::empty()
    } else {
        let (after, end) = next_region(code, i, region);
        let rest = brackets_from(code, end, after);
        if region is Code && is_bracket(code[i]) {
            seq![code[i]] + rest
        } else {
            rest
        }
    }
}

/// The brackets of `code` that stand outside strings and comments.
pub open spec fn live_brackets(code: Seq<char>) -> Seq<char> {
    brackets_from(code, 0, Region::Code)
}

/// The closing brackets that are still awaited after `brackets`, the next one
/// last. A closing bracket that is not the next one awaited changes nothing.
pub open spec fn awaited(brackets: Seq<char>) -> Seq<char>
    decreases brackets.len(),
{
    if brackets.len() == 0 {
        Seq::empty()
    } else {
        let before = awaited(brackets.drop_last());
        let c = brackets.last();
        match closer(c) {
            Some(close) => before.push(close),
            None => if is_closer(c) && before.len() > 0 && before.last() == c {
                before.drop_last()
            } else {
                before
            },
        }
    }
}

/// How many closing brackets are not the next one awaited when they come.
pub open spec fn strays(brackets: Seq<char>) -> nat
    decreases brackets.len(),
{
    if brackets.len() == 0 {
        0
    } else {
        let before = awaited(brackets.drop_last());
        let c = brackets.last();
        strays(brackets.drop_last()) + if is_closer(c) && !(before.len() > 0 && before.last()
            == c) {
            1nat
        } else {
            0nat
        }
    }
}

/// How many brackets of `code` have no counterpart: those that are never
/// closed, and the closing ones that close nothing.
pub open spec fn unbalanced(code: Seq<char>) -> nat {
    awaited(live_brackets(code)).len() + strays(live_brackets(code))
}

/// A quote follows the backslashes that `code` begins with, if any.
pub open spec fn meets_quote(code: Seq<char>) -> bool {
    exists|i: int|
        0 <= i < code.len() && is_quote(#[trigger] code[i]) && chars::backslashes_before(code, i)
            == i
}

/// What stands before `code` does not change its brackets, unless it escapes a
/// quote of `code` or has the backslash before one escaped.
proof fn lemma_shift(head: Seq<char>, code: Seq<char>, i: int, region: Region)
    requires
        0 <= i,
        chars::is_escaped(head, head.len() as int) ==> !meets_quote(code),
    ensures
        brackets_from(head + code, head.len() + i, region) == brackets_from(code, i, region),
    decreases code.len() - i,
{
    if i < code.len() {
        let whole = head + code;
        let at = head.len() + i;
        assert(whole[at] == code[i]);
        assert(i + 1 < code.len() ==> whole[at + 1] == code[i + 1]);
        chars::lemma_escaped_suffix(head, code, i);
        assert(is_quote_at(whole, at) == is_quote_at(code, i));
        let (after, end) = next_region(code, i, region);
        assert(next_region(whole, at, region) == (after, head.len() + end));
        lemma_shift(head, code, end, after);
    }
}

/// No bracket counts from `i` to `j` in a line comment that ends at `j`.
proof fn lemma_line_comment(code: Seq<char>, i: int, j: int)
    requires
        0 <= i <= j < code.len(),
        forall|k: int| i <= k < j ==> code[k] != '\n',
        code[j] == '\n',
    ensures
        brackets_from(code, i, Region::LineComment) == brackets_from(code, j + 1, Region::Code),
    decreases j - i,
{
    if i < j {
        lemma_line_comment(code, i + 1, j);
    }
}

/// No bracket counts from `i` on in a block comment whose first `*/` stands at
/// `j`.
proof fn lemma_block_comment(code: Seq<char>, i: int, j: int)
    requires
        0 <= i <= j,
        j + 1 < code.len(),
        forall|k: int| i <= k < j ==> !(#[trigger] code[k] == '*' && code[k + 1] == '/'),
        code[j] == '*',
        code[j + 1] == '/',
    ensures
        brackets_from(code, i, Region::BlockComment) == brackets_from(code, j + 2, Region::Code),
    decreases j - i,
{
    if i < j {
        lemma_block_comment(code, i + 1, j);
    }
}

/// No bracket counts from `i` on in a string literal whose closing quote
/// stands at `j`.
proof fn lemma_literal(code: Seq<char>, i: int, j: int, quote: char)
    requires
        0 < i <= j < code.len(),
        is_quote(quote),
        forall|k: int| i <= k < j && #[trigger] code[k] == quote ==> chars::is_escaped(code, k),
        code[j] == quote,
        !chars::is_escaped(code, j),
    ensures
        brackets_from(code, i, Region::Literal(quote)) == brackets_from(code, j + 1, Region::Code),
    decreases j - i,
{
    if i < j {
        lemma_literal(code, i + 1, j, quote);
    }
}

/// The region at the end of `code`, where position `i` is in `region`.
pub open spec fn region_from(code: Seq<char>, i: int, region: Region) -> Region
    decreases code.len() - i,
{
    if i < 0 || i >= code.len() {
        region
    } else {
        let (after, end) = next_region(code, i, region);
        region_from(code, end, after)
    }
}

/// `code` ends with a slash that stands in code and could begin a comment mark,
/// where position `i` is in `region`.
pub open spec fn half_mark_from(code: Seq<char>, i: int, region: Region) -> bool
    decreases code.len() - i,
{
    if i < 0 || i >= code.len() {
        false
    } else if i + 1 == code.len() {
        region is Code && code[i] == '/'
    } else {
        let (after, end) = next_region(code, i, region);
        half_mark_from(code, end, after)
    }
}

/// `code` begins with what makes a comment mark of a slash before it.
pub open spec fn begins_half_mark(code: Seq<char>) -> bool {
    has_at(code, 0, '/') || has_at(code, 0, '*')
}

/// `head` ends outside strings and comments.
pub open spec fn ends_in_code(head: Seq<char>) -> bool {
    region_from(head, 0, Region::Code) is Code
}

/// `code` means behind `head` what it means alone: `head` ends in code, no
/// comment mark stands across the joint, and no backslash of `head` changes
/// what a quote of `code` is.
pub open spec fn joins(head: Seq<char>, code: Seq<char>) -> bool {
    &&& ends_in_code(head)
    &&& half_mark_from(head, 0, Region::Code) ==> !begins_half_mark(code)
    &&& chars::is_escaped(head, head.len() as int) ==> !meets_quote(code)
}

/// The brackets up to the end of `head`, and then those behind it.
proof fn lemma_head(head: Seq<char>, code: Seq<char>, i: int, region: Region)
    requires
        0 <= i <= head.len(),
        region_from(head, i, region) is Code,
        half_mark_from(head, i, region) ==> !begins_half_mark(code),
    ensures
        brackets_from(head + code, i, region) == brackets_from(head, i, region) + brackets_from(
            head + code,
            head.len() as int,
            Region::Code,
        ),
    decreases head.len() - i,
{
    let whole = head + code;
    if i < head.len() {
        let (after, end) = next_region(head, i, region);
        assert(whole[i] == head[i]);
        assert(i + 1 < head.len() ==> whole[i + 1] == head[i + 1]);
        chars::lemma_escaped_prefix(head, code, i);
        assert(is_quote_at(whole, i) == is_quote_at(head, i));
        assert(region_from(head, i, region) == region_from(head, end, after));
        if i + 1 == head.len() {
            assert(region_from(head, end, after) == after);
            assert(code.len() > 0 ==> whole[i + 1] == code[0]);
        }
        assert(next_region(whole, i, region) == (after, end));
        lemma_head(head, code, end, after);
        assert(brackets_from(whole, i, region) =~= brackets_from(head, i, region) + brackets_from(
            whole,
            head.len() as int,
            Region::Code,
        ));
    } else {
        assert(brackets_from(head, i, region) =~= Seq::empty());
    }
}

/// A slash that makes a line comment mark of the slash that `head` ends with.
proof fn lemma_half_mark(head: Seq<char>, code: Seq<char>, i: int, region: Region)
    requires
        0 <= i <= head.len(),
        half_mark_from(head, i, region),
        has_at(code, 0, '/'),
    ensures
        brackets_from(head + code, i, region) == brackets_from(head, i, region) + brackets_from(
            head + code,
            head.len() as int + 1,
            Region::LineComment,
        ),
    decreases head.len() - i,
{
    let whole = head + code;
    let (after, end) = next_region(head, i, region);
    let rest = brackets_from(whole, head.len() as int + 1, Region::LineComment);
    assert(whole[i] == head[i]);
    if i + 1 == head.len() {
        assert(whole[i + 1] == '/');
        assert(brackets_from(head, end, after) =~= Seq::empty());
        assert(brackets_from(head, i, region) =~= Seq::empty());
        assert(Seq::<char>::empty() + rest =~= rest);
    } else {
        assert(whole[i + 1] == head[i + 1]);
        chars::lemma_escaped_prefix(head, code, i);
        assert(is_quote_at(whole, i) == is_quote_at(head, i));
        assert(next_region(whole, i, region) == (after, end));
        lemma_half_mark(head, code, end, after);
        assert(brackets_from(whole, i, region) =~= brackets_from(head, i, region) + rest);
    }
}

/// The brackets of code that is continued are its own and then those of the
/// rest.
pub proof fn law_brackets_of_both(head: Seq<char>, code: Seq<char>)
    requires
        joins(head, code),
    ensures
        live_brackets(head + code) == live_brackets(head) + live_brackets(code),
{
    lemma_head(head, code, 0, Region::Code);
    lemma_shift(head, code, 0, Region::Code);
}

/// What begins with a remark without brackets behind `head` counts as if the
/// remark were not there.
proof fn lemma_remark(head: Seq<char>, remark: Seq<char>, code: Seq<char>)
    requires
        joins(head, remark + code),
        joins(head, code),
        live_brackets(remark + code) == live_brackets(code),
    ensures
        unbalanced(head + remark + code) == unbalanced(head + code),
{
    law_brackets_of_both(head, remark + code);
    law_brackets_of_both(head, code);
    assert(head + (remark + code) =~= head + remark + code);
}

/// A text that begins with neither a quote nor a backslash meets no quote.
proof fn lemma_meets_no_quote(code: Seq<char>)
    requires
        code.len() > 0,
        !is_quote(code[0]),
        code[0] != '\\',
    ensures
        !meets_quote(code),
{
    assert forall|i: int| 0 <= i < code.len() && is_quote(#[trigger] code[i]) implies
        chars::backslashes_before(code, i) != i by {
        lemma_run_from_start(code, i);
    }
}

/// A run of backslashes that reaches the beginning begins there.
proof fn lemma_run_from_start(code: Seq<char>, i: int)
    requires
        0 <= i <= code.len(),
    ensures
        chars::backslashes_before(code, i) <= i,
        i > 0 && chars::backslashes_before(code, i) == i ==> code[0] == '\\',
    decreases i,
{
    if i > 0 {
        lemma_run_from_start(code, i - 1);
    }
}

/// A line comment counts for nothing, whatever it says.
pub proof fn law_line_comment_ignored(
    head: Seq<char>,
    hash: bool,
    body: Seq<char>,
    code: Seq<char>,
)
    requires
        joins(head, code),
        !body.contains('\n'),
    ensures
        ({
            let mark = if hash {
                seq!['#']
            } else {
                seq!['/', '/']
            };
            unbalanced(head + (mark + body + seq!['\n']) + code) == unbalanced(head + code)
        }),
{
    let mark = if hash {
        seq!['#']
    } else {
        seq!['/', '/']
    };
    let comment = mark + body + seq!['\n'];
    let whole = comment + code;
    let j = comment.len() - 1;
    assert(comment.last() == '\n');
    assert(whole[0] == mark[0]);
    assert(!hash ==> whole[1] == '/');
    assert forall|k: int| mark.len() <= k < j implies whole[k] != '\n' by {
        assert(whole[k] == body[k - mark.len()]);
    }
    assert(whole[j] == '\n');
    lemma_shift(comment, code, 0, Region::Code);
    if !hash && half_mark_from(head, 0, Region::Code) {
        let all = head + whole;
        let h = head.len() as int;
        lemma_half_mark(head, whole, 0, Region::Code);
        assert forall|k: int| h + 1 <= k < h + j implies all[k] != '\n' by {
            assert(all[k] == whole[k - h]);
        }
        assert(all[h + j] == whole[j]);
        lemma_line_comment(all, h + 1, h + j);
        let front = head + comment;
        assert(front + code =~= all);
        assert(front.last() == '\n');
        lemma_shift(front, code, 0, Region::Code);
        law_brackets_of_both(head, code);
        assert(head + comment + code =~= all);
    } else {
        lemma_line_comment(whole, mark.len() as int, j);
        lemma_meets_no_quote(whole);
        lemma_remark(head, comment, code);
    }
}

/// A block comment counts for nothing, whatever it says.
pub proof fn law_block_comment_ignored(head: Seq<char>, body: Seq<char>, code: Seq<char>)
    requires
        joins(head, code),
        !half_mark_from(head, 0, Region::Code),
        forall|k: int| 0 <= k < body.len() - 1 ==> !(#[trigger] body[k] == '*' && body[k + 1] == '/'),
    ensures
        unbalanced(head + (seq!['/', '*'] + body + seq!['*', '/']) + code) == unbalanced(head + code),
{
    let comment = seq!['/', '*'] + body + seq!['*', '/'];
    let whole = comment + code;
    let j = 2 + body.len() as int;
    assert(comment.last() == '/');
    assert(whole[0] == '/' && whole[1] == '*' && whole[j] == '*' && whole[j + 1] == '/');
    assert forall|k: int| 2 <= k < j implies !(#[trigger] whole[k] == '*' && whole[k + 1] == '/') by {
        assert(whole[k] == body[k - 2]);
        if k + 1 < j {
            assert(whole[k + 1] == body[k - 1]);
        }
    }
    lemma_block_comment(whole, 2, j);
    lemma_shift(comment, code, 0, Region::Code);
    lemma_meets_no_quote(whole);
    lemma_remark(head, comment, code);
}

/// A string literal counts for nothing, whatever it says. Its own quote may
/// stand in it where it is escaped; the backslashes that it ends with escape
/// each other.
pub proof fn law_string_ignored(
    head: Seq<char>,
    quote: char,
    body: Seq<char>,
    code: Seq<char>,
)
    requires
        joins(head, code),
        !chars::is_escaped(head, head.len() as int),
        quote == '"' || quote == '\'',
        forall|k: int|
            0 <= k < body.len() && #[trigger] body[k] == quote ==> chars::is_escaped(body, k),
        !chars::is_escaped(body, body.len() as int),
    ensures
        unbalanced(head + (seq![quote] + body + seq![quote]) + code) == unbalanced(head + code),
{
    let literal = seq![quote] + body + seq![quote];
    let whole = literal + code;
    let j = 1 + body.len() as int;
    assert(literal.last() == quote);
    assert(whole[0] == quote && whole[j] == quote);
    assert forall|k: int| 0 <= k <= body.len() implies chars::backslashes_before(whole, 1 + k)
        == #[trigger] chars::backslashes_before(body, k) by {
        let front = seq![quote];
        let rest = seq![quote] + code;
        assert(whole =~= front + body + rest);
        chars::lemma_escaped_prefix(front + body, rest, 1 + k);
        chars::lemma_escaped_suffix(front, body, k);
        assert(chars::backslashes_before(front, 1) == 0);
    }
    assert(chars::is_escaped(whole, j) == chars::is_escaped(body, body.len() as int));
    assert forall|k: int| 1 <= k < j && #[trigger] whole[k] == quote implies chars::is_escaped(
        whole,
        k,
    ) by {
        assert(whole[k] == body[k - 1]);
        assert(chars::is_escaped(body, k - 1));
        assert(chars::backslashes_before(whole, 1 + (k - 1)) == chars::backslashes_before(
            body,
            k - 1,
        ));
    }
    lemma_literal(whole, 1, j, quote);
    lemma_shift(literal, code, 0, Region::Code);
    lemma_remark(head, literal, code);
}

/// A bracket that is closed at once leaves what is awaited as it was, and is no
/// stray.
pub proof fn law_closed_pair_cancels(brackets: Seq<char>, open: char)
    requires
        closer(open) is Some,
    ensures
        awaited(brackets.push(open).push(closer(open).unwrap())) == awaited(brackets),
        strays(brackets.push(open).push(closer(open).unwrap())) == strays(brackets),
{
    let close = closer(open).unwrap();
    assert(brackets.push(open).drop_last() =~= brackets);
    assert(brackets.push(open).push(close).drop_last() =~= brackets.push(open));
    assert(awaited(brackets.push(open)) == awaited(brackets).push(close));
    assert(awaited(brackets).push(close).drop_last() =~= awaited(brackets));
    assert(strays(brackets.push(open)) == strays(brackets));
}

/// Brackets that are balanced among themselves change nothing behind others.
pub proof fn law_balanced_brackets_cancel(brackets: Seq<char>, inner: Seq<char>)
    requires
        awaited(inner).len() == 0,
        strays(inner) == 0,
    ensures
        awaited(brackets + inner) == awaited(brackets),
        strays(brackets + inner) == strays(brackets),
{
    lemma_without_strays(brackets, inner);
    assert(awaited(brackets) + awaited(inner) =~= awaited(brackets));
}

/// Brackets without strays are awaited on top of what was awaited before.
proof fn lemma_without_strays(brackets: Seq<char>, inner: Seq<char>)
    requires
        strays(inner) == 0,
    ensures
        awaited(brackets + inner) == awaited(brackets) + awaited(inner),
        strays(brackets + inner) == strays(brackets),
    decreases inner.len(),
{
    let all = brackets + inner;
    if inner.len() == 0 {
        assert(all =~= brackets);
        assert(awaited(brackets) + awaited(inner) =~= awaited(brackets));
    } else {
        let front = inner.drop_last();
        lemma_without_strays(brackets, front);
        assert(all.drop_last() =~= brackets + front);
        assert(all.last() == inner.last());
        assert(awaited(all) =~= awaited(brackets) + awaited(inner));
    }
}

/// The brackets are `(`, `[` and `{`, closed by `)`, `]` and `}` in this order,
/// and the quotes are `"` and `'`; no other character is either.
pub proof fn law_bracket_kinds(c: char)
    ensures
        closer('(') == Some(')'),
        closer('[') == Some(']'),
        closer('{') == Some('}'),
        closer(c) is Some <==> c == '(' || c == '[' || c == '{',
        is_closer(c) <==> c == ')' || c == ']' || c == '}',
        is_bracket(c) <==> is_bracket_char(c),
        is_quote(c) <==> c == '"' || c == '\'',
{
}

/// One of the six brackets.
pub open spec fn is_bracket_char(c: char) -> bool {
    c == '(' || c == ')' || c == '[' || c == ']' || c == '{' || c == '}'
}

/// Only the six brackets count, and only those that stand in the code.
pub proof fn law_live_brackets_are_brackets(code: Seq<char>)
    ensures
        forall|k: int|
            0 <= k < live_brackets(code).len() ==> is_bracket_char(
                #[trigger] live_brackets(code)[k],
            ) && code.contains(live_brackets(code)[k]),
{
    lemma_live_brackets(code, 0, Region::Code);
}

proof fn lemma_live_brackets(code: Seq<char>, i: int, region: Region)
    ensures
        forall|k: int|
            0 <= k < brackets_from(code, i, region).len() ==> is_bracket_char(
                #[trigger] brackets_from(code, i, region)[k],
            ) && code.contains(brackets_from(code, i, region)[k]),
    decreases code.len() - i,
{
    if 0 <= i < code.len() {
        let (after, end) = next_region(code, i, region);
        let rest = brackets_from(code, end, after);
        let all = brackets_from(code, i, region);
        lemma_live_brackets(code, end, after);
        assert forall|k: int| 0 <= k < all.len() implies is_bracket_char(#[trigger] all[k])
            && code.contains(all[k]) by {
            if region is Code && is_bracket(code[i]) {
                if k == 0 {
                    assert(all[0] == code[i]);
                } else {
                    assert(all[k] == rest[k - 1]);
                }
            } else {
                assert(all[k] == rest[k]);
            }
        }
    }
}

/// A text without brackets has no unbalanced one.
pub proof fn law_no_brackets_no_imbalance(code: Seq<char>)
    requires
        forall|i: int| 0 <= i < code.len() ==> !is_bracket_char(#[trigger] code[i]),
    ensures
        unbalanced(code) == 0,
{
    let live = live_brackets(code);
    law_live_brackets_are_brackets(code);
    if live.len() > 0 {
        assert(is_bracket_char(live[0]) && code.contains(live[0]));
    }
    assert(live =~= Seq::empty());
}

/// A character that is no bracket and takes no part in strings, escapes and
/// comments.
pub open spec fn is_neutral(c: char) -> bool {
    &&& !is_bracket_char(c)
    &&& c != '"' && c != '\'' && c != '\\' && c != '/' && c != '*' && c != '#' && c != '\n'
}

/// A neutral character counts for nothing wherever it stands, in code, strings
/// or comments, and changes nothing for the rest, where it splits neither a
/// comment mark nor an escape.
pub proof fn law_neutral_character_ignored(head: Seq<char>, c: char, code: Seq<char>)
    requires
        is_neutral(c),
        head.len() > 0 ==> head.last() != '\\',
        head.len() > 0 && code.len() > 0 ==> !(head.last() == '/' && (code[0] == '/' || code[0]
            == '*')) && !(head.last() == '*' && code[0] == '/'),
    ensures
        live_brackets(head + seq![c] + code) == live_brackets(head + code),
        unbalanced(head + seq![c] + code) == unbalanced(head + code),
{
    lemma_neutral_head(head, c, code, 0, Region::Code);
}

proof fn lemma_neutral_head(head: Seq<char>, c: char, code: Seq<char>, i: int, region: Region)
    requires
        0 <= i <= head.len(),
        is_neutral(c),
        head.len() > 0 ==> head.last() != '\\',
        head.len() > 0 && code.len() > 0 ==> !(head.last() == '/' && (code[0] == '/' || code[0]
            == '*')) && !(head.last() == '*' && code[0] == '/'),
    ensures
        brackets_from(head + seq![c] + code, i, region) == brackets_from(head + code, i, region),
    decreases head.len() - i,
{
    let with = head + seq![c] + code;
    let without = head + code;
    let h = head.len() as int;
    if i == h {
        assert(with[h] == c);
        assert(next_region(with, h, region) == (region, h + 1));
        lemma_neutral_tail(head, c, code, 0, region);
    } else {
        assert(with[i] == head[i] && without[i] == head[i]);
        if i + 1 < h {
            assert(with[i + 1] == head[i + 1] && without[i + 1] == head[i + 1]);
        } else {
            assert(with[i + 1] == c);
            assert(code.len() > 0 ==> without[i + 1] == code[0]);
            assert(head.last() == head[i]);
        }
        assert(with =~= head + (seq![c] + code));
        chars::lemma_escaped_prefix(head, seq![c] + code, i);
        chars::lemma_escaped_prefix(head, code, i);
        assert(is_quote_at(with, i) == is_quote_at(without, i));
        let (after, end) = next_region(with, i, region);
        assert(next_region(without, i, region) == (after, end));
        assert(end <= h);
        lemma_neutral_head(head, c, code, end, after);
    }
}

proof fn lemma_neutral_tail(head: Seq<char>, c: char, code: Seq<char>, i: int, region: Region)
    requires
        0 <= i,
        is_neutral(c),
        head.len() > 0 ==> head.last() != '\\',
    ensures
        brackets_from(head + seq![c] + code, head.len() + 1 + i, region) == brackets_from(
            head + code,
            head.len() + i,
            region,
        ),
    decreases code.len() - i,
{
    let with = head + seq![c] + code;
    let without = head + code;
    let h = head.len() as int;
    if i < code.len() {
        assert(with[h + 1 + i] == code[i] && without[h + i] == code[i]);
        assert(i + 1 < code.len() ==> with[h + 2 + i] == code[i + 1] && without[h + i + 1]
            == code[i + 1]);
        let front = head + seq![c];
        chars::lemma_escaped_suffix(front, code, i);
        chars::lemma_escaped_suffix(head, code, i);
        assert(chars::backslashes_before(front, h + 1) == 0) by {
            assert(front[h] == c);
        }
        assert(chars::backslashes_before(head, h) == 0);
        assert(is_quote_at(with, h + 1 + i) == is_quote_at(without, h + i));
        let (after, end) = next_region(without, h + i, region);
        assert(next_region(with, h + 1 + i, region) == (after, end + 1));
        lemma_neutral_tail(head, c, code, end - h, after);
    }
}

/// A text that holds neither quotes nor what begins a comment.
pub open spec fn is_plain(code: Seq<char>) -> bool {
    !code.contains('"') && !code.contains('\'') && !code.contains('/') && !code.contains('#')
}

proof fn lemma_plain_region(code: Seq<char>, i: int)
    requires
        is_plain(code),
        0 <= i,
    ensures
        region_from(code, i, Region::Code) is Code,
        !half_mark_from(code, i, Region::Code),
    decreases code.len() - i,
{
    if i < code.len() {
        assert(code.contains(code[i]));
        assert(next_region(code, i, Region::Code) == (Region::Code, i + 1));
        lemma_plain_region(code, i + 1);
    }
}

/// A plain text can be continued with any text that is plain too.
proof fn lemma_plain_joins(a: Seq<char>, b: Seq<char>)
    requires
        is_plain(a),
        is_plain(b),
    ensures
        joins(a, b),
        live_brackets(a + b) == live_brackets(a) + live_brackets(b),
{
    lemma_plain_region(a, 0);
    assert forall|i: int| 0 <= i < b.len() implies !is_quote(#[trigger] b[i]) by {
        assert(b.contains(b[i]));
    }
    law_brackets_of_both(a, b);
}

/// The brackets of one character.
proof fn lemma_one_character(c: char)
    requires
        c != '"' && c != '\'' && c != '#',
    ensures
        live_brackets(seq![c]) == (if is_bracket_char(c) {
            seq![c]
        } else {
            Seq::empty()
        }),
{
    let one = seq![c];
    let (after, end) = next_region(one, 0, Region::Code);
    assert(end == 1);
    assert(brackets_from(one, end, after) =~= Seq::empty());
    if is_bracket_char(c) {
        assert(live_brackets(one) =~= seq![c]);
    } else {
        assert(live_brackets(one) =~= Seq::empty());
    }
}

/// Without quotes and comments every bracket counts, in the order in which they
/// stand there.
pub proof fn law_plain_text_brackets(code: Seq<char>)
    requires
        is_plain(code),
    ensures
        live_brackets(code) == code.filter(|c: char| is_bracket_char(c)),
    decreases code.len(),
{
    reveal(Seq::filter);
    if code.len() == 0 {
        assert(live_brackets(code) =~= Seq::empty());
    } else {
        let front = code.drop_last();
        let c = code.last();
        assert forall|d: char| !code.contains(d) implies !front.contains(d) by {
            if front.contains(d) {
                let k = choose|k: int| 0 <= k < front.len() && front[k] == d;
                assert(code[k] == d);
            }
        }
        assert(code[code.len() - 1] == c);
        law_plain_text_brackets(front);
        assert(is_plain(seq![c])) by {
            assert forall|d: char| seq![c].contains(d) implies d == c by {}
        }
        lemma_plain_joins(front, seq![c]);
        lemma_one_character(c);
        assert(front + seq![c] =~= code);
        assert(front.push(c) =~= code);
    }
}

/// How a balanced text is written.
pub enum Balanced {
    /// Characters without brackets.
    Plain(Seq<char>),
    /// One text behind the other.
    Both(Box<Balanced>, Box<Balanced>),
    /// A text in `(` and `)`.
    Round(Box<Balanced>),
    /// A text in `[` and `]`.
    Square(Box<Balanced>),
    /// A text in `{` and `}`.
    Curly(Box<Balanced>),
}

impl Balanced {
    /// The characters of the text.
    pub open spec fn written(self) -> Seq<char>
        decreases self,
    {
        match self {
            Balanced::Plain(s) => s,
            Balanced::Both(a, b) => a.written() + b.written(),
            Balanced::Round(inner) => seq!['('] + inner.written() + seq![')'],
            Balanced::Square(inner) => seq!['['] + inner.written() + seq![']'],
            Balanced::Curly(inner) => seq!['{'] + inner.written() + seq!['}'],
        }
    }

    /// The parts without brackets hold none, and neither quotes nor comments.
    pub open spec fn wf(self) -> bool
        decreases self,
    {
        match self {
            Balanced::Plain(s) => is_plain(s) && forall|i: int|
                0 <= i < s.len() ==> !is_bracket_char(#[trigger] s[i]),
            Balanced::Both(a, b) => a.wf() && b.wf(),
            Balanced::Round(inner) => inner.wf(),
            Balanced::Square(inner) => inner.wf(),
            Balanced::Curly(inner) => inner.wf(),
        }
    }
}

/// A text whose brackets are nested properly has no unbalanced one, and nothing
/// is awaited behind it.
pub proof fn law_nested_text_is_balanced(v: Balanced)
    requires
        v.wf(),
    ensures
        unbalanced(v.written()) == 0,
        is_plain(v.written()),
        awaited(live_brackets(v.written())).len() == 0,
        strays(live_brackets(v.written())) == 0,
    decreases v, 0int,
{
    match v {
        Balanced::Plain(s) => {
            law_no_brackets_no_imbalance(s);
        },
        Balanced::Both(a, b) => {
            law_nested_text_is_balanced(*a);
            law_nested_text_is_balanced(*b);
            lemma_plain_both(a.written(), b.written());
            lemma_plain_joins(a.written(), b.written());
            law_balanced_brackets_cancel(live_brackets(a.written()), live_brackets(b.written()));
        },
        Balanced::Round(inner) => {
            lemma_nested(*inner, '(', ')');
        },
        Balanced::Square(inner) => {
            lemma_nested(*inner, '[', ']');
        },
        Balanced::Curly(inner) => {
            lemma_nested(*inner, '{', '}');
        },
    }
}

proof fn lemma_plain_both(a: Seq<char>, b: Seq<char>)
    requires
        is_plain(a),
        is_plain(b),
    ensures
        is_plain(a + b),
{
    assert forall|d: char| (a + b).contains(d) implies a.contains(d) || b.contains(d) by {
        let k = choose|k: int| 0 <= k < (a + b).len() && (a + b)[k] == d;
        if k < a.len() {
            assert(a[k] == d);
        } else {
            assert(b[k - a.len()] == d);
        }
    }
}

proof fn lemma_nested(inner: Balanced, open: char, close: char)
    requires
        inner.wf(),
        closer(open) == Some(close),
        is_bracket_char(open),
        is_bracket_char(close),
    ensures
        ({
            let text = seq![open] + inner.written() + seq![close];
            &&& is_plain(text)
            &&& unbalanced(text) == 0
            &&& awaited(live_brackets(text)).len() == 0
            &&& strays(live_brackets(text)) == 0
        }),
    decreases inner, 1int,
{
    let text = seq![open] + inner.written() + seq![close];
    law_nested_text_is_balanced(inner);
    let live = live_brackets(inner.written());
    assert(is_plain(seq![open]) && is_plain(seq![close])) by {
        assert forall|d: char| seq![open].contains(d) implies d == open by {}
        assert forall|d: char| seq![close].contains(d) implies d == close by {}
    }
    lemma_plain_both(seq![open], inner.written());
    lemma_plain_both(seq![open] + inner.written(), seq![close]);
    lemma_plain_joins(seq![open], inner.written());
    lemma_plain_joins(seq![open] + inner.written(), seq![close]);
    lemma_one_character(open);
    lemma_one_character(close);
    let none = Seq::<char>::empty();
    let up = seq![open] + live;
    law_balanced_brackets_cancel(seq![open], live);
    assert(seq![open].drop_last() =~= none);
    assert(awaited(none) =~= none);
    assert(strays(none) == 0);
    assert(awaited(seq![open]) =~= seq![close]);
    assert(strays(seq![open]) == 0);
    assert((up + seq![close]).drop_last() =~= up);
    assert((up + seq![close]).last() == close);
    assert(awaited(up + seq![close]) =~= none);
    assert(live_brackets(text) == up + seq![close]);
}

/// A bracket that is opened adds one, wherever the code before it ends; closed
/// with a balanced text in between it adds none; closed by a bracket of another
/// kind it adds two.
pub proof fn law_opened_bracket_counts(code: Seq<char>, open: char, v: Balanced, end: char)
    requires
        ends_in_code(code),
        open == '(' || open == '[' || open == '{',
        v.wf(),
        end == ')' || end == ']' || end == '}',
    ensures
        unbalanced(code + seq![open]) == unbalanced(code) + 1,
        unbalanced(code + (seq![open] + v.written() + seq![end])) == unbalanced(code) + (
        if (open == '(' && end == ')') || (open == '[' && end == ']') || (open == '{' && end
            == '}') {
            0int
        } else {
            2int
        }),
{
    let live = live_brackets(code);
    let none = Seq::<char>::empty();
    law_nested_text_is_balanced(v);
    assert(is_plain(seq![open]) && is_plain(seq![end])) by {
        assert forall|d: char| seq![open].contains(d) implies d == open by {}
        assert forall|d: char| seq![end].contains(d) implies d == end by {}
    }
    lemma_one_character(open);
    lemma_one_character(end);
    lemma_meets_no_quote(seq![open]);
    law_brackets_of_both(code, seq![open]);
    assert((live + seq![open]).drop_last() =~= live);
    assert((live + seq![open]).last() == open);
    let opened = live + seq![open];
    assert(awaited(opened) == awaited(live).push(closer(open).unwrap()));
    let text = seq![open] + v.written() + seq![end];
    lemma_plain_both(seq![open], v.written());
    lemma_plain_joins(seq![open], v.written());
    lemma_plain_joins(seq![open] + v.written(), seq![end]);
    assert(text[0] == open);
    lemma_meets_no_quote(text);
    law_brackets_of_both(code, text);
    let inner = live_brackets(v.written());
    law_balanced_brackets_cancel(opened, inner);
    let all = opened + inner + seq![end];
    assert(live + (seq![open] + inner + seq![end]) =~= all);
    assert(all.drop_last() =~= opened + inner);
    assert(all.last() == end);
    assert(awaited(live).push(closer(open).unwrap()).drop_last() =~= awaited(live));
}

/// A closing bracket behind a balanced text closes nothing and counts.
pub proof fn law_stray_closer_counts(v: Balanced, end: char)
    requires
        v.wf(),
        end == ')' || end == ']' || end == '}',
    ensures
        unbalanced(v.written() + seq![end]) == 1,
{
    law_nested_text_is_balanced(v);
    assert(is_plain(seq![end])) by {
        assert forall|d: char| seq![end].contains(d) implies d == end by {}
    }
    lemma_plain_joins(v.written(), seq![end]);
    lemma_one_character(end);
    let live = live_brackets(v.written());
    assert((live + seq![end]).drop_last() =~= live);
    assert((live + seq![end]).last() == end);
}

/// A quote behind a backslash in code begins no string: it counts for nothing,
/// and what follows it is code.
pub proof fn law_escaped_quote_in_code(head: Seq<char>, quote: char, code: Seq<char>)
    requires
        ends_in_code(head),
        chars::is_escaped(head, head.len() as int),
        quote == '"' || quote == '\'',
    ensures
        live_brackets(head + seq![quote] + code) == live_brackets(head) + live_brackets(code),
{
    let front = head + seq![quote];
    let whole = front + code;
    let h = head.len() as int;
    assert(whole =~= head + (seq![quote] + code));
    lemma_head(head, seq![quote] + code, 0, Region::Code);
    chars::lemma_escaped_prefix(head, seq![quote] + code, h);
    assert(whole[h] == quote);
    assert(next_region(whole, h, Region::Code) == (Region::Code, h + 1));
    assert(front.last() == quote);
    lemma_shift(front, code, 0, Region::Code);
}

/// No bracket counts in a region that is not left any more.
proof fn lemma_never_left(code: Seq<char>, i: int, region: Region)
    requires
        0 <= i,
        region is LineComment ==> forall|k: int| i <= k < code.len() ==> code[k] != '\n',
        region is BlockComment ==> forall|k: int|
            i <= k < code.len() - 1 ==> !(#[trigger] code[k] == '*' && code[k + 1] == '/'),
        region matches Region::Literal(quote) ==> forall|k: int|
            i <= k < code.len() && #[trigger] code[k] == quote ==> chars::is_escaped(code, k),
        !(region is Code),
    ensures
        brackets_from(code, i, region) == Seq::<char>::empty(),
    decreases code.len() - i,
{
    if i < code.len() {
        assert(code[i] == code[i]);
        lemma_never_left(code, i + 1, region);
    }
}

/// A comment or a string that is not ended counts for nothing up to the end.
pub proof fn law_open_remark_ignored(head: Seq<char>, region: Region, body: Seq<char>)
    requires
        !(region is Code),
        region is LineComment ==> joins(head, seq!['/', '/'] + body) && !body.contains('\n'),
        region is BlockComment ==> joins(head, seq!['/', '*'] + body) && forall|k: int|
            0 <= k < body.len() - 1 ==> !(#[trigger] body[k] == '*' && body[k + 1] == '/'),
        region matches Region::Literal(quote) ==> (quote == '"' || quote == '\'') && joins(
            head,
            seq![quote] + body,
        ) && forall|k: int|
            0 <= k < body.len() && #[trigger] body[k] == quote ==> chars::is_escaped(body, k),
    ensures
        ({
            let mark = match region {
                Region::LineComment => seq!['/', '/'],
                Region::BlockComment => seq!['/', '*'],
                Region::Literal(quote) => seq![quote],
                Region::Code => Seq::empty(),
            };
            unbalanced(head + (mark + body)) == unbalanced(head)
        }),
{
    let mark = match region {
        Region::LineComment => seq!['/', '/'],
        Region::BlockComment => seq!['/', '*'],
        Region::Literal(quote) => seq![quote],
        Region::Code => Seq::empty(),
    };
    let text = mark + body;
    let m = mark.len() as int;
    assert(text[0] == mark[0]);
    assert(m == 2 ==> text[1] == mark[1]);
    assert forall|k: int| 0 <= k < body.len() implies #[trigger] text[m + k] == body[k] by {}
    match region {
        Region::LineComment => {
            assert forall|k: int| m <= k < text.len() implies text[k] != '\n' by {
                assert(text[k] == body[k - m]);
            }
        },
        Region::BlockComment => {
            assert forall|k: int| m <= k < text.len() - 1 implies !(#[trigger] text[k] == '*'
                && text[k + 1] == '/') by {
                assert(text[k] == body[k - m]);
                assert(text[k + 1] == body[k + 1 - m]);
            }
        },
        Region::Literal(quote) => {
            assert forall|k: int| m <= k < text.len() && #[trigger] text[k] == quote implies
                chars::is_escaped(text, k) by {
                assert(body[k - m] == quote);
                chars::lemma_escaped_suffix(mark, body, k - m);
                assert(chars::backslashes_before(mark, 1) == 0);
            }
        },
        Region::Code => {},
    }
    lemma_never_left(text, m, region);
    assert(live_brackets(text) =~= Seq::empty());
    law_brackets_of_both(head, text);
    assert(live_brackets(head) + live_brackets(text) =~= live_brackets(head));
}

impl<'a> ContributionGenerator<'a> {
    /// How many brackets of `code` have no counterpart, whether they are never
    /// closed or close nothing. Brackets in strings (`"..."` or `'...'`, where a
    /// backslash escapes the next character) and in comments (`#`, `//`,
    /// `/* */`) do not count.
    pub fn count_unbalanced_brackets(code: &str) -> (r: usize)
        ensures
            r == unbalanced(code@),
    {
        let cs = text::chars_of(code);
        let n = cs.len();
        let mut stack: Vec<char> = Vec::new();
        let mut stray: usize = 0;
        let mut region = Region::Code;
        let mut escaped = false;
        let mut i: usize = 0;
        let ghost mut seen: Seq<char> = Seq::empty();
        assert(seen + brackets_from(code@, 0, Region::Code) =~= live_brackets(code@));
        while i < n
            invariant
                cs@ == code@,
                n == cs@.len(),
                i <= n,
                escaped == chars::is_escaped(code@, i as int),
                stack@ == awaited(seen),
                stray == strays(seen),
                stack@.len() + stray <= i,
                live_brackets(code@) == seen + brackets_from(code@, i as int, region),
            decreases n - i,
        {
            let c = cs[i];
            let slash_next = i + 1 < n && cs[i + 1] == '/';
            let star_next = i + 1 < n && cs[i + 1] == '*';
            let ghost (after, end) = next_region(code@, i as int, region);
            let ghost rest = brackets_from(code@, end, after);
            let quote_here = (c == '"' || c == '\'') && !escaped;
            escaped = c == '\\' && !escaped;
            if c == '\n' {
                if region == Region::LineComment {
                    region = Region::Code;
                }
                i += 1;
                continue ;
            }
            match region {
                Region::LineComment => {
                    i += 1;
                },
                Region::BlockComment => {
                    if c == '*' && slash_next {
                        region = Region::Code;
                        i += 2;
                    } else {
                        i += 1;
                    }
                },
                Region::Literal(quote) => {
                    if c == quote && quote_here {
                        region = Region::Code;
                    }
                    i += 1;
                },
                Region::Code => {
                    if c == '/' && star_next {
                        region = Region::BlockComment;
                        i += 2;
                    } else if c == '#' {
                        region = Region::LineComment;
                        i += 1;
                    } else if c == '/' && slash_next {
                        region = Region::LineComment;
                        i += 2;
                    } else if quote_here {
                        region = Region::Literal(c);
                        i += 1;
                    } else {
                        let ghost before = seen;
                        if c == '(' || c == '[' || c == '{' {
                            let close = if c == '(' {
                                ')'
                            } else if c == '[' {
                                ']'
                            } else {
                                '}'
                            };
                            stack.push(close);
                        } else if c == ')' || c == ']' || c == '}' {
                            if stack.len() > 0 && stack[stack.len() - 1] == c {
                                stack.pop();
                            } else {
                                stray += 1;
                            }
                        }
                        proof {
                            if is_bracket(c) {
                                seen = before.push(c);
                                assert(seen.drop_last() =~= before);
                                assert(before + (seq![c] + rest) =~= seen + rest);
                            }
                        }
                        i += 1;
                    }
                },
            }
        }
        assert(seen + Seq::<char>::empty() =~= seen);
        stack.len() + stray
    }
}

} // verus!
