//! The vocabulary of texts that the contracts speak: a text is a sequence of
//! characters, and every operation here is a mathematical function of it.

use vstd::prelude::*;
use vstd::utf8::{decode_utf8, encode_utf8, is_ascii_chars, is_char_boundary};

verus! {

/// The characters with the Unicode property `White_Space`.
pub open spec fn is_white_space(c: char) -> bool {
    ||| '\u{9}' <= c <= '\u{d}'
    ||| c == ' '
    ||| c == '\u{85}'
    ||| c == '\u{a0}'
    ||| c == '\u{1680}'
    ||| '\u{2000}' <= c <= '\u{200a}'
    ||| c == '\u{2028}'
    ||| c == '\u{2029}'
    ||| c == '\u{202f}'
    ||| c == '\u{205f}'
    ||| c == '\u{3000}'
}

/// Every character of `s` is white space.
pub open spec fn is_blank(s: Seq<char>) -> bool {
    forall|i: int| 0 <= i < s.len() ==> is_white_space(#[trigger] s[i])
}

/// `s` without its leading white space.
pub open spec fn trim_start(s: Seq<char>) -> Seq<char>
    decreases s.len(),
{
    if s.len() > 0 && is_white_space(s[0]) {
        trim_start(s.drop_first())
    } else {
        s
    }
}

/// `s` without its trailing white space.
pub open spec fn trim_end(s: Seq<char>) -> Seq<char>
    decreases s.len(),
{
    if s.len() > 0 && is_white_space(s.last()) {
        trim_end(s.drop_last())
    } else {
        s
    }
}

/// `s` without the white space around it.
pub open spec fn trim(s: Seq<char>) -> Seq<char> {
    trim_end(trim_start(s))
}

/// `s` without the leading run of `c`.
pub open spec fn strip_start(s: Seq<char>, c: char) -> Seq<char>
    decreases s.len(),
{
    if s.len() > 0 && s[0] == c {
        strip_start(s.drop_first(), c)
    } else {
        s
    }
}

/// `s` without the trailing run of `c`.
pub open spec fn strip_end(s: Seq<char>, c: char) -> Seq<char>
    decreases s.len(),
{
    if s.len() > 0 && s.last() == c {
        strip_end(s.drop_last(), c)
    } else {
        s
    }
}

/// The pieces of `s` between the occurrences of `sep`: always at least one.
pub open spec fn split(s: Seq<char>, sep: char) -> Seq<Seq<char>>
    decreases s.len(),
{
    if s.len() == 0 {
        seq![Seq::empty()]
    } else {
        let before = split(s.drop_last(), sep);
        if s.last() == sep {
            before.push(Seq::empty())
        } else {
            before.drop_last().push(before.last().push(s.last()))
        }
    }
}

/// The pieces one after the other, with `sep` between neighbours.
pub open spec fn join(pieces: Seq<Seq<char>>, sep: Seq<char>) -> Seq<char>
    decreases pieces.len(),
{
    if pieces.len() == 0 {
        Seq::empty()
    } else if pieces.len() == 1 {
        pieces[0]
    } else {
        join(pieces.drop_last(), sep) + sep + pieces.last()
    }
}

/// The text `\n`.
pub open spec fn newline() -> Seq<char> {
    seq!['\n']
}

/// `line` without one carriage return at its end.
pub open spec fn strip_cr(line: Seq<char>) -> Seq<char> {
    if line.len() > 0 && line.last() == '\r' {
        line.drop_last()
    } else {
        line
    }
}

/// The lines of `s`. A line ends with `\n` or `\r\n`; the last line need not
/// have an end, and nothing after a final line end is no line.
pub open spec fn lines(s: Seq<char>) -> Seq<Seq<char>> {
    let pieces = split(s, '\n');
    let ended = pieces.drop_last().map_values(|p: Seq<char>| strip_cr(p));
    if pieces.last().len() == 0 {
        ended
    } else {
        ended.push(pieces.last())
    }
}

/// The words of `s`: its maximal runs of characters that are not white space.
pub open spec fn words(s: Seq<char>) -> Seq<Seq<char>>
    decreases s.len(),
{
    if s.len() == 0 {
        Seq::empty()
    } else {
        let before = words(s.drop_last());
        let c = s.last();
        if is_white_space(c) {
            before
        } else if s.len() > 1 && !is_white_space(s[s.len() - 2]) {
            before.drop_last().push(before.last().push(c))
        } else {
            before.push(seq![c])
        }
    }
}

/// `pat` stands in `s` at position `i`.
pub open spec fn occurs_at(s: Seq<char>, pat: Seq<char>, i: int) -> bool {
    &&& 0 <= i
    &&& i + pat.len() <= s.len()
    &&& s.subrange(i, i + pat.len()) == pat
}

/// `pat` stands somewhere in `s`.
pub open spec fn contains(s: Seq<char>, pat: Seq<char>) -> bool {
    exists|i: int| occurs_at(s, pat, i)
}

/// The first position at or after `from` where `pat` stands in `s`.
pub open spec fn find_from(s: Seq<char>, pat: Seq<char>, from: int) -> Option<int>
    decreases s.len() - from + 1,
{
    if from < 0 || from + pat.len() > s.len() {
        None
    } else if occurs_at(s, pat, from) {
        Some(from)
    } else {
        find_from(s, pat, from + 1)
    }
}

/// The first position where `pat` stands in `s`.
pub open spec fn find(s: Seq<char>, pat: Seq<char>) -> Option<int> {
    find_from(s, pat, 0)
}

/// `s` with the first occurrence of `pat` replaced by `with`; `s` itself where
/// there is none.
pub open spec fn replace_first(s: Seq<char>, pat: Seq<char>, with: Seq<char>) -> Seq<char> {
    match find(s, pat) {
        Some(i) => s.take(i) + with + s.skip(i + pat.len()),
        None => s,
    }
}

/// How often `c` stands in `s`.
pub open spec fn count(s: Seq<char>, c: char) -> nat
    decreases s.len(),
{
    if s.len() == 0 {
        0
    } else {
        count(s.drop_last(), c) + if s.last() == c { 1nat } else { 0nat }
    }
}

/// `s` with the trailing white space of each line taken off.
pub open spec fn normalized(s: Seq<char>) -> Seq<char> {
    join(split(s, '\n').map_values(|line: Seq<char>| trim_end(line)), newline())
}

/// The length of `s` in bytes, in UTF-8.
pub open spec fn byte_len(s: Seq<char>) -> nat {
    encode_utf8(s).len()
}

/// Cutting `s` down to `limit` bytes splits no character.
pub open spec fn cuts_cleanly(s: Seq<char>, limit: int) -> bool {
    byte_len(s) > limit ==> is_char_boundary(encode_utf8(s), limit)
}

/// `s` where it has at most `limit` bytes, else its first `limit` bytes.
pub open spec fn clip(s: Seq<char>, limit: int) -> Seq<char> {
    if byte_len(s) > limit {
        decode_utf8(encode_utf8(s).subrange(0, limit))
    } else {
        s
    }
}

/// `n` in decimal digits.
pub open spec fn decimal(n: nat) -> Seq<char>
    decreases n,
{
    if n < 10 {
        seq![digit(n)]
    } else {
        decimal(n / 10).push(digit(n % 10))
    }
}

/// The digit for a number below ten.
pub open spec fn digit(n: nat) -> char {
    ('0' as u32 + n) as char
}

/// How many backslashes stand one behind the other right before position `i`.
pub open spec fn backslashes_before(s: Seq<char>, i: int) -> nat
    decreases i,
{
    if i <= 0 || s[i - 1] != '\\' {
        0
    } else {
        1 + backslashes_before(s, i - 1)
    }
}

/// The character at `i` is escaped: an odd number of backslashes stands right
/// before it, of which each two make one that escapes nothing.
pub open spec fn is_escaped(s: Seq<char>, i: int) -> bool {
    backslashes_before(s, i) % 2 == 1
}

/// The characters of each string of a vector.
pub open spec fn views(v: Seq<String>) -> Seq<Seq<char>> {
    v.map_values(|s: String| s@)
}

/// Splitting gives at least one piece.
pub proof fn lemma_split_nonempty(s: Seq<char>, sep: char)
    ensures
        split(s, sep).len() > 0,
    decreases s.len(),
{
    if s.len() > 0 {
        lemma_split_nonempty(s.drop_last(), sep);
    }
}

/// Counting goes piece by piece.
pub proof fn lemma_count_add(a: Seq<char>, b: Seq<char>, c: char)
    ensures
        count(a + b, c) == count(a, c) + count(b, c),
    decreases b.len(),
{
    if b.len() == 0 {
        assert(a + b =~= a);
    } else {
        assert((a + b).drop_last() =~= a + b.drop_last());
        lemma_count_add(a, b.drop_last(), c);
    }
}

/// No piece holds the separator.
pub proof fn lemma_split_pieces(s: Seq<char>, sep: char)
    ensures
        forall|i: int|
            0 <= i < split(s, sep).len() ==> count(#[trigger] split(s, sep)[i], sep) == 0,
    decreases s.len(),
{
    if s.len() > 0 {
        let before = split(s.drop_last(), sep);
        lemma_split_pieces(s.drop_last(), sep);
        lemma_split_nonempty(s.drop_last(), sep);
        let grown = before.last().push(s.last());
        assert(grown.drop_last() =~= before.last());
        assert(count(before[before.len() - 1], sep) == 0);
        assert forall|i: int| 0 <= i < split(s, sep).len() implies count(
            #[trigger] split(s, sep)[i],
            sep,
        ) == 0 by {
            if i < before.len() - 1 {
                assert(split(s, sep)[i] == before[i]);
            }
        }
    }
}

/// Trimming adds no character.
pub proof fn lemma_count_trim_end(s: Seq<char>, c: char)
    ensures
        count(trim_end(s), c) <= count(s, c),
    decreases s.len(),
{
    if s.len() > 0 && is_white_space(s.last()) {
        lemma_count_trim_end(s.drop_last(), c);
    }
}

/// Joined lines that hold no `\n` have one `\n` between neighbours.
pub proof fn lemma_count_join(pieces: Seq<Seq<char>>)
    requires
        pieces.len() > 0,
        forall|i: int| 0 <= i < pieces.len() ==> count(#[trigger] pieces[i], '\n') == 0,
    ensures
        count(join(pieces, newline()), '\n') == pieces.len() - 1,
    decreases pieces.len(),
{
    if pieces.len() > 1 {
        let front = pieces.drop_last();
        assert forall|i: int| 0 <= i < front.len() implies count(#[trigger] front[i], '\n')
            == 0 by {
            assert(front[i] == pieces[i]);
        }
        lemma_count_join(front);
        lemma_count_add(join(front, newline()), newline(), '\n');
        lemma_count_add(join(front, newline()) + newline(), pieces.last(), '\n');
        assert(count(pieces[pieces.len() - 1], '\n') == 0);
        assert(newline().drop_last() =~= Seq::<char>::empty());
        assert(count(newline(), '\n') == 1) by {
            reveal_with_fuel(count, 2);
        }
    }
}

/// Normalising keeps the number of lines.
pub proof fn lemma_count_normalized(s: Seq<char>)
    ensures
        count(normalized(s), '\n') == split(s, '\n').len() - 1,
{
    let pieces = split(s, '\n');
    let trimmed = pieces.map_values(|line: Seq<char>| trim_end(line));
    lemma_split_pieces(s, '\n');
    lemma_split_nonempty(s, '\n');
    assert forall|i: int| 0 <= i < trimmed.len() implies count(#[trigger] trimmed[i], '\n') == 0 by {
        assert(count(pieces[i], '\n') == 0);
        lemma_count_trim_end(pieces[i], '\n');
    }
    lemma_count_join(trimmed);
}

/// Putting the pieces of a text together again gives the text.
pub proof fn law_split_join(s: Seq<char>, sep: char)
    ensures
        join(split(s, sep), seq![sep]) == s,
    decreases s.len(),
{
    if s.len() > 0 {
        let init = s.drop_last();
        let before = split(init, sep);
        law_split_join(init, sep);
        lemma_split_nonempty(init, sep);
        if s.last() == sep {
            let after = before.push(Seq::empty());
            assert(after.drop_last() =~= before);
            assert(join(after, seq![sep]) =~= init + seq![sep] + Seq::<char>::empty());
            assert(init + seq![sep] + Seq::<char>::empty() =~= s);
        } else {
            let after = before.drop_last().push(before.last().push(s.last()));
            assert(after.drop_last() =~= before.drop_last());
            if before.len() == 1 {
                assert(join(after, seq![sep]) =~= init.push(s.last()));
            } else {
                assert(join(after, seq![sep]) =~= join(before, seq![sep]).push(s.last()));
            }
            assert(init.push(s.last()) =~= s);
        }
    } else {
        assert(join(split(s, sep), seq![sep]) =~= s);
    }
}

/// Two words take at least one character between them.
pub proof fn lemma_words_bound(s: Seq<char>)
    ensures
        2 * words(s).len() <= s.len() + 1,
        s.len() > 0 && is_white_space(s.last()) ==> 2 * words(s).len() <= s.len(),
        s.len() > 0 && !is_white_space(s.last()) ==> words(s).len() > 0,
    decreases s.len(),
{
    if s.len() > 0 {
        lemma_words_bound(s.drop_last());
    }
}

/// What [`find_from`] finds is the first occurrence from there on.
pub proof fn lemma_find_from(s: Seq<char>, pat: Seq<char>, from: int)
    requires
        0 <= from,
    ensures
        match find_from(s, pat, from) {
            Some(i) => from <= i && occurs_at(s, pat, i) && forall|j: int|
                from <= j < i ==> !#[trigger] occurs_at(s, pat, j),
            None => forall|j: int| from <= j ==> !#[trigger] occurs_at(s, pat, j),
        },
    decreases s.len() - from + 1,
{
    if from + pat.len() <= s.len() && !occurs_at(s, pat, from) {
        lemma_find_from(s, pat, from + 1);
    }
}

/// What [`find`] finds is the first occurrence, and it finds one where there
/// is one.
pub proof fn lemma_find(s: Seq<char>, pat: Seq<char>)
    ensures
        find(s, pat) is Some == contains(s, pat),
        find(s, pat) matches Some(i) ==> occurs_at(s, pat, i) && forall|j: int|
            0 <= j < i ==> !#[trigger] occurs_at(s, pat, j),
{
    lemma_find_from(s, pat, 0);
    if contains(s, pat) {
        let j = choose|j: int| occurs_at(s, pat, j);
        assert(occurs_at(s, pat, j));
    }
}

/// Where the text that trimming leaves stands.
pub proof fn lemma_trim_range(s: Seq<char>) -> (r: (int, int))
    ensures
        0 <= r.0 <= r.1 <= s.len(),
        trim(s) == s.subrange(r.0, r.1),
{
    let from = lemma_trim_start_range(s);
    let rest = s.skip(from);
    let len = lemma_trim_end_range(rest);
    assert(rest.take(len) =~= s.subrange(from, from + len));
    (from, from + len)
}

proof fn lemma_trim_start_range(s: Seq<char>) -> (from: int)
    ensures
        0 <= from <= s.len(),
        trim_start(s) == s.skip(from),
    decreases s.len(),
{
    if s.len() > 0 && is_white_space(s[0]) {
        let from = lemma_trim_start_range(s.drop_first());
        assert(s.drop_first().skip(from) =~= s.skip(from + 1));
        from + 1
    } else {
        assert(s.skip(0) =~= s);
        0
    }
}

proof fn lemma_trim_end_range(s: Seq<char>) -> (len: int)
    ensures
        0 <= len <= s.len(),
        trim_end(s) == s.take(len),
    decreases s.len(),
{
    if s.len() > 0 && is_white_space(s.last()) {
        let len = lemma_trim_end_range(s.drop_last());
        assert(s.drop_last().take(len) =~= s.take(len));
        len
    } else {
        assert(s.take(s.len() as int) =~= s);
        s.len() as int
    }
}

/// Trimming takes off the white space before `f` and behind `g`, and no more
/// where neither `f` nor `g` is white space.
pub proof fn lemma_trim_exact(s: Seq<char>, f: int, g: int)
    requires
        0 <= f <= g < s.len(),
        !is_white_space(s[f]),
        !is_white_space(s[g]),
        forall|k: int| 0 <= k < f ==> is_white_space(#[trigger] s[k]),
        forall|k: int| g < k < s.len() ==> is_white_space(#[trigger] s[k]),
    ensures
        trim(s) == s.subrange(f, g + 1),
    decreases s.len(),
{
    if f > 0 {
        let rest = s.drop_first();
        assert forall|k: int| 0 <= k < f - 1 implies is_white_space(#[trigger] rest[k]) by {
            assert(rest[k] == s[k + 1]);
        }
        assert forall|k: int| g - 1 < k < rest.len() implies is_white_space(
            #[trigger] rest[k],
        ) by {
            assert(rest[k] == s[k + 1]);
        }
        lemma_trim_exact(rest, f - 1, g - 1);
        assert(rest.subrange(f - 1, g) =~= s.subrange(f, g + 1));
    } else {
        lemma_trim_end_exact(s, g);
        assert(s.take(g + 1) =~= s.subrange(f, g + 1));
    }
}

proof fn lemma_trim_end_exact(s: Seq<char>, g: int)
    requires
        0 <= g < s.len(),
        !is_white_space(s[g]),
        forall|k: int| g < k < s.len() ==> is_white_space(#[trigger] s[k]),
    ensures
        trim_end(s) == s.take(g + 1),
    decreases s.len(),
{
    if g + 1 < s.len() {
        let front = s.drop_last();
        assert forall|k: int| g < k < front.len() implies is_white_space(#[trigger] front[k]) by {
            assert(front[k] == s[k]);
        }
        lemma_trim_end_exact(front, g);
        assert(front.take(g + 1) =~= s.take(g + 1));
    } else {
        assert(s.take(g + 1) =~= s);
    }
}

/// Trimming leaves nothing of white space.
pub proof fn lemma_trim_blank(s: Seq<char>)
    requires
        is_blank(s),
    ensures
        trim(s) == Seq::<char>::empty(),
    decreases s.len(),
{
    if s.len() > 0 {
        let rest = s.drop_first();
        assert forall|i: int| 0 <= i < rest.len() implies is_white_space(#[trigger] rest[i]) by {
            assert(rest[i] == s[i + 1]);
        }
        lemma_trim_blank(rest);
    } else {
        assert(s =~= Seq::empty());
    }
}

/// Where a text that is not blank begins and ends.
pub proof fn lemma_not_blank(s: Seq<char>) -> (r: (int, int))
    requires
        !is_blank(s),
    ensures
        0 <= r.0 <= r.1 < s.len(),
        !is_white_space(s[r.0]),
        !is_white_space(s[r.1]),
        forall|k: int| 0 <= k < r.0 ==> is_white_space(#[trigger] s[k]),
        forall|k: int| r.1 < k < s.len() ==> is_white_space(#[trigger] s[k]),
    decreases s.len(),
{
    let bad = choose|i: int| 0 <= i < s.len() && !is_white_space(#[trigger] s[i]);
    assert(s.len() > 0);
    if !is_white_space(s[0]) && !is_white_space(s.last()) {
        (0, s.len() - 1)
    } else if is_white_space(s[0]) {
        let rest = s.drop_first();
        assert(rest[bad - 1] == s[bad]);
        let r = lemma_not_blank(rest);
        assert forall|k: int| 0 <= k < r.0 + 1 implies is_white_space(#[trigger] s[k]) by {
            if k > 0 {
                assert(s[k] == rest[k - 1]);
            }
        }
        assert forall|k: int| r.1 + 1 < k < s.len() implies is_white_space(#[trigger] s[k]) by {
            assert(s[k] == rest[k - 1]);
        }
        (r.0 + 1, r.1 + 1)
    } else {
        let front = s.drop_last();
        assert(front[bad] == s[bad]);
        let r = lemma_not_blank(front);
        assert forall|k: int| 0 <= k < r.0 implies is_white_space(#[trigger] s[k]) by {
            assert(s[k] == front[k]);
        }
        assert forall|k: int| r.1 < k < s.len() implies is_white_space(#[trigger] s[k]) by {
            if k < front.len() {
                assert(s[k] == front[k]);
            }
        }
        r
    }
}

/// What a clean cut leaves is the text itself, or a prefix of exactly `limit`
/// bytes.
pub proof fn law_clip_is_prefix(s: Seq<char>, limit: int)
    requires
        limit >= 0,
        cuts_cleanly(s, limit),
    ensures
        clip(s, limit).is_prefix_of(s),
        byte_len(s) <= limit ==> clip(s, limit) == s,
        byte_len(s) > limit ==> byte_len(clip(s, limit)) == limit,
{
    let bytes = encode_utf8(s);
    if bytes.len() > limit {
        let head = bytes.subrange(0, limit);
        let tail = bytes.subrange(limit, bytes.len() as int);
        vstd::utf8::encode_utf8_valid_utf8(s);
        vstd::utf8::encode_utf8_decode_utf8(s);
        vstd::utf8::valid_utf8_split(bytes, limit);
        vstd::utf8::decode_utf8_split(bytes, limit);
        vstd::utf8::decode_utf8_encode_utf8(head);
        assert(s == decode_utf8(head) + decode_utf8(tail));
        assert(decode_utf8(head) =~= s.subrange(0, decode_utf8(head).len() as int));
    }
}

/// An ASCII text is cut cleanly anywhere: its first `limit` characters are
/// left.
pub proof fn law_clip_ascii(s: Seq<char>, limit: int)
    requires
        limit >= 0,
        is_ascii_chars(s),
    ensures
        cuts_cleanly(s, limit),
        clip(s, limit) == (if s.len() > limit {
            s.take(limit)
        } else {
            s
        }),
{
    let bytes = encode_utf8(s);
    vstd::utf8::is_ascii_chars_encode_utf8(s);
    if s.len() > limit {
        let c = s[limit];
        assert(bytes[limit] == c as u8);
        let byte = bytes[limit];
        assert(byte < 128);
        vstd::utf8::encode_utf8_valid_utf8(s);
        assert(!vstd::utf8::is_continuation_byte(byte));
        vstd::utf8::is_char_boundary_iff_not_is_continuation_byte(bytes, limit);
        let head = s.take(limit);
        assert(is_ascii_chars(head)) by {
            assert forall|i: int| 0 <= i < head.len() implies '\0' <= #[trigger] head[i]
                <= '\u{7f}' by {
                assert(head[i] == s[i]);
            }
        }
        vstd::utf8::is_ascii_chars_encode_utf8(head);
        assert(encode_utf8(head) =~= bytes.subrange(0, limit)) by {
            assert forall|i: int| 0 <= i < limit implies #[trigger] encode_utf8(head)[i]
                == bytes[i] by {
                assert(head[i] == s[i]);
            }
        }
        vstd::utf8::encode_utf8_decode_utf8(head);
    }
}

/// What follows does not change which characters are escaped.
pub proof fn lemma_escaped_prefix(s: Seq<char>, rest: Seq<char>, i: int)
    requires
        0 <= i <= s.len(),
    ensures
        backslashes_before(s + rest, i) == backslashes_before(s, i),
    decreases i,
{
    if i > 0 {
        assert((s + rest)[i - 1] == s[i - 1]);
        lemma_escaped_prefix(s, rest, i - 1);
    }
}

/// A run of backslashes goes on into what stands before only where it reaches
/// the beginning.
pub proof fn lemma_escaped_suffix(head: Seq<char>, s: Seq<char>, i: int)
    requires
        0 <= i <= s.len(),
    ensures
        backslashes_before(s, i) <= i,
        backslashes_before(head + s, head.len() + i) == backslashes_before(s, i) + (
        if backslashes_before(s, i) == i {
            backslashes_before(head, head.len() as int)
        } else {
            0
        }),
    decreases i,
{
    if i > 0 {
        assert((head + s)[head.len() + i - 1] == s[i - 1]);
        lemma_escaped_suffix(head, s, i - 1);
    } else {
        lemma_escaped_prefix(head, s, head.len() as int);
    }
}

} // verus!
