//! How the operations on texts behave on texts that are put together.

use vstd::prelude::*;
use vstd::utf8::{
    encode_utf8, encode_utf8_decode_utf8, encode_utf8_first_scalar, encode_utf8_valid_utf8,
    is_char_boundary,
};
use crate::chars;
use crate::chars::{
    byte_len, clip, contains, count, cuts_cleanly, decimal, find, is_blank, is_escaped, is_white_space, join, lines, normalized,
    occurs_at, replace_first, split, strip_end, strip_start, trim, trim_end, trim_start, words,
};

verus! {

/// A text without the separator is one piece.
pub proof fn law_split_one_piece(s: Seq<char>, sep: char)
    requires
        !s.contains(sep),
    ensures
        split(s, sep) == seq![s],
    decreases s.len(),
{
    if s.len() > 0 {
        let front = s.drop_last();
        assert forall|i: int| 0 <= i < front.len() implies front[i] != sep by {
            assert(front[i] == s[i]);
        }
        law_split_one_piece(front, sep);
        assert(s[s.len() - 1] == s.last());
        assert(front.push(s.last()) =~= s);
        assert(split(s, sep) =~= seq![s]);
    } else {
        assert(s =~= Seq::empty());
    }
}

/// The pieces on both sides of a separator are the pieces of the whole.
pub proof fn law_split_at_separator(a: Seq<char>, sep: char, b: Seq<char>)
    ensures
        split(a + seq![sep] + b, sep) == split(a, sep) + split(b, sep),
    decreases b.len(),
{
    let whole = a + seq![sep] + b;
    chars::lemma_split_nonempty(a, sep);
    if b.len() == 0 {
        assert(whole.drop_last() =~= a);
        assert(split(whole, sep) =~= split(a, sep) + split(b, sep));
    } else {
        let front = b.drop_last();
        law_split_at_separator(a, sep, front);
        chars::lemma_split_nonempty(front, sep);
        assert(whole.drop_last() =~= a + seq![sep] + front);
        assert(whole.last() == b.last());
        assert(split(whole, sep) =~= split(a, sep) + split(b, sep));
    }
}

/// Pieces are joined with the separator between them and nowhere else.
pub proof fn law_join_of_both(a: Seq<Seq<char>>, b: Seq<Seq<char>>, sep: Seq<char>)
    requires
        a.len() > 0,
        b.len() > 0,
    ensures
        join(a + b, sep) == join(a, sep) + sep + join(b, sep),
        a.len() == 1 ==> join(a, sep) == a[0],
        join(Seq::empty(), sep) == Seq::<char>::empty(),
    decreases b.len(),
{
    let all = a + b;
    assert(all.last() == b.last());
    if b.len() == 1 {
        assert(all.drop_last() =~= a);
    } else {
        let front = b.drop_last();
        law_join_of_both(a, front, sep);
        assert(all.drop_last() =~= a + front);
        assert(join(all, sep) =~= join(a, sep) + sep + join(b, sep));
    }
}

/// Joined pieces without the separator come apart again.
pub proof fn law_join_split(pieces: Seq<Seq<char>>, sep: char)
    requires
        pieces.len() > 0,
        forall|i: int| 0 <= i < pieces.len() ==> !(#[trigger] pieces[i]).contains(sep),
    ensures
        split(join(pieces, seq![sep]), sep) == pieces,
    decreases pieces.len(),
{
    let last = pieces.last();
    assert(!pieces[pieces.len() - 1].contains(sep));
    law_split_one_piece(last, sep);
    if pieces.len() == 1 {
        assert(pieces =~= seq![last]);
    } else {
        let front = pieces.drop_last();
        assert forall|i: int| 0 <= i < front.len() implies !(#[trigger] front[i]).contains(sep) by {
            assert(front[i] == pieces[i]);
        }
        law_join_split(front, sep);
        law_split_at_separator(join(front, seq![sep]), sep, last);
        assert(front + seq![last] =~= pieces);
    }
}

/// A text without white space is one word, and the empty text none.
pub proof fn law_words_one_word(s: Seq<char>)
    requires
        forall|i: int| 0 <= i < s.len() ==> !is_white_space(#[trigger] s[i]),
    ensures
        words(s) == (if s.len() == 0 {
            Seq::empty()
        } else {
            seq![s]
        }),
    decreases s.len(),
{
    if s.len() > 0 {
        let front = s.drop_last();
        assert forall|i: int| 0 <= i < front.len() implies !is_white_space(#[trigger] front[i]) by {
            assert(front[i] == s[i]);
        }
        law_words_one_word(front);
        assert(!is_white_space(s[s.len() - 1]));
        assert(front.push(s.last()) =~= s);
        if s.len() > 1 {
            assert(!is_white_space(s[s.len() - 2]));
            assert(words(s) =~= seq![s]);
        } else {
            assert(seq![s.last()] =~= s);
            assert(words(s) =~= seq![s]);
        }
    }
}

/// The words on both sides of white space are the words of the whole.
pub proof fn law_words_at_white_space(a: Seq<char>, space: char, b: Seq<char>)
    requires
        is_white_space(space),
    ensures
        words(a + seq![space] + b) == words(a) + words(b),
    decreases b.len(),
{
    let whole = a + seq![space] + b;
    if b.len() == 0 {
        assert(whole.drop_last() =~= a);
        assert(words(a) + words(b) =~= words(a));
    } else {
        let front = b.drop_last();
        law_words_at_white_space(a, space, front);
        assert(whole.drop_last() =~= a + seq![space] + front);
        assert(whole.last() == b.last());
        let c = b.last();
        if !is_white_space(c) {
            if b.len() > 1 {
                assert(whole[whole.len() - 2] == b[b.len() - 2]);
                if !is_white_space(b[b.len() - 2]) {
                    chars::lemma_words_bound(front);
                    assert(front.last() == b[b.len() - 2]);
                }
            } else {
                assert(whole[whole.len() - 2] == space);
            }
            assert(words(whole) =~= words(a) + words(b));
        }
    }
}

/// A line ends at its line end, with one carriage return before it taken off;
/// what follows the last line end is a line unless it is empty.
pub proof fn law_lines_one_by_one(line: Seq<char>, rest: Seq<char>)
    requires
        !line.contains('\n'),
    ensures
        lines(line + seq!['\n'] + rest) == seq![
            if line.len() > 0 && line.last() == '\r' {
                line.drop_last()
            } else {
                line
            },
        ] + lines(rest),
        lines(line) == (if line.len() == 0 {
            Seq::empty()
        } else {
            seq![line]
        }),
{
    let whole = line + seq!['\n'] + rest;
    law_split_one_piece(line, '\n');
    law_split_at_separator(line, '\n', rest);
    chars::lemma_split_nonempty(rest, '\n');
    let pieces = split(rest, '\n');
    let all = split(whole, '\n');
    assert(all == seq![line] + pieces);
    assert(all.last() == pieces.last());
    assert(all.drop_last() =~= seq![line] + pieces.drop_last());
    let first = if line.len() > 0 && line.last() == '\r' {
        line.drop_last()
    } else {
        line
    };
    assert(lines(whole) =~= seq![first] + lines(rest));
    assert(seq![line].drop_last() =~= Seq::<Seq<char>>::empty());
    if line.len() == 0 {
        assert(lines(line) =~= Seq::<Seq<char>>::empty());
    } else {
        assert(lines(line) =~= seq![line]);
    }
}

/// Each line loses the white space at its end, and nothing else happens.
pub proof fn law_normalized_line_by_line(line: Seq<char>, rest: Seq<char>)
    requires
        !line.contains('\n'),
    ensures
        normalized(line) == trim_end(line),
        normalized(line + seq!['\n'] + rest) == trim_end(line) + seq!['\n'] + normalized(rest),
{
    let f = |l: Seq<char>| trim_end(l);
    law_split_one_piece(line, '\n');
    law_split_at_separator(line, '\n', rest);
    chars::lemma_split_nonempty(rest, '\n');
    let one = seq![line].map_values(f);
    let more = split(rest, '\n').map_values(f);
    assert(one =~= seq![trim_end(line)]);
    assert((seq![line] + split(rest, '\n')).map_values(f) =~= one + more);
    law_join_of_both(one, more, chars::newline());
    law_join_of_both(one, one, chars::newline());
}

/// White space at the end is taken off as far as it goes.
pub proof fn law_trim_end_of(core: Seq<char>, space: Seq<char>)
    requires
        core.len() > 0 ==> !is_white_space(core.last()),
        is_blank(space),
    ensures
        trim_end(core + space) == core,
    decreases space.len(),
{
    if space.len() > 0 {
        let front = space.drop_last();
        assert forall|i: int| 0 <= i < front.len() implies is_white_space(#[trigger] front[i]) by {
            assert(front[i] == space[i]);
        }
        law_trim_end_of(core, front);
        assert(is_white_space(space[space.len() - 1]));
        assert((core + space).last() == space.last());
        assert((core + space).drop_last() =~= core + front);
    } else {
        assert(core + space =~= core);
    }
}

/// White space is taken off on both sides as far as it goes.
pub proof fn law_trim_of(before: Seq<char>, core: Seq<char>, after: Seq<char>)
    requires
        is_blank(before),
        is_blank(after),
        core.len() > 0 ==> !is_white_space(core[0]) && !is_white_space(core.last()),
    ensures
        trim(before + core + after) == core,
{
    let s = before + core + after;
    if core.len() == 0 {
        assert forall|i: int| 0 <= i < s.len() implies is_white_space(#[trigger] s[i]) by {
            if i < before.len() {
                assert(s[i] == before[i]);
            } else {
                assert(s[i] == after[i - before.len()]);
            }
        }
        chars::lemma_trim_blank(s);
        assert(core =~= Seq::empty());
    } else {
        let f = before.len() as int;
        let g = f + core.len() - 1;
        assert(s[f] == core[0] && s[g] == core.last());
        assert forall|k: int| 0 <= k < f implies is_white_space(#[trigger] s[k]) by {
            assert(s[k] == before[k]);
        }
        assert forall|k: int| g < k < s.len() implies is_white_space(#[trigger] s[k]) by {
            assert(s[k] == after[k - g - 1]);
        }
        chars::lemma_trim_exact(s, f, g);
        assert(s.subrange(f, g + 1) =~= core);
    }
}

/// A text holds another exactly where it can be written around it.
pub proof fn law_contains_iff_written_around(s: Seq<char>, pat: Seq<char>)
    ensures
        contains(s, pat) <==> exists|a: Seq<char>, b: Seq<char>| s == #[trigger] (a + pat + b),
{
    if contains(s, pat) {
        let i = choose|i: int| occurs_at(s, pat, i);
        let a = s.take(i);
        let b = s.skip(i + pat.len());
        assert(s =~= a + pat + b) by {
            assert forall|k: int| i <= k < i + pat.len() implies s[k] == #[trigger] pat[k - i] by {
                assert(s.subrange(i, i + pat.len())[k - i] == s[k]);
            }
        }
    }
    if exists|a: Seq<char>, b: Seq<char>| s == #[trigger] (a + pat + b) {
        let (a, b) = choose|a: Seq<char>, b: Seq<char>| s == #[trigger] (a + pat + b);
        let i = a.len() as int;
        assert(s.subrange(i, i + pat.len()) =~= pat);
        assert(occurs_at(s, pat, i));
    }
}

/// The first occurrence of a text is replaced, and what stands around it stays.
pub proof fn law_replace_first_of(a: Seq<char>, pat: Seq<char>, b: Seq<char>, with: Seq<char>)
    requires
        forall|j: int| 0 <= j < a.len() ==> #[trigger] (a + pat + b).subrange(j, j + pat.len()) != pat,
    ensures
        find(a + pat + b, pat) == Some(a.len() as int),
        replace_first(a + pat + b, pat, with) == a + with + b,
{
    let s = a + pat + b;
    let i = a.len() as int;
    chars::lemma_find(s, pat);
    assert(s.subrange(i, i + pat.len()) =~= pat);
    assert(occurs_at(s, pat, i));
    let f = find(s, pat).unwrap();
    if f < i {
        assert(s.subrange(f, f + pat.len()) == pat);
    }
    assert(s.take(i) =~= a);
    assert(s.skip(i + pat.len()) =~= b);
}

/// A text that does not hold another is left as it is.
pub proof fn law_replace_first_of_none(s: Seq<char>, pat: Seq<char>, with: Seq<char>)
    requires
        !contains(s, pat),
    ensures
        find(s, pat) is None,
        replace_first(s, pat, with) == s,
{
    chars::lemma_find(s, pat);
}

/// Every occurrence of a character is counted once.
pub proof fn law_count_one_by_one(s: Seq<char>, d: char, c: char)
    ensures
        count(s.push(d), c) == count(s, c) + if d == c {
            1int
        } else {
            0int
        },
        count(Seq::empty(), c) == 0,
{
    assert(s.push(d).drop_last() =~= s);
}

/// One more digit at the end of a number is one more character.
pub proof fn law_decimal_digit_by_digit(n: nat, d: nat)
    requires
        d < 10,
    ensures
        decimal(d) == seq!["0123456789"@[d as int]],
        n > 0 ==> decimal(10 * n + d) == decimal(n).push("0123456789"@[d as int]),
{
    reveal_strlit("0123456789");
    assert((10 * n + d) / 10 == n && (10 * n + d) % 10 == d);
    assert(chars::digit(d) == "0123456789"@[d as int]);
}

/// A character behind a backslash is escaped unless that backslash is, and a
/// character behind any other is not.
pub proof fn law_escapes_alternate(s: Seq<char>, c: char)
    ensures
        !is_escaped(s, 0),
        is_escaped(s.push(c), s.len() as int + 1) == (c == '\\' && !is_escaped(s, s.len() as int)),
{
    let more = s.push(c);
    assert(more =~= s + seq![c]);
    chars::lemma_escaped_prefix(s, seq![c], s.len() as int);
    assert(more[s.len() as int] == c);
}

/// A run of a character is stripped at the start as far as it goes, and at the
/// end as far as it goes.
pub proof fn law_strip_one_by_one(s: Seq<char>, c: char)
    ensures
        strip_start(seq![c] + s, c) == strip_start(s, c),
        strip_end(s.push(c), c) == strip_end(s, c),
        s.len() > 0 && s[0] != c ==> strip_start(s, c) == s,
        s.len() > 0 && s.last() != c ==> strip_end(s, c) == s,
{
    assert((seq![c] + s).drop_first() =~= s);
    assert(s.push(c).drop_last() =~= s);
}

/// White space in front is taken off as far as it goes.
pub proof fn law_trim_start_one_by_one(s: Seq<char>, c: char)
    ensures
        is_white_space(c) ==> trim_start(seq![c] + s) == trim_start(s),
        !is_white_space(c) ==> trim_start(seq![c] + s) == seq![c] + s,
{
    assert((seq![c] + s).drop_first() =~= s);
}

/// The characters that are white space.
pub proof fn law_white_space(c: char)
    ensures
        is_white_space(c) <==> ('\u{9}' <= c <= '\u{d}') || c == ' ' || c == '\u{85}' || c == '\u{a0}'
            || c == '\u{1680}' || ('\u{2000}' <= c <= '\u{200a}') || c == '\u{2028}' || c == '\u{2029}'
            || c == '\u{202f}' || c == '\u{205f}' || c == '\u{3000}',
{
}

/// A text is as long in bytes as its parts, and a part without bytes is empty.
pub proof fn law_bytes_of_both(a: Seq<char>, b: Seq<char>)
    ensures
        byte_len(a + b) == byte_len(a) + byte_len(b),
        byte_len(b) >= b.len(),
        encode_utf8(a + b) == encode_utf8(a) + encode_utf8(b),
    decreases a.len(), b.len(),
{
    if b.len() > 0 {
        law_bytes_of_both(Seq::empty(), b.drop_first());
        encode_utf8_first_scalar(b);
    }
    if a.len() == 0 {
        assert(a + b =~= b);
        assert(encode_utf8(a) + encode_utf8(b) =~= encode_utf8(b));
    } else {
        law_bytes_of_both(a.drop_first(), b);
        assert((a + b).drop_first() =~= a.drop_first() + b);
        assert((a + b)[0] == a[0]);
        assert(encode_utf8(a + b) =~= encode_utf8(a) + encode_utf8(b));
    }
}

/// A text can be cut behind each of its characters, and what is left is what
/// stands before the cut.
pub proof fn law_cut_between_characters(a: Seq<char>, b: Seq<char>)
    ensures
        cuts_cleanly(a + b, byte_len(a) as int),
        clip(a + b, byte_len(a) as int) == a,
{
    law_bytes_of_both(a, b);
    lemma_boundary(a, b);
    if byte_len(a + b) > byte_len(a) {
        assert(encode_utf8(a + b).subrange(0, byte_len(a) as int) =~= encode_utf8(a));
        encode_utf8_decode_utf8(a);
    } else {
        assert(b.len() == 0);
        assert(a + b =~= a);
    }
}

proof fn lemma_boundary(a: Seq<char>, b: Seq<char>)
    ensures
        is_char_boundary(encode_utf8(a + b), byte_len(a) as int),
    decreases a.len(),
{
    encode_utf8_valid_utf8(a + b);
    if a.len() > 0 {
        let whole = a + b;
        let bytes = encode_utf8(whole);
        law_bytes_of_both(a, b);
        encode_utf8_first_scalar(whole);
        encode_utf8_first_scalar(a);
        assert(whole[0] == a[0]);
        assert(whole.drop_first() =~= a.drop_first() + b);
        assert(vstd::utf8::pop_first_scalar(bytes) =~= encode_utf8(whole.drop_first()));
        lemma_boundary(a.drop_first(), b);
    }
}

} // verus!
