//! Texts at run time, each function proved against its counterpart in
//! [`crate::chars`].

use vstd::prelude::*;
use crate::chars;

verus! {

/// `String::push` of std appends one character.
pub assume_specification[ String::push ](s: &mut String, c: char)
    ensures
        final(s)@ == old(s)@.push(c),
;

/// Whether `c` is white space.
pub fn is_white_space(c: char) -> (r: bool)
    ensures
        r == chars::is_white_space(c),
{
    ('\u{9}' <= c && c <= '\u{d}') || c == ' ' || c == '\u{85}' || c == '\u{a0}' || c == '\u{1680}'
        || ('\u{2000}' <= c && c <= '\u{200a}') || c == '\u{2028}' || c == '\u{2029}' || c
        == '\u{202f}' || c == '\u{205f}' || c == '\u{3000}'
}

/// The characters of `s`.
pub fn chars_of(s: &str) -> (r: Vec<char>)
    ensures
        r@ == s@,
{
    let mut v: Vec<char> = Vec::new();
    for c in it: s.chars()
        invariant
            it.seq() == s@,
            v@ == s@.take(it.index()),
    {
        assert(s@.take(it.index() + 1) =~= s@.take(it.index()).push(c));
        v.push(c);
    }
    assert(s@.take(s@.len() as int) =~= s@);
    v
}

/// The text from position `from` up to position `to`.
pub fn text_of(cs: &[char], from: usize, to: usize) -> (r: String)
    requires
        from <= to <= cs@.len(),
    ensures
        r@ == cs@.subrange(from as int, to as int),
{
    let mut out = String::new();
    let mut i: usize = from;
    while i < to
        invariant
            from <= i <= to <= cs@.len(),
            out@ == cs@.subrange(from as int, i as int),
        decreases to - i,
    {
        out.push(cs[i]);
        i += 1;
        assert(cs@.subrange(from as int, i as int) =~= cs@.subrange(from as int, i - 1).push(
            cs@[i - 1],
        ));
    }
    out
}

/// Whether two texts are the same.
pub fn same(a: &str, b: &str) -> (r: bool)
    ensures
        r == (a@ == b@),
{
    a.to_owned() == b.to_owned()
}

/// The length of `s` in bytes.
pub fn byte_len(s: &str) -> (r: usize)
    ensures
        r == chars::byte_len(s@),
{
    s.as_bytes().len()
}

/// Whether cutting `s` down to `limit` bytes splits no character.
pub fn cuts_cleanly(s: &str, limit: usize) -> (r: bool)
    ensures
        r == chars::cuts_cleanly(s@, limit as int),
{
    byte_len(s) <= limit || s.is_char_boundary(limit)
}

/// `s`, cut down to its first `limit` bytes where it has more.
pub fn clip(s: &str, limit: usize) -> (r: String)
    requires
        chars::cuts_cleanly(s@, limit as int),
    ensures
        r@ == chars::clip(s@, limit as int),
{
    if byte_len(s) > limit {
        let (head, _tail) = s.split_at(limit);
        proof {
            vstd::utf8::encode_utf8_decode_utf8(head@);
        }
        head.to_owned()
    } else {
        s.to_owned()
    }
}

/// `s` without its trailing white space.
pub fn trim_end(s: &str) -> (r: String)
    ensures
        r@ == chars::trim_end(s@),
{
    let cs = chars_of(s);
    let end = trimmed_end(&cs, 0);
    assert(s@.subrange(0, s@.len() as int) =~= s@);
    text_of(&cs, 0, end)
}

/// Where the trailing white space of `cs`, read from position `from` on, begins.
fn trimmed_end(cs: &Vec<char>, from: usize) -> (end: usize)
    requires
        from <= cs@.len(),
    ensures
        from <= end <= cs@.len(),
        cs@.subrange(from as int, end as int) == chars::trim_end(
            cs@.subrange(from as int, cs@.len() as int),
        ),
{
    let mut end: usize = cs.len();
    while end > from && is_white_space(cs[end - 1])
        invariant
            from <= end <= cs@.len(),
            chars::trim_end(cs@.subrange(from as int, end as int)) == chars::trim_end(
                cs@.subrange(from as int, cs@.len() as int),
            ),
        decreases end,
    {
        assert(cs@.subrange(from as int, end as int).drop_last() =~= cs@.subrange(
            from as int,
            end - 1,
        ));
        end -= 1;
    }
    end
}

/// `s` without the white space around it.
pub fn trim(s: &str) -> (r: String)
    ensures
        r@ == chars::trim(s@),
{
    let cs = chars_of(s);
    let n = cs.len();
    let mut from: usize = 0;
    assert(s@.subrange(0, n as int) =~= s@);
    while from < n && is_white_space(cs[from])
        invariant
            cs@ == s@,
            n == cs@.len(),
            from <= n,
            chars::trim_start(s@) == chars::trim_start(cs@.subrange(from as int, n as int)),
        decreases n - from,
    {
        assert(cs@.subrange(from as int, n as int).drop_first() =~= cs@.subrange(
            from + 1,
            n as int,
        ));
        from += 1;
    }
    let end = trimmed_end(&cs, from);
    text_of(&cs, from, end)
}

/// `s` without the runs of `c` at its start and at its end.
pub fn strip_matches(s: &str, c: char) -> (r: String)
    ensures
        r@ == chars::strip_end(chars::strip_start(s@, c), c),
{
    let cs = chars_of(s);
    let n = cs.len();
    let mut from: usize = 0;
    assert(s@.subrange(0, n as int) =~= s@);
    while from < n && cs[from] == c
        invariant
            cs@ == s@,
            n == cs@.len(),
            from <= n,
            chars::strip_start(s@, c) == chars::strip_start(cs@.subrange(from as int, n as int), c),
        decreases n - from,
    {
        assert(cs@.subrange(from as int, n as int).drop_first() =~= cs@.subrange(
            from + 1,
            n as int,
        ));
        from += 1;
    }
    let mut end: usize = n;
    let ghost rest = chars::strip_start(s@, c);
    while end > from && cs[end - 1] == c
        invariant
            from <= end <= n,
            n == cs@.len(),
            chars::strip_end(cs@.subrange(from as int, end as int), c) == chars::strip_end(rest, c),
        decreases end,
    {
        assert(cs@.subrange(from as int, end as int).drop_last() =~= cs@.subrange(
            from as int,
            end - 1,
        ));
        end -= 1;
    }
    text_of(&cs, from, end)
}

/// The pieces of `s` between the occurrences of `sep`.
pub fn split(s: &str, sep: char) -> (r: Vec<String>)
    ensures
        chars::views(r@) == chars::split(s@, sep),
{
    let mut done: Vec<String> = Vec::new();
    let mut piece = String::new();
    assert(chars::views(done@).push(piece@) =~= chars::split(s@.take(0), sep));
    for c in it: s.chars()
        invariant
            it.seq() == s@,
            chars::views(done@).push(piece@) == chars::split(s@.take(it.index()), sep),
    {
        let ghost before = chars::split(s@.take(it.index()), sep);
        proof {
            assert(s@.take(it.index() + 1).drop_last() =~= s@.take(it.index()));
            assert(before.drop_last() =~= chars::views(done@));
        }
        if c == sep {
            done.push(piece);
            piece = String::new();
            assert(chars::views(done@) =~= before);
        } else {
            piece.push(c);
        }
    }
    assert(s@.take(s@.len() as int) =~= s@);
    let ghost early = done@;
    done.push(piece);
    assert(chars::views(done@) =~= chars::views(early).push(piece@));
    done
}

/// The pieces one after the other, with `sep` between neighbours.
pub fn join(pieces: &[String], sep: &str) -> (r: String)
    ensures
        r@ == chars::join(chars::views(pieces@), sep@),
{
    let mut out = String::new();
    let ghost all = chars::views(pieces@);
    let mut i: usize = 0;
    while i < pieces.len()
        invariant
            i <= pieces@.len(),
            all == chars::views(pieces@),
            out@ == chars::join(all.take(i as int), sep@),
        decreases pieces.len() - i,
    {
        if i > 0 {
            out.append(sep);
        }
        out.append(pieces[i].as_str());
        i += 1;
        assert(all.take(i as int).drop_last() =~= all.take(i - 1));
        assert(out@ =~= chars::join(all.take(i as int), sep@));
    }
    assert(all.take(i as int) =~= all);
    out
}

/// `s` with the trailing white space of each line taken off.
pub fn normalized(s: &str) -> (r: String)
    ensures
        r@ == chars::normalized(s@),
{
    let pieces = split(s, '\n');
    let mut out: Vec<String> = Vec::new();
    let ghost trimmed = chars::split(s@, '\n').map_values(|line: Seq<char>| chars::trim_end(line));
    let mut i: usize = 0;
    while i < pieces.len()
        invariant
            i <= pieces@.len(),
            trimmed == chars::views(pieces@).map_values(|line: Seq<char>| chars::trim_end(line)),
            chars::views(out@) == trimmed.take(i as int),
        decreases pieces.len() - i,
    {
        let ghost early = out@;
        out.push(trim_end(pieces[i].as_str()));
        assert(chars::views(out@) =~= chars::views(early).push(trimmed[i as int]));
        assert(trimmed.take(i + 1) =~= trimmed.take(i as int).push(trimmed[i as int]));
        i += 1;
    }
    assert(trimmed.take(i as int) =~= trimmed);
    proof {
        reveal_strlit("\n");
        assert("\n"@ =~= chars::newline());
    }
    join(&out, "\n")
}

/// The lines of `s`.
pub fn lines(s: &str) -> (r: Vec<String>)
    ensures
        chars::views(r@) == chars::lines(s@),
{
    let pieces = split(s, '\n');
    let ghost all = chars::split(s@, '\n');
    proof {
        chars::lemma_split_nonempty(s@, '\n');
        assert(all.len() == pieces@.len());
    }
    let n = pieces.len();
    let mut out: Vec<String> = Vec::new();
    let ghost ended = all.drop_last().map_values(|p: Seq<char>| chars::strip_cr(p));
    let mut i: usize = 0;
    while i + 1 < n
        invariant
            n == pieces@.len(),
            0 < n,
            i < n,
            all == chars::views(pieces@),
            ended == all.drop_last().map_values(|p: Seq<char>| chars::strip_cr(p)),
            chars::views(out@) == ended.take(i as int),
        decreases n - i,
    {
        let cs = chars_of(pieces[i].as_str());
        assert(all[i as int] == cs@);
        let end = if cs.len() > 0 && cs[cs.len() - 1] == '\r' {
            cs.len() - 1
        } else {
            cs.len()
        };
        assert(cs@.subrange(0, end as int) =~= ended[i as int]);
        let ghost early = out@;
        out.push(text_of(&cs, 0, end));
        assert(chars::views(out@) =~= chars::views(early).push(ended[i as int]));
        assert(ended.take(i + 1) =~= ended.take(i as int).push(ended[i as int]));
        i += 1;
    }
    assert(ended.take(i as int) =~= ended);
    assert(all.last() == pieces@[n - 1]@);
    if !pieces[n - 1].as_str().is_empty() {
        let ghost early = out@;
        out.push(pieces[n - 1].clone());
        assert(chars::views(out@) =~= chars::views(early).push(all.last()));
    }
    out
}

/// The words of `s`.
pub fn words(s: &str) -> (r: Vec<String>)
    ensures
        chars::views(r@) == chars::words(s@),
        2 * r@.len() <= usize::MAX + 1,
{
    let cs = chars_of(s);
    let n = cs.len();
    proof {
        chars::lemma_words_bound(s@);
    }
    let mut done: Vec<String> = Vec::new();
    let mut word = String::new();
    let mut i: usize = 0;
    assert(chars::views(done@) =~= chars::words(s@.take(0)));
    while i < n
        invariant
            cs@ == s@,
            n == cs@.len(),
            i <= n,
            (word@.len() > 0) == (i > 0 && !chars::is_white_space(s@[i - 1])),
            chars::words(s@.take(i as int)) == (if word@.len() > 0 {
                chars::views(done@).push(word@)
            } else {
                chars::views(done@)
            }),
        decreases n - i,
    {
        let c = cs[i];
        let ghost before = chars::words(s@.take(i as int));
        proof {
            assert(s@.take(i + 1).drop_last() =~= s@.take(i as int));
            assert(word@.len() > 0 ==> before.drop_last() =~= chars::views(done@));
        }
        if is_white_space(c) {
            if !word.as_str().is_empty() {
                done.push(word);
                word = String::new();
                assert(chars::views(done@) =~= before);
            }
        } else {
            proof {
                assert(word@.len() == 0 ==> word@.push(c) =~= seq![c]);
            }
            word.push(c);
        }
        i += 1;
    }
    assert(s@.take(n as int) =~= s@);
    if !word.as_str().is_empty() {
        let ghost early = done@;
        done.push(word);
        assert(chars::views(done@) =~= chars::views(early).push(word@));
    }
    assert(done@.len() == chars::words(s@).len());
    done
}

/// Whether `pat` stands in `s` at position `i`.
pub fn occurs_at(s: &[char], pat: &[char], i: usize) -> (r: bool)
    requires
        i + pat@.len() <= s@.len(),
    ensures
        r == chars::occurs_at(s@, pat@, i as int),
{
    let n = s.len();
    let mut k: usize = 0;
    while k < pat.len()
        invariant
            n == s@.len(),
            i + pat@.len() <= s@.len(),
            k <= pat@.len(),
            forall|m: int| 0 <= m < k ==> s@[i + m] == #[trigger] pat@[m],
        decreases pat.len() - k,
    {
        if s[i + k] != pat[k] {
            proof {
                if chars::occurs_at(s@, pat@, i as int) {
                    assert(s@.subrange(i as int, i + pat@.len())[k as int] == pat@[k as int]);
                }
            }
            return false;
        }
        k += 1;
    }
    assert(s@.subrange(i as int, i + pat@.len()) =~= pat@);
    true
}

/// The first position where `pat` stands in `s`.
pub fn find(s: &[char], pat: &[char]) -> (r: Option<usize>)
    ensures
        chars::find(s@, pat@) == (match r {
            Some(i) => Some(i as int),
            None => None::<int>,
        }),
        r matches Some(i) ==> i + pat@.len() <= s@.len(),
{
    if pat.len() > s.len() {
        return None;
    }
    let last = s.len() - pat.len();
    let mut i: usize = 0;
    loop
        invariant
            last + pat@.len() == s@.len(),
            i <= last,
            chars::find(s@, pat@) == chars::find_from(s@, pat@, i as int),
        decreases last - i,
    {
        if occurs_at(s, pat, i) {
            return Some(i);
        }
        if i == last {
            assert(chars::find_from(s@, pat@, i + 1) is None);
            return None;
        }
        i += 1;
    }
}

/// Whether `pat` stands somewhere in `s`.
pub fn contains(s: &str, pat: &str) -> (r: bool)
    ensures
        r == chars::contains(s@, pat@),
{
    proof {
        chars::lemma_find(s@, pat@);
    }
    find(&chars_of(s), &chars_of(pat)).is_some()
}

/// `s` with the first occurrence of `pat` replaced, if there is one.
pub fn replace_first(s: &str, pat: &str, with: &str) -> (r: Option<String>)
    ensures
        r is Some == chars::contains(s@, pat@),
        r matches Some(t) ==> t@ == chars::replace_first(s@, pat@, with@),
{
    let cs = chars_of(s);
    let ps = chars_of(pat);
    proof {
        chars::lemma_find(s@, pat@);
    }
    match find(&cs, &ps) {
        Some(i) => {
            let n = cs.len();
            let mut out = text_of(&cs, 0, i);
            out.append(with);
            out.append(text_of(&cs, i + ps.len(), n).as_str());
            proof {
                assert(cs@.subrange(0, i as int) =~= s@.take(i as int));
                assert(cs@.subrange(i + ps@.len(), cs@.len() as int) =~= s@.skip(i + ps@.len()));
            }
            Some(out)
        },
        None => None,
    }
}

/// How often `c` stands among the first `to` characters of `s`.
pub fn count(s: &[char], to: usize, c: char) -> (r: usize)
    requires
        to <= s@.len(),
    ensures
        r == chars::count(s@.take(to as int), c),
{
    let mut n: usize = 0;
    let mut i: usize = 0;
    while i < to
        invariant
            i <= to <= s@.len(),
            n <= i,
            n == chars::count(s@.take(i as int), c),
        decreases to - i,
    {
        assert(s@.take(i + 1).drop_last() =~= s@.take(i as int));
        if s[i] == c {
            n += 1;
        }
        i += 1;
    }
    n
}

/// The digit for a number below ten.
fn digit(n: usize) -> (c: char)
    requires
        n < 10,
    ensures
        c == chars::digit(n as nat),
{
    match n {
        0 => '0',
        1 => '1',
        2 => '2',
        3 => '3',
        4 => '4',
        5 => '5',
        6 => '6',
        7 => '7',
        8 => '8',
        _ => '9',
    }
}

/// `n` in decimal digits.
pub fn decimal(n: usize) -> (r: String)
    ensures
        r@ == chars::decimal(n as nat),
    decreases n,
{
    if n < 10 {
        let mut out = String::new();
        out.push(digit(n));
        assert(out@ =~= seq![chars::digit(n as nat)]);
        out
    } else {
        let mut out = decimal(n / 10);
        out.push(digit(n % 10));
        out
    }
}

} // verus!
