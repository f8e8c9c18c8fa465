//! Search/replace edits, exact and fuzzy.

use vstd::prelude::*;
use vstd::slice::slice_subrange;
use crate::chars;
use crate::generator::ContributionGenerator;
use crate::overlap::{exceeds, is_close, overlap, word_overlap_ratio, OverlapRatio};
use crate::text;
use crate::text_laws::{
    law_count_one_by_one, law_join_of_both, law_join_split, law_replace_first_of,
};

verus! {

/// `lines` with those from `from` up to `to` replaced by `middle`, as one text.
pub open spec fn spliced(
    lines: Seq<Seq<char>>,
    from: int,
    to: int,
    middle: Seq<Seq<char>>,
) -> Seq<char> {
    chars::join(lines.take(from) + middle + lines.skip(to), chars::newline())
}

/// The lines of `content` whose normalised text is that of `search`, replaced
/// by `replace`.
pub open spec fn line_edit(
    content: Seq<char>,
    search: Seq<char>,
    replace: Seq<char>,
) -> Option<Seq<char>> {
    let hay = chars::normalized(content);
    let pat = chars::normalized(search);
    match chars::find(hay, pat) {
        Some(at) => {
            let first = chars::count(hay.take(at), '\n') as int;
            let last = first + chars::count(pat, '\n');
            Some(
                spliced(
                    chars::split(content, '\n'),
                    first,
                    last + 1,
                    chars::split(replace, '\n'),
                ),
            )
        },
        None => None,
    }
}

/// A window of the height of `search` can begin at line `i` of `content`.
pub open spec fn is_window(content: Seq<char>, search: Seq<char>, i: int) -> bool {
    let height = chars::lines(search).len();
    0 < height && 0 <= i && i + height <= chars::lines(content).len()
}

/// The overlap of the words of `search` with those of the window at line `i`.
pub open spec fn window_overlap(content: Seq<char>, search: Seq<char>, i: int) -> (nat, nat) {
    let window = chars::lines(content).subrange(i, i + chars::lines(search).len());
    overlap(chars::words(search), chars::words(chars::join(window, chars::newline())))
}

/// The window at line `i` is the first of those that overlap most with
/// `search`, and overlaps by at least four fifths.
pub open spec fn is_best_window(content: Seq<char>, search: Seq<char>, i: int) -> bool {
    &&& is_window(content, search, i)
    &&& is_close(window_overlap(content, search, i))
    &&& forall|j: int|
        is_window(content, search, j) ==> !exceeds(
            #[trigger] window_overlap(content, search, j),
            window_overlap(content, search, i),
        )
    &&& forall|j: int|
        is_window(content, search, j) && j < i ==> exceeds(
            window_overlap(content, search, i),
            #[trigger] window_overlap(content, search, j),
        )
}

/// `content` with its best window replaced by `replace`.
pub open spec fn fuzzy_edit(
    content: Seq<char>,
    search: Seq<char>,
    replace: Seq<char>,
) -> Option<Seq<char>> {
    if exists|i: int| is_best_window(content, search, i) {
        let i = choose|i: int| is_best_window(content, search, i);
        Some(
            spliced(
                chars::lines(content),
                i,
                i + chars::lines(search).len(),
                chars::lines(replace),
            ),
        )
    } else {
        None
    }
}

/// `content` after one edit: the first way that works of an exact match, a
/// match up to trailing white space, a match of the trimmed text where that is
/// longer than 20 bytes, and a fuzzy match where `search` is.
pub open spec fn single_edit(
    content: Seq<char>,
    search: Seq<char>,
    replace: Seq<char>,
) -> Option<Seq<char>> {
    let stripped = chars::trim(search);
    if chars::contains(content, search) {
        Some(chars::replace_first(content, search, replace))
    } else if line_edit(content, search, replace) is Some {
        line_edit(content, search, replace)
    } else if chars::byte_len(stripped) > 20 && chars::contains(content, stripped) {
        Some(chars::replace_first(content, stripped, chars::trim(replace)))
    } else if chars::byte_len(search) > 20 {
        fuzzy_edit(content, search, replace)
    } else {
        None
    }
}

/// An overlap has a positive total.
proof fn lemma_window_total(content: Seq<char>, search: Seq<char>, i: int)
    ensures
        window_overlap(content, search, i).1 > 0,
{
}

/// What is not above `q` is below everything above `q`.
proof fn lemma_exceeds_trans(p: (nat, nat), q: (nat, nat), r: (nat, nat))
    requires
        p.1 > 0,
        q.1 > 0,
        r.1 > 0,
        !exceeds(p, q),
        exceeds(r, q),
    ensures
        exceeds(r, p),
{
    assert(r.0 * p.1 > p.0 * r.1) by (nonlinear_arith)
        requires
            p.1 > 0,
            q.1 > 0,
            r.1 > 0,
            p.0 * q.1 <= q.0 * p.1,
            r.0 * q.1 > q.0 * r.1,
    ;
}

/// What is not below something close is close.
proof fn lemma_close_up(p: (nat, nat), q: (nat, nat))
    requires
        p.1 > 0,
        q.1 > 0,
        !exceeds(p, q),
        is_close(p),
    ensures
        is_close(q),
{
    assert(5 * q.0 >= 2 * q.1) by (nonlinear_arith)
        requires
            p.1 > 0,
            q.1 > 0,
            p.0 * q.1 <= q.0 * p.1,
            5 * p.0 >= 2 * p.1,
    ;
}

/// `lines` with those from `from` up to `to` replaced by `middle`, as one text.
fn splice(lines: &Vec<String>, from: usize, to: usize, middle: &Vec<String>) -> (r: String)
    requires
        from <= to <= lines@.len(),
    ensures
        r@ == spliced(chars::views(lines@), from as int, to as int, chars::views(middle@)),
{
    let mut out: Vec<String> = Vec::new();
    push_range(&mut out, lines, 0, from);
    push_range(&mut out, middle, 0, middle.len());
    push_range(&mut out, lines, to, lines.len());
    proof {
        reveal_strlit("\n");
        assert("\n"@ =~= chars::newline());
        let all = chars::views(lines@);
        assert(chars::views(out@) =~= all.take(from as int) + chars::views(middle@) + all.skip(
            to as int,
        ));
    }
    text::join(&out, "\n")
}

/// Appends copies of the lines from `from` up to `to`.
fn push_range(out: &mut Vec<String>, lines: &Vec<String>, from: usize, to: usize)
    requires
        from <= to <= lines@.len(),
    ensures
        chars::views(final(out)@) == chars::views(old(out)@) + chars::views(lines@).subrange(
            from as int,
            to as int,
        ),
{
    let mut i: usize = from;
    let ghost all = chars::views(lines@);
    assert(chars::views(out@) =~= chars::views(old(out)@) + all.subrange(from as int, from as int));
    while i < to
        invariant
            from <= i <= to <= lines@.len(),
            all == chars::views(lines@),
            chars::views(out@) == chars::views(old(out)@) + all.subrange(from as int, i as int),
        decreases to - i,
    {
        let ghost early = out@;
        out.push(lines[i].clone());
        assert(chars::views(out@) =~= chars::views(early).push(all[i as int]));
        assert(chars::views(out@) =~= chars::views(old(out)@) + all.subrange(
            from as int,
            i + 1,
        ));
        i += 1;
    }
}

/// An exact edit replaces the first occurrence of `search` and nothing else.
pub proof fn law_exact_edit_is_local(content: Seq<char>, search: Seq<char>, replace: Seq<char>)
    requires
        chars::contains(content, search),
    ensures
        exists|i: int|
            {
                &&& #[trigger] chars::occurs_at(content, search, i)
                &&& forall|j: int| 0 <= j < i ==> !#[trigger] chars::occurs_at(content, search, j)
                &&& single_edit(content, search, replace) == Some(
                    content.take(i) + replace + content.skip(i + search.len()),
                )
            },
{
    chars::lemma_find(content, search);
    let i = chars::find(content, search).unwrap();
    assert(chars::occurs_at(content, search, i));
}

/// The reverse edit undoes an exact edit, if the new text stands nowhere
/// before the place that was edited.
pub proof fn law_exact_edit_undone(content: Seq<char>, search: Seq<char>, replace: Seq<char>)
    requires
        chars::contains(content, search),
        chars::find(single_edit(content, search, replace).unwrap(), replace) == chars::find(
            content,
            search,
        ),
    ensures
        single_edit(single_edit(content, search, replace).unwrap(), replace, search) == Some(
            content,
        ),
{
    chars::lemma_find(content, search);
    let edited = single_edit(content, search, replace).unwrap();
    let i = chars::find(content, search).unwrap();
    chars::lemma_find(edited, replace);
    assert(chars::contains(edited, replace));
    assert(edited.take(i) =~= content.take(i));
    assert(edited.skip(i + replace.len()) =~= content.skip(i + search.len()));
    assert(content.subrange(i, i + search.len()) == search);
    assert(content.take(i) + search + content.skip(i + search.len()) =~= content) by {
        assert forall|k: int| i <= k < i + search.len() implies content[k] == #[trigger] search[k
            - i] by {
            assert(content.subrange(i, i + search.len())[k - i] == content[k]);
        }
    }
}

/// A text that differs from `search` in white space at line ends only is
/// replaced as a whole.
pub proof fn law_line_end_space_ignored(content: Seq<char>, search: Seq<char>, replace: Seq<char>)
    requires
        chars::normalized(content) == chars::normalized(search),
    ensures
        line_edit(content, search, replace) == Some(replace),
{
    let hay = chars::normalized(content);
    let lines = chars::split(content, '\n');
    let middle = chars::split(replace, '\n');
    assert(hay.subrange(0, hay.len() as int) =~= hay);
    assert(chars::occurs_at(hay, hay, 0));
    assert(chars::find(hay, hay) == Some(0int));
    assert(hay.take(0) =~= Seq::<char>::empty());
    assert(chars::count(hay.take(0), '\n') == 0);
    chars::lemma_count_normalized(content);
    assert(lines.take(0) + middle + lines.skip(lines.len() as int) =~= middle);
    chars::law_split_join(replace, '\n');
}

/// A fuzzy edit succeeds exactly where some window overlaps with `search` by
/// at least four fifths.
pub proof fn law_fuzzy_edit_iff_close_window(
    content: Seq<char>,
    search: Seq<char>,
    replace: Seq<char>,
)
    ensures
        fuzzy_edit(content, search, replace) is Some <==> exists|i: int| #[trigger]
            is_window(content, search, i) && is_close(window_overlap(content, search, i)),
{
    if exists|i: int| is_best_window(content, search, i) {
        let i = choose|i: int| is_best_window(content, search, i);
        assert(is_window(content, search, i));
    }
    if exists|i: int| #[trigger]
        is_window(content, search, i) && is_close(window_overlap(content, search, i)) {
        let i = choose|i: int| #[trigger]
            is_window(content, search, i) && is_close(window_overlap(content, search, i));
        let count = chars::lines(content).len() - chars::lines(search).len() + 1;
        let b = lemma_first_greatest(content, search, count);
        lemma_window_total(content, search, i);
        lemma_window_total(content, search, b);
        lemma_close_up(window_overlap(content, search, i), window_overlap(content, search, b));
        assert(is_best_window(content, search, b));
    }
}

/// Among the first `n` windows there is a first one that overlaps most.
proof fn lemma_first_greatest(content: Seq<char>, search: Seq<char>, n: int) -> (b: int)
    requires
        n > 0,
    ensures
        0 <= b < n,
        forall|j: int|
            0 <= j < n ==> !exceeds(
                #[trigger] window_overlap(content, search, j),
                window_overlap(content, search, b),
            ),
        forall|j: int|
            0 <= j < b ==> exceeds(
                window_overlap(content, search, b),
                #[trigger] window_overlap(content, search, j),
            ),
    decreases n,
{
    if n == 1 {
        0
    } else {
        let b = lemma_first_greatest(content, search, n - 1);
        let top = window_overlap(content, search, b);
        let new = window_overlap(content, search, n - 1);
        if exceeds(new, top) {
            assert forall|j: int| 0 <= j < n - 1 implies exceeds(
                new,
                #[trigger] window_overlap(content, search, j),
            ) by {
                lemma_exceeds_trans(window_overlap(content, search, j), top, new);
            }
            n - 1
        } else {
            b
        }
    }
}

/// Nothing is close to an empty search.
pub proof fn law_fuzzy_empty_search(content: Seq<char>, replace: Seq<char>)
    ensures
        fuzzy_edit(content, Seq::empty(), replace) is None,
{
    assert(chars::lines(Seq::empty()).len() == 0);
    assert(forall|i: int| !is_best_window(content, Seq::empty(), i));
}

/// The overlap of the words of `search` with the words of `height` lines of
/// `content` from line `i` on.
pub open spec fn block_overlap(
    content: Seq<char>,
    search: Seq<char>,
    i: int,
    height: int,
) -> (nat, nat) {
    overlap(
        chars::words(search),
        chars::words(chars::join(chars::lines(content).subrange(i, i + height), seq!['\n'])),
    )
}

/// A fuzzy edit takes out one block of as many lines as `search` has, whole, and
/// puts the lines of `replace` in its place; every other line stays where it
/// was. The block overlaps with `search` by at least four fifths, no block by
/// more, and no earlier block by as much.
pub proof fn law_fuzzy_edit_replaces_one_block(
    content: Seq<char>,
    search: Seq<char>,
    replace: Seq<char>,
)
    requires
        fuzzy_edit(content, search, replace) is Some,
    ensures
        ({
            let old_lines = chars::lines(content);
            let new_lines = chars::lines(replace);
            let height = chars::lines(search).len() as int;
            &&& 0 < height <= old_lines.len()
            &&& height == old_lines.len() ==> fuzzy_edit(content, search, replace) == Some(
                chars::join(new_lines, seq!['\n']),
            )
            &&& exists|i: int|
                {
                    let best = #[trigger] block_overlap(content, search, i, height);
                    &&& 0 <= i <= old_lines.len() - height
                    &&& fuzzy_edit(content, search, replace) == Some(
                        chars::join(
                            old_lines.take(i) + new_lines + old_lines.skip(i + height),
                            seq!['\n'],
                        ),
                    )
                    &&& 5 * best.0 >= 2 * best.1
                    &&& forall|j: int|
                        0 <= j <= old_lines.len() - height ==> {
                            let other = #[trigger] block_overlap(content, search, j, height);
                            other.0 * best.1 <= best.0 * other.1 && (j < i ==> other.0 * best.1
                                < best.0 * other.1)
                        }
                }
        }),
{
    let old_lines = chars::lines(content);
    let new_lines = chars::lines(replace);
    let height = chars::lines(search).len() as int;
    let i = choose|i: int| is_best_window(content, search, i);
    assert forall|j: int| 0 <= j <= old_lines.len() - height implies block_overlap(
        content,
        search,
        j,
        height,
    ) == #[trigger] window_overlap(content, search, j) && is_window(content, search, j) by {}
    let best = block_overlap(content, search, i, height);
    assert(best == window_overlap(content, search, i));
    assert forall|j: int| 0 <= j <= old_lines.len() - height implies {
        let other = #[trigger] block_overlap(content, search, j, height);
        other.0 * best.1 <= best.0 * other.1 && (j < i ==> other.0 * best.1 < best.0 * other.1)
    } by {
        assert(block_overlap(content, search, j, height) == window_overlap(content, search, j));
        assert(is_window(content, search, j));
    }
    if height == old_lines.len() {
        assert(i == 0);
        assert(old_lines.take(0) + new_lines + old_lines.skip(height) =~= new_lines);
    }
}

/// There is a fuzzy edit exactly where some block of as many lines as `search`
/// has overlaps with it by at least four fifths.
pub proof fn law_fuzzy_edit_iff_close_block(
    content: Seq<char>,
    search: Seq<char>,
    replace: Seq<char>,
)
    ensures
        ({
            let height = chars::lines(search).len() as int;
            fuzzy_edit(content, search, replace) is Some <==> height > 0 && exists|i: int|
                0 <= i <= chars::lines(content).len() - height && 5 * (#[trigger] block_overlap(
                    content,
                    search,
                    i,
                    height,
                )).0 >= 2 * block_overlap(content, search, i, height).1
        }),
{
    let height = chars::lines(search).len() as int;
    law_fuzzy_edit_iff_close_window(content, search, replace);
    if fuzzy_edit(content, search, replace) is Some {
        law_fuzzy_edit_replaces_one_block(content, search, replace);
    }
    if height > 0 && exists|i: int|
        0 <= i <= chars::lines(content).len() - height && 5 * (#[trigger] block_overlap(
            content,
            search,
            i,
            height,
        )).0 >= 2 * block_overlap(content, search, i, height).1 {
        let i = choose|i: int|
            0 <= i <= chars::lines(content).len() - height && 5 * (#[trigger] block_overlap(
                content,
                search,
                i,
                height,
            )).0 >= 2 * block_overlap(content, search, i, height).1;
        assert(is_window(content, search, i));
        assert(window_overlap(content, search, i) == block_overlap(content, search, i, height));
        assert(is_close(window_overlap(content, search, i)));
    }
}

/// Where `search` itself stands in `content`, its first occurrence is replaced
/// and the rest of the text is kept, character by character.
pub proof fn law_edit_exact(a: Seq<char>, search: Seq<char>, b: Seq<char>, replace: Seq<char>)
    requires
        forall|j: int|
            0 <= j < a.len() ==> #[trigger] (a + search + b).subrange(j, j + search.len())
                != search,
    ensures
        single_edit(a + search + b, search, replace) == Some(a + replace + b),
{
    let content = a + search + b;
    law_replace_first_of(a, search, b, replace);
    chars::lemma_find(content, search);
}

/// Where only the white space at line ends differs, the lines on which `search`
/// stands are replaced as a whole: as many as `search` has, from the line on
/// that holds the beginning of the first match.
pub proof fn law_edit_by_lines(content: Seq<char>, search: Seq<char>, replace: Seq<char>)
    requires
        !chars::contains(content, search),
        chars::contains(chars::normalized(content), chars::normalized(search)),
    ensures
        ({
            let hay = chars::normalized(content);
            let pat = chars::normalized(search);
            let rows = chars::split(content, '\n');
            let height = chars::split(search, '\n').len();
            exists|at: int|
                {
                    let first = chars::count(hay.take(at), '\n') as int;
                    &&& #[trigger] chars::occurs_at(hay, pat, at)
                    &&& forall|j: int| 0 <= j < at ==> !#[trigger] chars::occurs_at(hay, pat, j)
                    &&& first + height <= rows.len()
                    &&& single_edit(content, search, replace) == Some(
                        chars::join(
                            rows.take(first) + chars::split(replace, '\n') + rows.skip(
                                first + height,
                            ),
                            seq!['\n'],
                        ),
                    )
                }
        }),
{
    let hay = chars::normalized(content);
    let pat = chars::normalized(search);
    chars::lemma_find(hay, pat);
    let at = chars::find(hay, pat).unwrap();
    assert(chars::occurs_at(hay, pat, at));
    chars::lemma_count_normalized(content);
    chars::lemma_count_normalized(search);
    chars::lemma_split_nonempty(search, '\n');
    let tail = hay.skip(at + pat.len());
    assert(hay =~= hay.take(at) + (pat + tail)) by {
        assert forall|k: int| at <= k < at + pat.len() implies hay[k] == #[trigger] pat[k - at] by {
            assert(hay.subrange(at, at + pat.len())[k - at] == hay[k]);
        }
    }
    chars::lemma_count_add(hay.take(at), pat + tail, '\n');
    chars::lemma_count_add(pat, tail, '\n');
}

/// Lines that are those of `search` up to white space at their ends are
/// replaced; the lines before and behind them stay as they are.
pub proof fn law_edit_of_lines(
    before: Seq<Seq<char>>,
    block: Seq<Seq<char>>,
    after: Seq<Seq<char>>,
    search: Seq<char>,
    replace: Seq<char>,
)
    requires
        block.len() > 0,
        forall|i: int|
            0 <= i < (before + block + after).len() ==> !(#[trigger] (before + block + after)[i])
                .contains('\n'),
        chars::normalized(search) == chars::normalized(chars::join(block, seq!['\n'])),
        !chars::contains(chars::join(before + block + after, seq!['\n']), search),
        forall|j: int|
            0 <= j && before.len() > 0 && j <= chars::normalized(
                chars::join(before, seq!['\n']),
            ).len() ==> !#[trigger] chars::occurs_at(
                chars::normalized(chars::join(before + block + after, seq!['\n'])),
                chars::normalized(search),
                j,
            ),
    ensures
        single_edit(chars::join(before + block + after, seq!['\n']), search, replace) == Some(
            chars::join(before + chars::split(replace, '\n') + after, seq!['\n']),
        ),
{
    let all = before + block + after;
    let nl = seq!['\n'];
    let content = chars::join(all, nl);
    let hay = chars::normalized(content);
    let pat = chars::normalized(search);
    let f = |line: Seq<char>| chars::trim_end(line);
    law_join_split(all, '\n');
    assert forall|i: int| 0 <= i < block.len() implies !(#[trigger] block[i]).contains('\n') by {
        assert(block[i] == all[before.len() + i]);
    }
    assert forall|i: int| 0 <= i < before.len() implies !(#[trigger] before[i]).contains('\n') by {
        assert(before[i] == all[i]);
    }
    law_join_split(block, '\n');
    let b = before.map_values(f);
    let w = block.map_values(f);
    let q = after.map_values(f);
    assert(all.map_values(f) =~= b + w + q);
    assert(pat == chars::join(w, nl));
    let at: int = if before.len() == 0 {
        0
    } else {
        chars::join(b, nl).len() as int + 1
    };
    let lead = if before.len() == 0 {
        Seq::empty()
    } else {
        chars::join(b, nl) + nl
    };
    let rest = if after.len() == 0 {
        Seq::empty()
    } else {
        nl + chars::join(q, nl)
    };
    assert(hay =~= lead + pat + rest) by {
        if before.len() > 0 {
            law_join_split(before, '\n');
            law_join_of_both(b, w, nl);
        } else {
            assert(b + w =~= w);
        }
        if after.len() > 0 {
            law_join_of_both(b + w, q, nl);
        } else {
            assert(b + w + q =~= b + w);
        }
    }
    assert(hay.subrange(at, at + pat.len()) =~= pat);
    assert(chars::occurs_at(hay, pat, at));
    chars::lemma_find(hay, pat);
    let first = chars::find(hay, pat).unwrap();
    assert(first == at) by {
        if before.len() > 0 {
            law_join_split(before, '\n');
            assert(chars::normalized(chars::join(before, nl)) == chars::join(b, nl));
        }
    }
    assert(hay.take(at) =~= lead);
    assert(chars::count(lead, '\n') == before.len()) by {
        if before.len() > 0 {
            chars::lemma_count_normalized(chars::join(before, nl));
            law_join_split(before, '\n');
            chars::lemma_count_add(chars::join(b, nl), nl, '\n');
            law_count_one_by_one(Seq::empty(), '\n', '\n');
            assert(Seq::<char>::empty().push('\n') =~= nl);
        }
    }
    chars::lemma_count_normalized(search);
    chars::lemma_count_normalized(chars::join(block, nl));
    assert(all.take(before.len() as int) =~= before);
    assert(all.skip(before.len() + block.len() as int) =~= after);
}

/// Where neither way finds `search`, the text without the white space around it
/// is looked for, if it has more than 20 bytes; what is put in its place loses
/// the white space around it too.
pub proof fn law_edit_trimmed(
    a: Seq<char>,
    core: Seq<char>,
    b: Seq<char>,
    search: Seq<char>,
    replace: Seq<char>,
)
    requires
        core == chars::trim(search),
        chars::byte_len(core) > 20,
        !chars::contains(a + core + b, search),
        !chars::contains(chars::normalized(a + core + b), chars::normalized(search)),
        forall|j: int|
            0 <= j < a.len() ==> #[trigger] (a + core + b).subrange(j, j + core.len()) != core,
    ensures
        single_edit(a + core + b, search, replace) == Some(a + chars::trim(replace) + b),
{
    let content = a + core + b;
    law_replace_first_of(a, core, b, chars::trim(replace));
    chars::lemma_find(content, core);
    chars::lemma_find(chars::normalized(content), chars::normalized(search));
}

/// Where `search` is not found in any of these ways, the closest lines are
/// edited if `search` has more than 20 bytes; else there is no edit.
pub proof fn law_edit_fuzzy_or_none(content: Seq<char>, search: Seq<char>, replace: Seq<char>)
    requires
        !chars::contains(content, search),
        !chars::contains(chars::normalized(content), chars::normalized(search)),
        chars::byte_len(chars::trim(search)) <= 20 || !chars::contains(
            content,
            chars::trim(search),
        ),
    ensures
        chars::byte_len(search) > 20 ==> single_edit(content, search, replace) == fuzzy_edit(
            content,
            search,
            replace,
        ),
        chars::byte_len(search) <= 20 ==> single_edit(content, search, replace) is None,
{
    chars::lemma_find(chars::normalized(content), chars::normalized(search));
}

impl<'a> ContributionGenerator<'a> {
    /// Replaces the lines of `content` whose words overlap most with those of
    /// `search`, if they overlap by at least four fifths.
    ///
    /// Every run of as many lines as `search` has is looked at; of equally good
    /// ones the first is taken.
    pub fn fuzzy_replace(content: &str, search: &str, replace: &str) -> (r: Option<String>)
        ensures
            fuzzy_edit(content@, search@, replace@) == (match r {
                Some(t) => Some(t@),
                None => None,
            }),
    {
        let search_lines = text::lines(search);
        let content_lines = text::lines(content);
        let height = search_lines.len();
        let rows = content_lines.len();
        let ghost all = chars::lines(content@);
        assert(height == chars::lines(search@).len());
        assert(rows == all.len());
        if height == 0 || height > rows {
            assert(forall|i: int| !is_best_window(content@, search@, i));
            return None;
        }
        let search_words = text::words(search);
        let mut best_ratio = OverlapRatio { common: 0, total: 1 };
        let mut best: Option<usize> = None;
        let last = rows - height;
        let mut i: usize = 0;
        proof {
            reveal_strlit("\n");
            assert("\n"@ =~= chars::newline());
        }
        while i <= last
            invariant
                height == chars::lines(search@).len(),
                rows == all.len(),
                all == chars::lines(content@),
                all == chars::views(content_lines@),
                0 < height,
                last + height == rows,
                i <= last + 1,
                "\n"@ == chars::newline(),
                chars::views(search_words@) == chars::words(search@),
                search_words@.len() <= 0x8000_0000_0000_0000,
                best_ratio.fits(),
                best_ratio.total > 0,
                match best {
                    Some(b) => b < i && best_ratio.pair() == window_overlap(
                        content@,
                        search@,
                        b as int,
                    ) && forall|j: int|
                        0 <= j < b ==> exceeds(
                            best_ratio.pair(),
                            #[trigger] window_overlap(content@, search@, j),
                        ),
                    None => best_ratio.common == 0,
                },
                forall|j: int|
                    0 <= j < i ==> !exceeds(
                        #[trigger] window_overlap(content@, search@, j),
                        best_ratio.pair(),
                    ),
            decreases last + 1 - i,
        {
            let window = text::join(slice_subrange(content_lines.as_slice(), i, i + height), "\n");
            proof {
                assert(chars::views(content_lines@.subrange(i as int, i + height))
                    =~= all.subrange(i as int, i + height));
            }
            let window_words = text::words(window.as_str());
            let ratio = word_overlap_ratio(&search_words, &window_words);
            assert(ratio.pair() == window_overlap(content@, search@, i as int));
            let better = ratio.exceeds(best_ratio);
            proof {
                assert forall|j: int| 0 <= j < i && better implies exceeds(
                    ratio.pair(),
                    #[trigger] window_overlap(content@, search@, j),
                ) by {
                    lemma_window_total(content@, search@, j);
                    lemma_exceeds_trans(
                        window_overlap(content@, search@, j),
                        best_ratio.pair(),
                        ratio.pair(),
                    );
                }
                assert forall|j: int| 0 <= j < i && better implies !exceeds(
                    #[trigger] window_overlap(content@, search@, j),
                    ratio.pair(),
                ) by {
                    assert(exceeds(ratio.pair(), window_overlap(content@, search@, j)));
                }
            }
            if better {
                best_ratio = ratio;
                best = Some(i);
            }
            i += 1;
        }
        if best_ratio.is_close() {
            if let Some(b) = best {
                assert(is_best_window(content@, search@, b as int));
                let replace_lines = text::lines(replace);
                proof {
                    let k = choose|k: int| is_best_window(content@, search@, k);
                    assert(k == b) by {
                        if k < b {
                            assert(exceeds(
                                window_overlap(content@, search@, b as int),
                                window_overlap(content@, search@, k),
                            ));
                        } else if b < k {
                            assert(exceeds(
                                window_overlap(content@, search@, k),
                                window_overlap(content@, search@, b as int),
                            ));
                        }
                    }
                }
                return Some(splice(&content_lines, b, b + height, &replace_lines));
            }
        }
        proof {
            assert forall|k: int| !is_best_window(content@, search@, k) by {
                if is_best_window(content@, search@, k) {
                    lemma_window_total(content@, search@, k);
                    assert(!exceeds(window_overlap(content@, search@, k), best_ratio.pair()));
                    lemma_close_up(window_overlap(content@, search@, k), best_ratio.pair());
                }
            }
        }
        None
    }

    /// Applies one search/replace edit to `content`.
    ///
    /// Four ways are tried in turn: the exact text; the text up to white space
    /// at line ends; the text without the white space around it, if that is
    /// longer than 20 bytes; and [`Self::fuzzy_replace`], if `search` is.
    pub fn apply_single_edit(content: &str, search: &str, replace: &str) -> (r: Option<String>)
        ensures
            single_edit(content@, search@, replace@) == (match r {
                Some(t) => Some(t@),
                None => None,
            }),
    {
        if let Some(exact) = text::replace_first(content, search, replace) {
            return Some(exact);
        }
        let hay = text::chars_of(text::normalized(content).as_str());
        let pat = text::chars_of(text::normalized(search).as_str());
        if let Some(at) = text::find(&hay, &pat) {
            let first = text::count(&hay, at, '\n');
            let breaks = text::count(&pat, pat.len(), '\n');
            let lines = text::split(content, '\n');
            let rows = lines.len();
            proof {
                let total = hay@;
                chars::lemma_find(hay@, pat@);
                chars::lemma_count_normalized(content@);
                assert(pat@.take(pat@.len() as int) =~= pat@);
                assert(total =~= total.take(at as int) + (pat@ + total.skip(at + pat@.len()))) by {
                    assert(total.subrange(at as int, at + pat@.len()) == pat@);
                    assert forall|k: int| at <= k < at + pat@.len() implies total[k]
                        == #[trigger] pat@[k - at] by {
                        assert(total.subrange(at as int, at + pat@.len())[k - at] == total[k]);
                    }
                }
                chars::lemma_count_add(
                    total.take(at as int),
                    pat@ + total.skip(at + pat@.len()),
                    '\n',
                );
                chars::lemma_count_add(pat@, total.skip(at + pat@.len()), '\n');
                assert(chars::views(lines@).len() == rows);
                assert(first + breaks + 1 <= rows);
            }
            return Some(splice(&lines, first, first + breaks + 1, &text::split(replace, '\n')));
        }
        let stripped = text::trim(search);
        if text::byte_len(stripped.as_str()) > 20 {
            let trimmed = text::trim(replace);
            if let Some(edited) = text::replace_first(content, stripped.as_str(), trimmed.as_str()) {
                return Some(edited);
            }
        }
        if text::byte_len(search) > 20 {
            return Self::fuzzy_replace(content, search, replace);
        }
        None
    }
}

} // verus!
