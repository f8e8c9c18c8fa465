//! Finding the same issue in other files.

use vstd::prelude::*;
use vstd::utf8::is_ascii_chars;
use crate::case::{lower, lower_all, to_lower};
use crate::chars;
use crate::generator::ContributionGenerator;
use crate::models::{
    distinct_paths, lemma_with_new_file, with_file, FileMap, Files, Finding, FindingView, RepoContext,
};
use crate::outside::{all_groups, regex_groups};
use crate::patterns::{dotted_from, quoted, quoted_from, DOTTED, QUOTED};
use crate::text;

verus! {

/// How many keywords are searched for.
pub const MAX_KEYWORDS: usize = 10;

/// How many keywords a file has to hold.
pub const MIN_HITS: usize = 2;

/// How many other files are taken.
pub const MAX_OTHER_FILES: usize = 3;

/// The texts of more than `bytes` bytes.
pub open spec fn longer_than(texts: Seq<Seq<char>>, bytes: nat) -> Seq<Seq<char>>
    decreases texts.len(),
{
    if texts.len() == 0 {
        Seq::empty()
    } else {
        let before = longer_than(texts.drop_last(), bytes);
        if chars::byte_len(texts.last()) > bytes {
            before.push(texts.last())
        } else {
            before
        }
    }
}

/// The keywords among the snippets and names of a finding: the snippets of more
/// than three bytes and the names of more than five, at most
/// [`MAX_KEYWORDS`] in all.
pub open spec fn keywords(snippets: Seq<Seq<char>>, names: Seq<Seq<char>>) -> Seq<Seq<char>> {
    let all = longer_than(snippets, 3) + longer_than(names, 5);
    if all.len() > MAX_KEYWORDS {
        all.take(MAX_KEYWORDS as int)
    } else {
        all
    }
}

/// What a finding says in words: its description and its suggestion.
pub open spec fn wording(finding: FindingView) -> Seq<char> {
    finding.description + seq![' '] + match finding.suggestion {
        Some(suggestion) => suggestion,
        None => Seq::empty(),
    }
}

/// The dotted names in a text.
pub open spec fn dotted(t: Seq<char>) -> Seq<Seq<char>> {
    if is_ascii_chars(t) {
        dotted_from(t, 0)
    } else {
        regex_groups(DOTTED@, t)
    }
}

/// The keywords of a finding.
pub open spec fn search_patterns(finding: FindingView) -> Seq<Seq<char>> {
    keywords(quoted(wording(finding)), dotted(wording(finding)))
}

/// How many of the keywords stand in a text.
pub open spec fn hits(content: Seq<char>, keywords: Seq<Seq<char>>) -> nat
    decreases keywords.len(),
{
    if keywords.len() == 0 {
        0
    } else {
        hits(content, keywords.drop_last()) + if chars::contains(content, keywords.last()) {
            1nat
        } else {
            0nat
        }
    }
}

/// The contents of files, in lower case.
pub open spec fn lower_contents(files: Files) -> Seq<Seq<char>> {
    files.map_values(|f: (Seq<char>, Seq<char>)| lower(f.1))
}

/// The first [`MAX_OTHER_FILES`] files but `own` of which enough keywords stand
/// in the text `contents` has for them.
pub open spec fn matching(
    files: Files,
    own: Seq<char>,
    contents: Seq<Seq<char>>,
    keywords: Seq<Seq<char>>,
) -> Files
    decreases files.len(),
{
    if files.len() == 0 {
        Seq::empty()
    } else {
        let before = matching(files.drop_last(), own, contents.drop_last(), keywords);
        let (path, content) = files.last();
        if before.len() < MAX_OTHER_FILES && path != own && hits(contents.last(), keywords)
            >= MIN_HITS {
            with_file(before, path, content)
        } else {
            before
        }
    }
}

/// The other files in which the issue of `finding` seems to stand too. Case
/// does not matter.
pub open spec fn cross_files(finding: FindingView, files: Files) -> Files {
    if finding.file_path.len() == 0 {
        Seq::empty()
    } else {
        matching(
            files,
            finding.file_path,
            lower_contents(files),
            lower_all(search_patterns(finding)),
        )
    }
}

/// Without keywords no file matches.
proof fn lemma_no_keywords(files: Files, own: Seq<char>, contents: Seq<Seq<char>>)
    ensures
        matching(files, own, contents, Seq::empty()) == Files::empty(),
    decreases files.len(),
{
    if files.len() > 0 {
        lemma_no_keywords(files.drop_last(), own, contents.drop_last());
    }
}

/// `f` is one of `files`, is not at `own`, and holds enough keywords.
pub open spec fn is_match(
    f: (Seq<char>, Seq<char>),
    files: Files,
    own: Seq<char>,
    keywords: Seq<Seq<char>>,
) -> bool {
    files.contains(f) && f.0 != own && hits(lower(f.1), keywords) >= MIN_HITS
}

/// At most [`MAX_OTHER_FILES`] files come back. Each of them is one of the
/// files, is not the file of the finding, and holds at least [`MIN_HITS`] of
/// the keywords. Where fewer come back, no such file was left out.
pub proof fn law_cross_files_match(finding: FindingView, files: Files)
    requires
        distinct_paths(files),
        finding.file_path.len() > 0,
    ensures
        cross_files(finding, files).len() <= MAX_OTHER_FILES,
        forall|i: int|
            0 <= i < cross_files(finding, files).len() ==> is_match(
                #[trigger] cross_files(finding, files)[i],
                files,
                finding.file_path,
                lower_all(search_patterns(finding)),
            ),
        cross_files(finding, files).len() < MAX_OTHER_FILES ==> forall|f: (Seq<char>, Seq<char>)|
            #[trigger]
            is_match(
                f,
                files,
                finding.file_path,
                lower_all(search_patterns(finding)),
            ) ==> cross_files(finding, files).contains(f),
{
    lemma_matching(files, finding.file_path, lower_all(search_patterns(finding)));
}

proof fn lemma_matching(files: Files, own: Seq<char>, keywords: Seq<Seq<char>>)
    requires
        distinct_paths(files),
    ensures
        ({
            let found = matching(files, own, lower_contents(files), keywords);
            &&& found.len() <= MAX_OTHER_FILES
            &&& forall|i: int|
                0 <= i < found.len() ==> is_match(#[trigger] found[i], files, own, keywords)
            &&& found.len() < MAX_OTHER_FILES ==> forall|f: (Seq<char>, Seq<char>)|
                #[trigger]
                is_match(f, files, own, keywords) ==> found.contains(f)
        }),
    decreases files.len(),
{
    if files.len() > 0 {
        let front = files.drop_last();
        let last = files.last();
        assert(distinct_paths(front)) by {
            assert forall|i: int, j: int| 0 <= i < j < front.len() implies (#[trigger] front[i]).0
                != (#[trigger] front[j]).0 by {
                assert(front[i] == files[i] && front[j] == files[j]);
            }
        }
        lemma_matching(front, own, keywords);
        let contents = lower_contents(files);
        assert(contents.drop_last() =~= lower_contents(front));
        let before = matching(front, own, lower_contents(front), keywords);
        let found = matching(files, own, contents, keywords);
        assert forall|i: int| 0 <= i < before.len() implies is_match(
            #[trigger] before[i],
            files,
            own,
            keywords,
        ) && before[i].0 != last.0 by {
            assert(is_match(before[i], front, own, keywords));
            let k = choose|k: int| 0 <= k < front.len() && front[k] == before[i];
            assert(files[k] == before[i]);
            assert(files[k].0 != files[files.len() - 1].0);
        }
        assert(files.contains(last));
        let taken = before.len() < MAX_OTHER_FILES && last.0 != own && hits(
            lower(last.1),
            keywords,
        ) >= MIN_HITS;
        if taken {
            lemma_with_new_file(before, last.0, last.1);
            assert(found == before.push(last));
            assert(found.last() == last);
        }
        if found.len() < MAX_OTHER_FILES {
            assert forall|f: (Seq<char>, Seq<char>)| #[trigger]
                is_match(f, files, own, keywords) implies found.contains(f) by {
                let k = choose|k: int| 0 <= k < files.len() && files[k] == f;
                if k < front.len() {
                    assert(front[k] == f);
                    assert(is_match(f, front, own, keywords));
                    let j = choose|j: int| 0 <= j < before.len() && before[j] == f;
                    assert(found[j] == f);
                } else {
                    assert(found[found.len() - 1] == f);
                }
            }
        }
    }
}

/// At most [`MAX_KEYWORDS`] keywords come out of a finding.
pub proof fn law_keywords_limited(finding: FindingView)
    ensures
        search_patterns(finding).len() <= MAX_KEYWORDS,
{
}

/// The keywords are the first ten of the snippets of more than three bytes and,
/// behind them, the names of more than five.
pub proof fn law_keywords_are_first_long_ones(snippets: Seq<Seq<char>>, names: Seq<Seq<char>>)
    ensures
        ({
            let all = snippets.filter(|s: Seq<char>| chars::byte_len(s) > 3) + names.filter(
                |s: Seq<char>| chars::byte_len(s) > 5,
            );
            keywords(snippets, names) == (if all.len() > 10 {
                all.take(10)
            } else {
                all
            })
        }),
{
    lemma_longer_than(snippets, 3, |s: Seq<char>| chars::byte_len(s) > 3);
    lemma_longer_than(names, 5, |s: Seq<char>| chars::byte_len(s) > 5);
}

proof fn lemma_longer_than(
    texts: Seq<Seq<char>>,
    bytes: nat,
    long: spec_fn(Seq<char>) -> bool,
)
    requires
        forall|s: Seq<char>| #[trigger] long(s) == (chars::byte_len(s) > bytes),
    ensures
        longer_than(texts, bytes) == texts.filter(long),
    decreases texts.len(),
{
    reveal(Seq::filter);
    if texts.len() > 0 {
        lemma_longer_than(texts.drop_last(), bytes, long);
        assert(long(texts.last()) == (chars::byte_len(texts.last()) > bytes));
    }
}

/// The snippets and names of a finding are those of its description and, behind
/// a space, its suggestion.
pub proof fn law_wording(finding: FindingView)
    ensures
        finding.suggestion is None ==> wording(finding) == finding.description.push(' '),
        finding.suggestion matches Some(suggestion) ==> wording(finding)
            == finding.description.push(' ') + suggestion,
        search_patterns(finding) == keywords(quoted(wording(finding)), dotted(wording(finding))),
{
    assert(finding.description + seq![' '] =~= finding.description.push(' '));
    assert(finding.description.push(' ') + Seq::<char>::empty() =~= finding.description.push(' '));
}

/// A snippet between the first backticks of a text is found, and then those of
/// the text behind it; a text without backticks holds none.
pub proof fn law_snippet_between_backticks(
    before: Seq<char>,
    snippet: Seq<char>,
    after: Seq<char>,
)
    requires
        !before.contains('`'),
        !snippet.contains('`'),
        snippet.len() > 0,
    ensures
        quoted(before + seq!['`'] + snippet + seq!['`'] + after) == seq![snippet] + quoted(after),
        quoted(before) == Seq::<Seq<char>>::empty(),
{
    let t = before + seq!['`'] + snippet + seq!['`'] + after;
    let a = before.len() as int;
    let b = a + 1 + snippet.len();
    let tick = seq!['`'];
    chars::lemma_find_from(t, tick, 0);
    assert(t.subrange(a, a + 1) =~= tick);
    assert(chars::occurs_at(t, tick, a));
    assert(chars::find_from(t, tick, 0) == Some(a)) by {
        let f = chars::find_from(t, tick, 0).unwrap();
        if f < a {
            assert(t.subrange(f, f + 1)[0] == before[f]);
            assert(before.contains(before[f]));
        }
    }
    chars::lemma_find_from(t, tick, a + 1);
    assert(t.subrange(b, b + 1) =~= tick);
    assert(chars::occurs_at(t, tick, b));
    assert(chars::find_from(t, tick, a + 1) == Some(b)) by {
        let f = chars::find_from(t, tick, a + 1).unwrap();
        if f < b {
            assert(t.subrange(f, f + 1)[0] == snippet[f - a - 1]);
            assert(snippet.contains(snippet[f - a - 1]));
        }
    }
    assert(t.subrange(a + 1, b) =~= snippet);
    let head = before + seq!['`'] + snippet + seq!['`'];
    assert(head + after =~= t);
    lemma_quoted_behind(head, after, 0);
    chars::lemma_find_from(before, tick, 0);
    if let Some(f) = chars::find_from(before, tick, 0) {
        assert(before.subrange(f, f + 1)[0] == before[f]);
        assert(before.contains(before[f]));
    }
}

/// What stands before does not change where a backtick is found.
proof fn lemma_find_behind(head: Seq<char>, t: Seq<char>, from: int)
    requires
        0 <= from,
    ensures
        chars::find_from(head + t, seq!['`'], head.len() + from) == (match chars::find_from(
            t,
            seq!['`'],
            from,
        ) {
            Some(i) => Some(head.len() + i),
            None => None,
        }),
    decreases t.len() - from + 1,
{
    if from + 1 <= t.len() {
        assert((head + t).subrange(head.len() + from, head.len() + from + 1) =~= t.subrange(
            from,
            from + 1,
        ));
        assert(chars::occurs_at(head + t, seq!['`'], head.len() + from) == chars::occurs_at(
            t,
            seq!['`'],
            from,
        ));
        lemma_find_behind(head, t, from + 1);
    }
}

/// What stands before does not change the snippets from there on.
proof fn lemma_quoted_behind(head: Seq<char>, t: Seq<char>, from: int)
    requires
        0 <= from,
    ensures
        quoted_from(head + t, head.len() + from) == quoted_from(t, from),
    decreases t.len() - from,
{
    let tick = seq!['`'];
    lemma_find_behind(head, t, from);
    chars::lemma_find_from(t, tick, from);
    if let Some(a) = chars::find_from(t, tick, from) {
        lemma_find_behind(head, t, a + 1);
        chars::lemma_find_from(t, tick, a + 1);
        if let Some(b) = chars::find_from(t, tick, a + 1) {
            if b == a + 1 {
                lemma_quoted_behind(head, t, b);
            } else {
                lemma_quoted_behind(head, t, b + 1);
                assert((head + t).subrange(head.len() + a + 1, head.len() + b) =~= t.subrange(
                    a + 1,
                    b,
                ));
            }
        }
    }
}

/// A keyword hits a text once, where it stands in it, however often.
pub proof fn law_hits_are_counted(content: Seq<char>, words: Seq<Seq<char>>)
    ensures
        hits(content, words) == words.filter(|w: Seq<char>| chars::contains(content, w)).len(),
    decreases words.len(),
{
    reveal(Seq::filter);
    if words.len() > 0 {
        law_hits_are_counted(content, words.drop_last());
    }
}

/// Of the files but that of the finding that hold at least two of its keywords,
/// in whatever case, the first three come back, in their order.
pub proof fn law_first_three_matches(finding: FindingView, files: Files)
    requires
        distinct_paths(files),
    ensures
        ({
            let words = search_patterns(finding).map_values(|w: Seq<char>| lower(w));
            let found = files.filter(
                |f: (Seq<char>, Seq<char>)|
                    f.0 != finding.file_path && hits(lower(f.1), words) >= 2,
            );
            cross_files(finding, files) == (if finding.file_path.len() == 0 {
                Seq::empty()
            } else if found.len() > 3 {
                found.take(3)
            } else {
                found
            })
        }),
{
    let words = search_patterns(finding).map_values(|w: Seq<char>| lower(w));
    assert(words =~= lower_all(search_patterns(finding)));
    lemma_first_matches(
        files,
        finding.file_path,
        words,
        |f: (Seq<char>, Seq<char>)| f.0 != finding.file_path && hits(lower(f.1), words) >= 2,
    );
}

proof fn lemma_first_matches(
    files: Files,
    own: Seq<char>,
    words: Seq<Seq<char>>,
    fits: spec_fn((Seq<char>, Seq<char>)) -> bool,
)
    requires
        distinct_paths(files),
        forall|f: (Seq<char>, Seq<char>)| #[trigger]
            fits(f) == (f.0 != own && hits(lower(f.1), words) >= 2),
    ensures
        matching(files, own, lower_contents(files), words) == (if files.filter(fits).len() > 3 {
            files.filter(fits).take(3)
        } else {
            files.filter(fits)
        }),
        forall|k: int|
            0 <= k < files.filter(fits).len() ==> files.contains(#[trigger] files.filter(fits)[k]),
    decreases files.len(),
{
    reveal(Seq::filter);
    if files.len() > 0 {
        let front = files.drop_last();
        let last = files.last();
        assert(distinct_paths(front)) by {
            assert forall|i: int, j: int| 0 <= i < j < front.len() implies (#[trigger] front[i]).0
                != (#[trigger] front[j]).0 by {
                assert(front[i] == files[i] && front[j] == files[j]);
            }
        }
        lemma_first_matches(front, own, words, fits);
        let contents = lower_contents(files);
        assert(contents.drop_last() =~= lower_contents(front));
        assert(contents.last() == lower(last.1));
        let before = front.filter(fits);
        let all = files.filter(fits);
        let found = matching(front, own, lower_contents(front), words);
        assert(fits(last) == (last.0 != own && hits(lower(last.1), words) >= 2));
        assert forall|k: int| 0 <= k < before.len() implies files.contains(#[trigger] before[k])
            && before[k].0 != last.0 by {
            assert(front.contains(before[k]));
            let j = choose|j: int| 0 <= j < front.len() && front[j] == before[k];
            assert(files[j] == before[k]);
            assert(files[j].0 != files[files.len() - 1].0);
        }
        assert(files[files.len() - 1] == last);
        if fits(last) {
            assert(all == before.push(last));
            if before.len() < 3 {
                lemma_with_new_file(found, last.0, last.1);
            } else {
                assert(all.take(3) =~= before.take(3));
                assert(before.take(before.len() as int) =~= before);
            }
        }
    }
}

/// Appends the texts of more than `bytes` bytes.
fn push_longer(out: &mut Vec<String>, texts: &[String], bytes: usize)
    ensures
        chars::views(final(out)@) == chars::views(old(out)@) + longer_than(
            chars::views(texts@),
            bytes as nat,
        ),
{
    let ghost all = chars::views(texts@);
    let ghost start = chars::views(out@);
    let mut i: usize = 0;
    assert(all.take(0) =~= Seq::empty());
    assert(chars::views(out@) =~= start + longer_than(all.take(0), bytes as nat));
    while i < texts.len()
        invariant
            i <= texts@.len(),
            all == chars::views(texts@),
            chars::views(out@) == start + longer_than(all.take(i as int), bytes as nat),
        decreases texts.len() - i,
    {
        assert(all.take(i + 1).drop_last() =~= all.take(i as int));
        assert(all.take(i + 1).last() == texts@[i as int]@);
        if text::byte_len(texts[i].as_str()) > bytes {
            let ghost early = out@;
            out.push(texts[i].clone());
            assert(chars::views(out@) =~= chars::views(early).push(texts@[i as int]@));
            assert(chars::views(out@) =~= start + longer_than(all.take(i + 1), bytes as nat));
        }
        i += 1;
    }
    assert(all.take(i as int) =~= all);
}

/// The keywords among the snippets and names of a finding.
pub fn pick_keywords(snippets: &[String], names: &[String]) -> (r: Vec<String>)
    ensures
        chars::views(r@) == keywords(chars::views(snippets@), chars::views(names@)),
{
    let mut patterns: Vec<String> = Vec::new();
    assert(chars::views(patterns@) =~= Seq::empty());
    push_longer(&mut patterns, snippets, 3);
    assert(chars::views(patterns@) =~= longer_than(chars::views(snippets@), 3));
    push_longer(&mut patterns, names, 5);
    assert(chars::views(patterns@).len() == patterns@.len());
    if patterns.len() > MAX_KEYWORDS {
        let ghost early = patterns@;
        patterns.truncate(MAX_KEYWORDS);
        assert(chars::views(patterns@) =~= chars::views(early).take(MAX_KEYWORDS as int));
    }
    patterns
}

/// How many of the keywords stand in a text.
pub fn count_hits(content: &str, keywords: &[String]) -> (r: usize)
    ensures
        r == hits(content@, chars::views(keywords@)),
{
    let ghost all = chars::views(keywords@);
    let mut count: usize = 0;
    let mut i: usize = 0;
    assert(all.take(0) =~= Seq::empty());
    while i < keywords.len()
        invariant
            count <= i <= keywords@.len(),
            all == chars::views(keywords@),
            count == hits(content@, all.take(i as int)),
        decreases keywords.len() - i,
    {
        assert(all.take(i + 1).drop_last() =~= all.take(i as int));
        assert(all.take(i + 1).last() == keywords@[i as int]@);
        if text::contains(content, keywords[i].as_str()) {
            count += 1;
        }
        i += 1;
    }
    assert(all.take(i as int) =~= all);
    count
}

/// The first files but `own` of which enough keywords stand in the text that
/// `contents` has for them.
pub fn select_files(files: &FileMap, own: &str, contents: &[String], keywords: &[String]) -> (r:
    FileMap)
    requires
        contents@.len() == files@.len(),
    ensures
        r@ == matching(files@, own@, chars::views(contents@), chars::views(keywords@)),
        r.wf(),
{
    let ghost all = files@;
    let ghost texts = chars::views(contents@);
    let ghost words = chars::views(keywords@);
    let mut found = FileMap::new();
    let mut i: usize = 0;
    assert(all.take(0) =~= Seq::empty());
    while i < files.len()
        invariant
            i <= all.len(),
            all == files@,
            contents@.len() == all.len(),
            texts == chars::views(contents@),
            words == chars::views(keywords@),
            found@ == matching(all.take(i as int), own@, texts.take(i as int), words),
            found.wf(),
        decreases all.len() - i,
    {
        assert(all.take(i + 1).drop_last() =~= all.take(i as int));
        assert(texts.take(i + 1).drop_last() =~= texts.take(i as int));
        assert(texts.take(i + 1).last() == contents@[i as int]@);
        if found.len() < MAX_OTHER_FILES && !text::same(files.path(i).as_str(), own) && count_hits(
            contents[i].as_str(),
            keywords,
        ) >= MIN_HITS {
            found.insert(files.path(i).clone(), files.content(i).clone());
        }
        i += 1;
    }
    assert(all.take(i as int) =~= all);
    assert(texts.take(i as int) =~= texts);
    found
}

impl<'a> ContributionGenerator<'a> {
    /// The keywords of a finding: snippets in backticks and dotted names in its
    /// description and its suggestion.
    pub fn extract_search_patterns(finding: &Finding) -> (r: Vec<String>)
        ensures
            chars::views(r@) == search_patterns(finding@),
    {
        let mut wording_text = finding.description.clone();
        wording_text.push(' ');
        if let Some(suggestion) = &finding.suggestion {
            wording_text.append(suggestion.as_str());
        }
        assert(wording_text@ =~= wording(finding@));
        let snippets = all_groups(QUOTED, wording_text.as_str());
        let names = all_groups(DOTTED, wording_text.as_str());
        pick_keywords(snippets.as_slice(), names.as_slice())
    }

    /// Other files with the issue of a finding: at most [`MAX_OTHER_FILES`]
    /// files of `context` that hold at least [`MIN_HITS`] of its keywords.
    pub fn find_cross_file_instances(&self, finding: &Finding, context: &RepoContext) -> (r:
        FileMap)
        ensures
            r@ == cross_files(finding@, context.relevant_files@),
            r.wf(),
    {
        if finding.file_path.as_str().is_empty() {
            return FileMap::new();
        }
        let files = &context.relevant_files;
        let patterns = Self::extract_search_patterns(finding);
        if patterns.len() == 0 {
            proof {
                assert(lower_all(chars::views(patterns@)) =~= Seq::empty());
                lemma_no_keywords(files@, finding.file_path@, lower_contents(files@));
            }
            return FileMap::new();
        }
        let mut words: Vec<String> = Vec::new();
        let ghost all = chars::views(patterns@);
        let mut i: usize = 0;
        assert(chars::views(words@) =~= lower_all(all.take(0)));
        while i < patterns.len()
            invariant
                i <= patterns@.len(),
                all == chars::views(patterns@),
                chars::views(words@) == lower_all(all.take(i as int)),
            decreases patterns.len() - i,
        {
            let ghost early = words@;
            words.push(to_lower(patterns[i].as_str()));
            i += 1;
            assert(chars::views(words@) =~= chars::views(early).push(lower(all[i - 1])));
            assert(lower_all(all.take(i as int)) =~= lower_all(all.take(i - 1)).push(
                lower(all[i - 1]),
            ));
        }
        assert(all.take(i as int) =~= all);
        let mut contents: Vec<String> = Vec::new();
        let mut j: usize = 0;
        assert(chars::views(contents@) =~= lower_contents(files@.take(0)));
        while j < files.len()
            invariant
                j <= files@.len(),
                contents@.len() == j,
                chars::views(contents@) == lower_contents(files@.take(j as int)),
            decreases files@.len() - j,
        {
            let ghost early = contents@;
            contents.push(to_lower(files.content(j).as_str()));
            j += 1;
            assert(chars::views(contents@) =~= chars::views(early).push(lower(files@[j - 1].1)));
            assert(lower_contents(files@.take(j as int)) =~= lower_contents(
                files@.take(j - 1),
            ).push(lower(files@[j - 1].1)));
        }
        assert(files@.take(j as int) =~= files@);
        select_files(files, finding.file_path.as_str(), contents.as_slice(), words.as_slice())
    }
}

} // verus!
