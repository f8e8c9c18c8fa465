//! The prompt that asks whether a contribution is good, and its answer.

use vstd::prelude::*;
use vstd::hash_set::StringHashSet;
use vstd::utf8::is_ascii_chars;
use crate::case::{to_upper, upper};
use crate::chars;
use crate::generator::ContributionGenerator;
use crate::models::{
    change_views, lookup, ChangeView, Contribution, ContributionType, ContributionView, FileChange, Files,
    RepoContext,
};
use crate::outside::ascii_upper;
use crate::text;

verus! {

/// How many changes are shown.
pub const MAX_SHOWN_CHANGES: usize = 5;

/// How many bytes of each change are shown.
pub const MAX_SHOWN_BYTES: usize = 4000;

/// The word that approves a contribution.
pub const APPROVAL: &'static str = "APPROVE";

/// The questions at the end of the prompt.
pub const QUESTIONS: &'static str = "\nAnswer these questions:\n\
     1. Does the change address the described issue?\n\
     2. Does it introduce any obvious new bugs or security vulnerabilities?\n\
     3. Is the change reasonable and follows existing code style?\n\n\
     IMPORTANT: Be lenient. APPROVE if the change is a net improvement, \
     even if minor improvements could be made. Only REJECT if the change \
     is clearly wrong, introduces a bug, or is completely unrelated to the issue.\n\n\
     Reply with APPROVE or REJECT followed by brief reasoning.";

impl ContributionType {
    /// The name of the kind.
    pub open spec fn spec_name(self) -> &'static str {
        match self {
            ContributionType::SecurityFix => "SecurityFix",
            ContributionType::CodeQuality => "CodeQuality",
            ContributionType::DocsImprove => "DocsImprove",
            ContributionType::UiUxFix => "UiUxFix",
            ContributionType::PerformanceOpt => "PerformanceOpt",
            ContributionType::FeatureAdd => "FeatureAdd",
            ContributionType::Refactor => "Refactor",
        }
    }

    /// The name of the kind.
    pub fn name(self) -> (r: &'static str)
        ensures
            r@ == self.spec_name()@,
    {
        match self {
            ContributionType::SecurityFix => "SecurityFix",
            ContributionType::CodeQuality => "CodeQuality",
            ContributionType::DocsImprove => "DocsImprove",
            ContributionType::UiUxFix => "UiUxFix",
            ContributionType::PerformanceOpt => "PerformanceOpt",
            ContributionType::FeatureAdd => "FeatureAdd",
            ContributionType::Refactor => "Refactor",
        }
    }
}

/// The lines that are not among `others`, each behind `sign`.
pub open spec fn lines_but(lines: Seq<Seq<char>>, others: Seq<Seq<char>>, sign: char) -> Seq<char>
    decreases lines.len(),
{
    if lines.len() == 0 {
        Seq::empty()
    } else {
        let before = lines_but(lines.drop_last(), others, sign);
        if others.contains(lines.last()) {
            before
        } else {
            before + seq![sign] + lines.last() + seq!['\n']
        }
    }
}

/// The difference of two texts: a header with the path, the lines that only
/// the first one has, and the lines that only the second one has.
pub open spec fn diff(original: Seq<char>, new_content: Seq<char>, path: Seq<char>) -> Seq<char> {
    let old_lines = chars::lines(original);
    let new_lines = chars::lines(new_content);
    "--- a/"@ + path + "\n+++ b/"@ + path + "\n"@ + lines_but(old_lines, new_lines, '-')
        + lines_but(new_lines, old_lines, '+')
}

/// What is shown of a change: the difference to a file that is known, else the
/// new content.
pub open spec fn shown(change: ChangeView, files: Files) -> Seq<char> {
    match lookup(files, change.path) {
        Some(original) => if change.is_new_file {
            change.new_content
        } else {
            diff(original, change.new_content, change.path)
        },
        None => change.new_content,
    }
}

/// What the prompt says of one change.
pub open spec fn change_section(change: ChangeView, files: Files) -> Seq<char> {
    let snippet = chars::clip(shown(change, files), MAX_SHOWN_BYTES as int);
    if lookup(files, change.path) is Some && !change.is_new_file {
        "\n### "@ + change.path + " (diff)\n```diff\n"@ + snippet + "\n```\n"@
    } else {
        "\n### "@ + change.path + "\n```\n"@ + snippet + "\n```\n"@
    }
}

/// What the prompt says of the changes.
pub open spec fn change_sections(changes: Seq<ChangeView>, files: Files) -> Seq<char>
    decreases changes.len(),
{
    if changes.len() == 0 {
        Seq::empty()
    } else {
        change_sections(changes.drop_last(), files) + change_section(changes.last(), files)
    }
}

/// The list of changes.
pub open spec fn summary(changes: Seq<ChangeView>) -> Seq<char>
    decreases changes.len(),
{
    if changes.len() == 0 {
        Seq::empty()
    } else {
        summary(changes.drop_last()) + "- "@ + changes.last().path + if changes.last().is_new_file {
            " (new)\n"@
        } else {
            " (modified)\n"@
        }
    }
}

/// The changes that are shown.
pub open spec fn shown_changes(changes: Seq<ChangeView>) -> Seq<ChangeView> {
    if changes.len() > MAX_SHOWN_CHANGES {
        changes.take(MAX_SHOWN_CHANGES as int)
    } else {
        changes
    }
}

/// The prompt that asks about a contribution.
pub open spec fn review_prompt(contribution: ContributionView, files: Files) -> Seq<char> {
    "Review the following code contribution for quality:\n\n**Title**: "@ + contribution.title
        + "\n**Type**: "@ + contribution.contribution_type.spec_name()@ + "\n**Finding**: "@
        + contribution.finding.description + "\n**Changes**:\n"@ + summary(contribution.changes)
        + "\n\nFor each changed file:\n"@ + change_sections(
        shown_changes(contribution.changes),
        files,
    ) + QUESTIONS@
}

/// Nothing that is shown is cut inside a character.
pub open spec fn review_fits(changes: Seq<ChangeView>, files: Files) -> bool {
    forall|i: int|
        0 <= i < shown_changes(changes).len() ==> chars::cuts_cleanly(
            shown(#[trigger] shown_changes(changes)[i], files),
            MAX_SHOWN_BYTES as int,
        )
}

/// The answer approves the contribution. Case does not matter.
pub open spec fn approves(answer: Seq<char>) -> bool {
    chars::contains(upper(answer), APPROVAL@)
}

/// The difference of a text to itself is its header.
pub proof fn law_diff_to_itself(text: Seq<char>, path: Seq<char>)
    ensures
        diff(text, text, path) == "--- a/"@ + path + "\n+++ b/"@ + path + "\n"@,
{
    let lines = chars::lines(text);
    lemma_no_lines(lines, lines, '-');
    lemma_no_lines(lines, lines, '+');
    assert(diff(text, text, path) =~= "--- a/"@ + path + "\n+++ b/"@ + path + "\n"@);
}

proof fn lemma_no_lines(lines: Seq<Seq<char>>, others: Seq<Seq<char>>, sign: char)
    requires
        forall|i: int| 0 <= i < lines.len() ==> others.contains(#[trigger] lines[i]),
    ensures
        lines_but(lines, others, sign) == Seq::<char>::empty(),
    decreases lines.len(),
{
    if lines.len() > 0 {
        let front = lines.drop_last();
        assert forall|i: int| 0 <= i < front.len() implies others.contains(#[trigger] front[i]) by {
            assert(front[i] == lines[i]);
        }
        lemma_no_lines(front, others, sign);
    }
}

/// An ASCII answer with the word of approval in it, in whatever case, approves.
pub proof fn law_approval_in_any_case(before: Seq<char>, word: Seq<char>, after: Seq<char>)
    requires
        is_ascii_chars(before + word + after),
        upper(word) == APPROVAL@,
    ensures
        approves(before + word + after),
{
    let answer = before + word + after;
    let i = before.len() as int;
    assert(is_ascii_chars(word)) by {
        assert forall|k: int| 0 <= k < word.len() implies '\0' <= #[trigger] word[k]
            <= '\u{7f}' by {
            assert(word[k] == answer[i + k]);
        }
    }
    let loud = upper(answer);
    assert(loud.subrange(i, i + APPROVAL@.len()) =~= upper(word)) by {
        assert forall|k: int| 0 <= k < word.len() implies #[trigger] loud[i + k] == ascii_upper(
            word[k],
        ) by {
            assert(answer[i + k] == word[k]);
        }
    }
    assert(chars::occurs_at(loud, APPROVAL@, i));
}

/// A line of one text is listed exactly where the other text does not have it,
/// behind its sign; lines are listed in their order.
pub proof fn law_diff_lists_missing_lines(
    a: Seq<Seq<char>>,
    b: Seq<Seq<char>>,
    others: Seq<Seq<char>>,
    sign: char,
)
    ensures
        lines_but(a + b, others, sign) == lines_but(a, others, sign) + lines_but(b, others, sign),
        a.len() == 1 ==> lines_but(a, others, sign) == (if others.contains(a[0]) {
            Seq::empty()
        } else {
            seq![sign] + a[0] + seq!['\n']
        }),
        lines_but(Seq::empty(), others, sign) == Seq::<char>::empty(),
    decreases b.len(),
{
    if b.len() == 0 {
        assert(a + b =~= a);
        assert(lines_but(a, others, sign) + lines_but(b, others, sign) =~= lines_but(
            a,
            others,
            sign,
        ));
    } else {
        law_diff_lists_missing_lines(a, b.drop_last(), others, sign);
        assert((a + b).drop_last() =~= a + b.drop_last());
        assert((a + b).last() == b.last());
        assert(lines_but(a + b, others, sign) =~= lines_but(a, others, sign) + lines_but(
            b,
            others,
            sign,
        ));
    }
    if a.len() == 1 {
        assert(a.drop_last() =~= Seq::empty());
        assert(lines_but(a.drop_last(), others, sign) =~= Seq::empty());
        if !others.contains(a[0]) {
            assert(lines_but(a, others, sign) =~= seq![sign] + a[0] + seq!['\n']);
        }
    }
}

/// A difference is its header, what the old text had more behind `-`, and what
/// the new text has more behind `+`.
pub proof fn law_diff_parts(original: Seq<char>, new_content: Seq<char>, path: Seq<char>)
    ensures
        diff(original, new_content, path) == ("--- a/"@ + path + "\n+++ b/"@ + path + "\n"@)
            + lines_but(chars::lines(original), chars::lines(new_content), '-') + lines_but(
            chars::lines(new_content),
            chars::lines(original),
            '+',
        ),
{
}

/// What the review prompt says of changes, it says of each in turn: in the list,
/// its path and whether it is new; below, its path and up to 4000 bytes of the
/// difference to a file that is known and not made anew, or else of its content.
pub proof fn law_review_shows_each_change(a: Seq<ChangeView>, b: Seq<ChangeView>, files: Files)
    ensures
        summary(a + b) == summary(a) + summary(b),
        change_sections(a + b, files) == change_sections(a, files) + change_sections(b, files),
        summary(Seq::empty()) == Seq::<char>::empty(),
        change_sections(Seq::empty(), files) == Seq::<char>::empty(),
        a.len() == 1 ==> summary(a) == "- "@ + a[0].path + (if a[0].is_new_file {
            " (new)\n"@
        } else {
            " (modified)\n"@
        }),
        a.len() == 1 ==> change_sections(a, files) == (match (
            lookup(files, a[0].path),
            a[0].is_new_file,
        ) {
            (Some(original), false) => "\n### "@ + a[0].path + " (diff)\n```diff\n"@ + chars::clip(
                diff(original, a[0].new_content, a[0].path),
                4000,
            ) + "\n```\n"@,
            _ => "\n### "@ + a[0].path + "\n```\n"@ + chars::clip(a[0].new_content, 4000)
                + "\n```\n"@,
        }),
    decreases b.len(),
{
    if b.len() == 0 {
        assert(a + b =~= a);
        assert(summary(a) + summary(b) =~= summary(a));
        assert(change_sections(a, files) + change_sections(b, files) =~= change_sections(a, files));
    } else {
        law_review_shows_each_change(a, b.drop_last(), files);
        assert((a + b).drop_last() =~= a + b.drop_last());
        assert((a + b).last() == b.last());
        assert(summary(a + b) =~= summary(a) + summary(b));
        assert(change_sections(a + b, files) =~= change_sections(a, files) + change_sections(
            b,
            files,
        ));
    }
    if a.len() == 1 {
        assert(a.drop_last() =~= Seq::empty());
        assert(summary(a.drop_last()) =~= Seq::empty());
        assert(change_sections(a.drop_last(), files) =~= Seq::empty());
        assert(summary(a) =~= "- "@ + a[0].path + (if a[0].is_new_file {
            " (new)\n"@
        } else {
            " (modified)\n"@
        }));
        assert(change_sections(a, files) =~= change_section(a[0], files));
    }
}

/// A review prompt names the contribution, lists all of its changes, shows the
/// first five of them, and ends with the questions.
pub proof fn law_review_prompt_parts(contribution: ContributionView, files: Files)
    ensures
        ({
            let changes = contribution.changes;
            let first = if changes.len() > 5 {
                changes.take(5)
            } else {
                changes
            };
            review_prompt(contribution, files)
                == "Review the following code contribution for quality:\n\n**Title**: "@
                + contribution.title + "\n**Type**: "@
                + contribution.contribution_type.spec_name()@ + "\n**Finding**: "@
                + contribution.finding.description + "\n**Changes**:\n"@ + summary(changes)
                + "\n\nFor each changed file:\n"@ + change_sections(first, files) + QUESTIONS@
        }),
        ContributionType::SecurityFix.spec_name()@ == "SecurityFix"@,
        ContributionType::CodeQuality.spec_name()@ == "CodeQuality"@,
        ContributionType::DocsImprove.spec_name()@ == "DocsImprove"@,
        ContributionType::UiUxFix.spec_name()@ == "UiUxFix"@,
        ContributionType::PerformanceOpt.spec_name()@ == "PerformanceOpt"@,
        ContributionType::FeatureAdd.spec_name()@ == "FeatureAdd"@,
        ContributionType::Refactor.spec_name()@ == "Refactor"@,
{
}

/// The letter `c` in upper or lower case, for a letter in upper case.
pub open spec fn is_letter(c: char, letter: char) -> bool {
    c == letter || c as u32 == letter as u32 + 32
}

/// An ASCII answer approves exactly where the seven letters of `approve` stand
/// in it one behind the other, each in either case.
pub proof fn law_approves_iff_word_stands_there(answer: Seq<char>)
    requires
        is_ascii_chars(answer),
    ensures
        approves(answer) <==> exists|i: int|
            0 <= i <= answer.len() - 7 && is_letter(#[trigger] answer[i], 'A') && is_letter(
                answer[i + 1],
                'P',
            ) && is_letter(answer[i + 2], 'P') && is_letter(answer[i + 3], 'R') && is_letter(
                answer[i + 4],
                'O',
            ) && is_letter(answer[i + 5], 'V') && is_letter(answer[i + 6], 'E'),
{
    reveal_strlit("APPROVE");
    let loud = upper(answer);
    assert forall|i: int| 0 <= i < answer.len() implies #[trigger] loud[i] == ascii_upper(
        answer[i],
    ) by {}
    if approves(answer) {
        let i = choose|i: int| chars::occurs_at(loud, APPROVAL@, i);
        let part = loud.subrange(i, i + 7);
        assert(part == "APPROVE"@);
        assert(part[0] == loud[i] && part[1] == loud[i + 1] && part[2] == loud[i + 2] && part[3]
            == loud[i + 3] && part[4] == loud[i + 4] && part[5] == loud[i + 5] && part[6]
            == loud[i + 6]);
        assert(is_letter(answer[i], 'A'));
    }
    if exists|i: int|
        0 <= i <= answer.len() - 7 && is_letter(#[trigger] answer[i], 'A') && is_letter(
            answer[i + 1],
            'P',
        ) && is_letter(answer[i + 2], 'P') && is_letter(answer[i + 3], 'R') && is_letter(
            answer[i + 4],
            'O',
        ) && is_letter(answer[i + 5], 'V') && is_letter(answer[i + 6], 'E') {
        let i = choose|i: int|
            0 <= i <= answer.len() - 7 && is_letter(#[trigger] answer[i], 'A') && is_letter(
                answer[i + 1],
                'P',
            ) && is_letter(answer[i + 2], 'P') && is_letter(answer[i + 3], 'R') && is_letter(
                answer[i + 4],
                'O',
            ) && is_letter(answer[i + 5], 'V') && is_letter(answer[i + 6], 'E');
        assert(loud[i] == 'A' && loud[i + 1] == 'P' && loud[i + 2] == 'P' && loud[i + 3] == 'R'
            && loud[i + 4] == 'O' && loud[i + 5] == 'V' && loud[i + 6] == 'E');
        assert(loud.subrange(i, i + 7) =~= "APPROVE"@);
        assert(chars::occurs_at(loud, APPROVAL@, i));
    }
}

/// A review prompt can be made exactly where what it shows of the first five
/// changes can be cut at 4000 bytes.
pub proof fn law_review_fits_iff(changes: Seq<ChangeView>, files: Files)
    ensures
        review_fits(changes, files) <==> forall|i: int|
            0 <= i < changes.len() && i < 5 ==> chars::cuts_cleanly(
                match (lookup(files, (#[trigger] changes[i]).path), changes[i].is_new_file) {
                    (Some(original), false) => diff(
                        original,
                        changes[i].new_content,
                        changes[i].path,
                    ),
                    _ => changes[i].new_content,
                },
                4000,
            ),
{
    let first = shown_changes(changes);
    assert forall|i: int| 0 <= i < changes.len() && i < 5 implies first[i] == #[trigger] changes[i] && i
        < first.len() by {}
    if review_fits(changes, files) {
        assert forall|i: int| 0 <= i < changes.len() && i < 5 implies chars::cuts_cleanly(
            match (lookup(files, (#[trigger] changes[i]).path), changes[i].is_new_file) {
                (Some(original), false) => diff(
                    original,
                    changes[i].new_content,
                    changes[i].path,
                ),
                _ => changes[i].new_content,
            },
            4000,
        ) by {
            assert(chars::cuts_cleanly(shown(first[i], files), 4000));
        }
    } else {
        let i = choose|i: int|
            0 <= i < first.len() && !chars::cuts_cleanly(shown(#[trigger] first[i], files), 4000);
        assert(first[i] == changes[i]);
    }
}

/// An answer approves exactly where the word stands in it, in upper case.
pub proof fn law_approval_word(answer: Seq<char>)
    ensures
        approves(answer) <==> chars::contains(upper(answer), "APPROVE"@),
{
}

/// The texts as a set.
fn text_set(texts: &[String]) -> (r: StringHashSet)
    ensures
        forall|s: Seq<char>| #[trigger] r@.contains(s) <==> chars::views(texts@).contains(s),
{
    let ghost all = chars::views(texts@);
    let mut set = StringHashSet::new();
    let mut i: usize = 0;
    while i < texts.len()
        invariant
            i <= texts@.len(),
            all == chars::views(texts@),
            forall|s: Seq<char>| #[trigger] set@.contains(s) <==> all.take(i as int).contains(s),
        decreases texts.len() - i,
    {
        let ghost before = all.take(i as int);
        set.insert(texts[i].clone());
        i += 1;
        assert forall|s: Seq<char>| #[trigger] set@.contains(s) <==> all.take(
            i as int,
        ).contains(s) by {
            let here = all[i - 1];
            if all.take(i as int).contains(s) {
                let k = choose|k: int| 0 <= k < i && all.take(i as int)[k] == s;
                if k < i - 1 {
                    assert(before[k] == s);
                }
            }
            if before.contains(s) {
                let k = choose|k: int| 0 <= k < before.len() && before[k] == s;
                assert(all.take(i as int)[k] == s);
            }
            assert(all.take(i as int)[i - 1] == here);
        }
    }
    assert(all.take(i as int) =~= all);
    set
}

/// Appends the lines that are not among `others`, each behind `sign`.
fn push_lines_but(out: &mut String, lines: &[String], others: &[String], sign: char)
    ensures
        final(out)@ == old(out)@ + lines_but(chars::views(lines@), chars::views(others@), sign),
{
    let set = text_set(others);
    let ghost all = chars::views(lines@);
    let ghost rest = chars::views(others@);
    let ghost head = out@;
    let mut i: usize = 0;
    assert(all.take(0) =~= Seq::empty());
    assert(out@ =~= head + lines_but(all.take(0), rest, sign));
    while i < lines.len()
        invariant
            i <= lines@.len(),
            all == chars::views(lines@),
            rest == chars::views(others@),
            forall|s: Seq<char>| #[trigger] set@.contains(s) <==> rest.contains(s),
            out@ == head + lines_but(all.take(i as int), rest, sign),
        decreases lines.len() - i,
    {
        assert(all.take(i + 1).drop_last() =~= all.take(i as int));
        assert(all.take(i + 1).last() == lines@[i as int]@);
        if !set.contains(lines[i].as_str()) {
            out.push(sign);
            out.append(lines[i].as_str());
            out.push('\n');
        }
        i += 1;
        assert(out@ =~= head + lines_but(all.take(i as int), rest, sign));
    }
    assert(all.take(i as int) =~= all);
}

/// The difference of two texts: the removed lines behind `-`, the added ones
/// behind `+`.
pub fn unified_diff(original: &str, new_content: &str, path: &str) -> (r: String)
    ensures
        r@ == diff(original@, new_content@, path@),
{
    let old_lines = text::lines(original);
    let new_lines = text::lines(new_content);
    let mut out = "--- a/".to_owned();
    out.append(path);
    out.append("\n+++ b/");
    out.append(path);
    out.append("\n");
    push_lines_but(&mut out, old_lines.as_slice(), new_lines.as_slice(), '-');
    push_lines_but(&mut out, new_lines.as_slice(), old_lines.as_slice(), '+');
    out
}

/// The list of changes.
fn summary_text(changes: &[FileChange]) -> (r: String)
    ensures
        r@ == summary(change_views(changes@)),
{
    let ghost all = change_views(changes@);
    let mut out = String::new();
    let mut i: usize = 0;
    assert(all.take(0) =~= Seq::empty());
    assert(out@ =~= summary(all.take(0)));
    while i < changes.len()
        invariant
            i <= changes@.len(),
            all == change_views(changes@),
            out@ == summary(all.take(i as int)),
        decreases changes.len() - i,
    {
        assert(all.take(i + 1).drop_last() =~= all.take(i as int));
        assert(all.take(i + 1).last() == changes@[i as int]@);
        out.append("- ");
        out.append(changes[i].path.as_str());
        if changes[i].is_new_file {
            out.append(" (new)\n");
        } else {
            out.append(" (modified)\n");
        }
        i += 1;
    }
    assert(all.take(i as int) =~= all);
    out
}

/// What is shown of a change, and whether it is a difference.
fn shown_text(change: &FileChange, context: &RepoContext) -> (r: (String, bool))
    ensures
        r.0@ == shown(change@, context.relevant_files@),
        r.1 == (lookup(context.relevant_files@, change.path@) is Some && !change.is_new_file),
{
    match context.relevant_files.get(change.path.as_str()) {
        Some(original) => {
            if change.is_new_file {
                (change.new_content.clone(), false)
            } else {
                let text = unified_diff(
                    original.as_str(),
                    change.new_content.as_str(),
                    change.path.as_str(),
                );
                (text, true)
            }
        },
        None => (change.new_content.clone(), false),
    }
}

/// What the prompt says of one change, unless it would be cut inside a
/// character.
fn section_text(change: &FileChange, context: &RepoContext) -> (r: Option<String>)
    ensures
        match r {
            Some(section) => chars::cuts_cleanly(
                shown(change@, context.relevant_files@),
                MAX_SHOWN_BYTES as int,
            ) && section@ == change_section(change@, context.relevant_files@),
            None => !chars::cuts_cleanly(
                shown(change@, context.relevant_files@),
                MAX_SHOWN_BYTES as int,
            ),
        },
{
    let (content, is_diff) = shown_text(change, context);
    if !text::cuts_cleanly(content.as_str(), MAX_SHOWN_BYTES) {
        return None;
    }
    let mut out = "\n### ".to_owned();
    out.append(change.path.as_str());
    if is_diff {
        out.append(" (diff)\n```diff\n");
    } else {
        out.append("\n```\n");
    }
    out.append(text::clip(content.as_str(), MAX_SHOWN_BYTES).as_str());
    out.append("\n```\n");
    Some(out)
}

/// What the prompt says of the first changes, unless something would be cut
/// inside a character.
fn sections_text(changes: &[FileChange], context: &RepoContext) -> (r: Option<String>)
    ensures
        match r {
            Some(sections) => review_fits(change_views(changes@), context.relevant_files@)
                && sections@ == change_sections(
                shown_changes(change_views(changes@)),
                context.relevant_files@,
            ),
            None => !review_fits(change_views(changes@), context.relevant_files@),
        },
{
    let ghost all = shown_changes(change_views(changes@));
    let ghost files = context.relevant_files@;
    let mut out = String::new();
    let mut i: usize = 0;
    assert(all.take(0) =~= Seq::empty());
    assert(out@ =~= change_sections(all.take(0), files));
    while i < changes.len() && i < MAX_SHOWN_CHANGES
        invariant
            i <= all.len(),
            all == shown_changes(change_views(changes@)),
            files == context.relevant_files@,
            out@ == change_sections(all.take(i as int), files),
            forall|k: int|
                0 <= k < i ==> chars::cuts_cleanly(
                    shown(#[trigger] all[k], files),
                    MAX_SHOWN_BYTES as int,
                ),
        decreases changes.len() - i,
    {
        assert(all.take(i + 1).drop_last() =~= all.take(i as int));
        assert(all[i as int] == changes@[i as int]@);
        match section_text(&changes[i], context) {
            Some(section) => {
                out.append(section.as_str());
            },
            None => {
                assert(!chars::cuts_cleanly(shown(all[i as int], files), MAX_SHOWN_BYTES as int));
                return None;
            },
        }
        i += 1;
    }
    assert(all.take(i as int) =~= all);
    Some(out)
}

impl<'a> ContributionGenerator<'a> {
    /// The prompt that asks about a contribution, unless something that it
    /// shows would be cut inside a character.
    pub fn build_review_prompt(&self, contribution: &Contribution, context: &RepoContext) -> (r:
        Option<String>)
        ensures
            match r {
                Some(prompt) => review_fits(contribution@.changes, context.relevant_files@)
                    && prompt@ == review_prompt(contribution@, context.relevant_files@),
                None => !review_fits(contribution@.changes, context.relevant_files@),
            },
    {
        let sections = match sections_text(contribution.changes.as_slice(), context) {
            Some(sections) => sections,
            None => {
                return None;
            },
        };
        let mut out = "Review the following code contribution for quality:\n\n**Title**: ".to_owned();
        out.append(contribution.title.as_str());
        out.append("\n**Type**: ");
        out.append(contribution.contribution_type.name());
        out.append("\n**Finding**: ");
        out.append(contribution.finding.description.as_str());
        out.append("\n**Changes**:\n");
        out.append(summary_text(contribution.changes.as_slice()).as_str());
        out.append("\n\nFor each changed file:\n");
        out.append(sections.as_str());
        out.append(QUESTIONS);
        Some(out)
    }

    /// Whether the answer to that prompt approves the contribution.
    pub fn review_approves(answer: &str) -> (r: bool)
        ensures
            r == approves(answer@),
    {
        has_approval(to_upper(answer).as_str())
    }
}

/// Whether the word of approval stands in an answer in upper case.
pub fn has_approval(answer: &str) -> (r: bool)
    ensures
        r == chars::contains(answer@, APPROVAL@),
{
    text::contains(answer, APPROVAL)
}

} // verus!
