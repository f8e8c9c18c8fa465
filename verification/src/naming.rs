//! Commit messages, branch names and titles.

use vstd::prelude::*;
use vstd::utf8::is_ascii_chars;
use crate::case::{lower, to_lower};
use crate::chars;
use crate::generator::ContributionGenerator;
use crate::guidelines::{
    adapt_pr_title, adapted_title, conventional_type, extract_scope_from_path, scope_in,
    RepoGuidelines,
};
use crate::models::{
    change_views, ChangeView, ContributionType, FileChange, Finding, FindingView,
};
use crate::outside::{ascii_lower, replace_all};
use crate::patterns::{dashed, is_slug_char, NON_SLUG};
use crate::text;
use crate::text_laws::{law_split_at_separator, law_split_one_piece, law_strip_one_by_one};

verus! {

/// How many characters of a title a branch name takes.
pub const MAX_SLUG: usize = 40;

/// How many bytes of a title a commit message takes.
pub const MAX_SUBJECT: usize = 50;

/// How many files a commit message names.
pub const MAX_NAMED_FILES: usize = 3;

impl ContributionType {
    /// What commit messages begin with.
    pub open spec fn spec_commit_prefix(self) -> &'static str {
        match self {
            ContributionType::SecurityFix => "fix(security)",
            ContributionType::CodeQuality => "refactor",
            ContributionType::DocsImprove => "docs",
            ContributionType::PerformanceOpt => "perf",
            ContributionType::FeatureAdd => "feat",
            ContributionType::Refactor => "refactor",
            ContributionType::UiUxFix => "fix(ui)",
        }
    }

    /// What commit messages begin with.
    pub fn commit_prefix(self) -> (r: &'static str)
        ensures
            r@ == self.spec_commit_prefix()@,
    {
        match self {
            ContributionType::SecurityFix => "fix(security)",
            ContributionType::CodeQuality => "refactor",
            ContributionType::DocsImprove => "docs",
            ContributionType::PerformanceOpt => "perf",
            ContributionType::FeatureAdd => "feat",
            ContributionType::Refactor => "refactor",
            ContributionType::UiUxFix => "fix(ui)",
        }
    }

    /// The directory of branch names.
    pub open spec fn spec_branch_prefix(self) -> &'static str {
        match self {
            ContributionType::SecurityFix => "fix/security",
            ContributionType::CodeQuality => "improve/quality",
            ContributionType::DocsImprove => "docs",
            ContributionType::PerformanceOpt => "perf",
            ContributionType::FeatureAdd => "feat",
            ContributionType::Refactor => "refactor",
            ContributionType::UiUxFix => "fix/ui",
        }
    }

    /// The directory of branch names.
    pub fn branch_prefix(self) -> (r: &'static str)
        ensures
            r@ == self.spec_branch_prefix()@,
    {
        match self {
            ContributionType::SecurityFix => "fix/security",
            ContributionType::CodeQuality => "improve/quality",
            ContributionType::DocsImprove => "docs",
            ContributionType::PerformanceOpt => "perf",
            ContributionType::FeatureAdd => "feat",
            ContributionType::Refactor => "refactor",
            ContributionType::UiUxFix => "fix/ui",
        }
    }

    /// The kind as guidelines know it.
    pub open spec fn spec_key(self) -> &'static str {
        match self {
            ContributionType::SecurityFix => "security_fix",
            ContributionType::CodeQuality => "code_quality",
            ContributionType::DocsImprove => "docs_improve",
            ContributionType::UiUxFix => "ui_ux_fix",
            ContributionType::PerformanceOpt => "performance_opt",
            ContributionType::FeatureAdd => "feature_add",
            ContributionType::Refactor => "refactor",
        }
    }

    /// The kind as guidelines know it.
    pub fn key(self) -> (r: &'static str)
        ensures
            r@ == self.spec_key()@,
    {
        match self {
            ContributionType::SecurityFix => "security_fix",
            ContributionType::CodeQuality => "code_quality",
            ContributionType::DocsImprove => "docs_improve",
            ContributionType::UiUxFix => "ui_ux_fix",
            ContributionType::PerformanceOpt => "performance_opt",
            ContributionType::FeatureAdd => "feature_add",
            ContributionType::Refactor => "refactor",
        }
    }

    /// The label that titles begin with.
    pub open spec fn spec_title_label(self) -> &'static str {
        match self {
            ContributionType::SecurityFix => "Security",
            ContributionType::CodeQuality => "Quality",
            ContributionType::DocsImprove => "Docs",
            ContributionType::UiUxFix => "UI/UX",
            ContributionType::PerformanceOpt => "Performance",
            ContributionType::FeatureAdd => "Feature",
            ContributionType::Refactor => "Refactor",
        }
    }

    /// The label that titles begin with.
    pub fn title_label(self) -> (r: &'static str)
        ensures
            r@ == self.spec_title_label()@,
    {
        match self {
            ContributionType::SecurityFix => "Security",
            ContributionType::CodeQuality => "Quality",
            ContributionType::DocsImprove => "Docs",
            ContributionType::UiUxFix => "UI/UX",
            ContributionType::PerformanceOpt => "Performance",
            ContributionType::FeatureAdd => "Feature",
            ContributionType::Refactor => "Refactor",
        }
    }
}

/// A directory whose subdirectories are the parts of a project.
pub open spec fn is_part_root(segment: Seq<char>) -> bool {
    segment == "src"@ || segment == "packages"@ || segment == "apps"@ || segment == "libs"@
}

/// The part of the project that the first change belongs to.
pub open spec fn commit_scope(changes: Seq<ChangeView>) -> Option<Seq<char>> {
    if changes.len() == 0 {
        None
    } else {
        let segments = chars::split(changes[0].path, '/');
        if segments.len() >= 2 && is_part_root(segments[0]) {
            Some(segments[1])
        } else {
            None
        }
    }
}

/// The names, without their directories, of the first files that change.
pub open spec fn file_names(changes: Seq<ChangeView>) -> Seq<Seq<char>> {
    let n = if changes.len() > MAX_NAMED_FILES {
        MAX_NAMED_FILES as int
    } else {
        changes.len() as int
    };
    changes.take(n).map_values(|c: ChangeView| chars::split(c.path, '/').last())
}

/// The commit message, given the title in lower case.
pub open spec fn commit_message(
    finding: FindingView,
    title: Seq<char>,
    changes: Seq<ChangeView>,
) -> Seq<char> {
    finding.finding_type.spec_commit_prefix()@ + match commit_scope(changes) {
        Some(scope) => "("@ + scope + ")"@,
        None => Seq::empty(),
    } + ": "@ + chars::clip(title, MAX_SUBJECT as int) + "\n\n"@ + finding.description
        + "\n\nAffected files: "@ + chars::join(file_names(changes), ", "@)
}

/// The part of a branch name that stands for a title in lower case.
pub open spec fn slug(title: Seq<char>) -> Seq<char> {
    let s = chars::strip_end(chars::strip_start(dashed(title), '-'), '-');
    if s.len() > MAX_SLUG {
        s.take(MAX_SLUG as int)
    } else {
        s
    }
}

/// The branch name for a finding.
pub open spec fn branch_name(finding: FindingView) -> Seq<char> {
    "contribai/"@ + finding.finding_type.spec_branch_prefix()@ + "/"@ + slug(lower(finding.title))
}

/// The title for a finding where no guidelines say otherwise.
pub open spec fn default_title(finding: FindingView) -> Seq<char> {
    finding.finding_type.spec_title_label()@ + ": "@ + finding.title
}

/// The title for a finding.
pub open spec fn pr_title(finding: FindingView, guidelines: Option<&RepoGuidelines>) -> Seq<char> {
    match guidelines {
        Some(g) => if g.has_any() {
            adapted_title(
                finding.title,
                finding.finding_type.spec_key()@,
                g.uses_conventional_commits,
                scope_in(finding.file_path, chars::views(g.scopes@)),
            )
        } else {
            default_title(finding)
        },
        None => default_title(finding),
    }
}

/// Only slug characters and single dashes.
pub open spec fn is_dashed(s: Seq<char>) -> bool {
    &&& forall|i: int| 0 <= i < s.len() ==> is_slug_char(#[trigger] s[i]) || s[i] == '-'
    &&& forall|i: int, j: int|
        0 <= i && j == i + 1 && j < s.len() ==> !(#[trigger] s[i] == '-' && #[trigger] s[j] == '-')
}

proof fn lemma_dashed(t: Seq<char>)
    ensures
        is_dashed(dashed(t)),
        t.len() > 0 ==> dashed(t).len() > 0 && dashed(t).last() == (if is_slug_char(t.last()) {
            t.last()
        } else {
            '-'
        }),
    decreases t.len(),
{
    if t.len() > 0 {
        lemma_dashed(t.drop_last());
        assert(t.len() > 1 ==> t.drop_last().last() == t[t.len() - 2]);
    }
}

proof fn lemma_strip_start(s: Seq<char>, c: char) -> (from: int)
    ensures
        0 <= from <= s.len(),
        chars::strip_start(s, c) == s.skip(from),
        from < s.len() ==> s[from] != c,
    decreases s.len(),
{
    if s.len() > 0 && s[0] == c {
        let from = lemma_strip_start(s.drop_first(), c);
        assert(s.drop_first().skip(from) =~= s.skip(from + 1));
        from + 1
    } else {
        assert(s.skip(0) =~= s);
        0
    }
}

proof fn lemma_strip_end(s: Seq<char>, c: char) -> (to: int)
    ensures
        0 <= to <= s.len(),
        chars::strip_end(s, c) == s.take(to),
    decreases s.len(),
{
    if s.len() > 0 && s.last() == c {
        let to = lemma_strip_end(s.drop_last(), c);
        assert(s.drop_last().take(to) =~= s.take(to));
        to
    } else {
        assert(s.take(s.len() as int) =~= s);
        s.len() as int
    }
}

/// A slug has at most [`MAX_SLUG`] characters, all of them lower case letters,
/// digits or single dashes, and does not begin with a dash.
pub proof fn law_slug_shape(title: Seq<char>)
    ensures
        slug(title).len() <= MAX_SLUG,
        is_dashed(slug(title)),
        slug(title).len() > 0 ==> slug(title)[0] != '-',
{
    let d = dashed(title);
    lemma_dashed(title);
    let from = lemma_strip_start(d, '-');
    let rest = chars::strip_start(d, '-');
    let to = lemma_strip_end(rest, '-');
    let s = chars::strip_end(rest, '-');
    assert forall|i: int| 0 <= i < s.len() implies #[trigger] s[i] == d[from + i] by {}
    assert forall|i: int| 0 <= i < slug(title).len() implies #[trigger] slug(title)[i] == d[from
        + i] by {}
}

/// A title that is a slug already stands in the branch name as it is.
pub proof fn law_slug_kept(title: Seq<char>)
    requires
        is_dashed(title),
        title.len() <= MAX_SLUG,
        title.len() > 0 ==> title[0] != '-' && title.last() != '-',
    ensures
        slug(lower(title)) == title,
{
    assert(is_ascii_chars(title)) by {
        assert forall|i: int| 0 <= i < title.len() implies '\0' <= #[trigger] title[i]
            <= '\u{7f}' by {
            assert(is_slug_char(title[i]) || title[i] == '-');
        }
    }
    assert(lower(title) =~= title) by {
        assert forall|i: int| 0 <= i < title.len() implies #[trigger] lower(title)[i]
            == title[i] by {
            assert(is_slug_char(title[i]) || title[i] == '-');
        }
    }
    lemma_dashed_kept(title);
}

proof fn lemma_dashed_kept(t: Seq<char>)
    requires
        is_dashed(t),
    ensures
        dashed(t) == t,
    decreases t.len(),
{
    if t.len() > 0 {
        let front = t.drop_last();
        assert(is_dashed(front)) by {
            assert forall|i: int| 0 <= i < front.len() implies is_slug_char(#[trigger] front[i])
                || front[i] == '-' by {
                assert(front[i] == t[i]);
            }
            assert forall|i: int, j: int| 0 <= i && j == i + 1 && j < front.len() implies !(
            #[trigger] front[i] == '-' && #[trigger] front[j] == '-') by {
                assert(front[i] == t[i] && front[j] == t[j]);
            }
        }
        lemma_dashed_kept(front);
        let n = t.len() as int;
        assert(is_slug_char(t[n - 1]) || t[n - 1] == '-');
        if n > 1 {
            assert(is_slug_char(t[n - 2]) || t[n - 2] == '-');
        }
        assert(front.push(t.last()) =~= t);
    } else {
        assert(t =~= Seq::empty());
    }
}

/// Guidelines that ask for nothing leave the title as it is without them.
pub proof fn law_empty_guidelines_ignored(finding: FindingView, g: RepoGuidelines)
    requires
        !g.has_any(),
    ensures
        pr_title(finding, Some(&g)) == pr_title(finding, None),
{
}

/// A commit message can be made of every title in ASCII, and of such a title at
/// most [`MAX_SUBJECT`] characters stand in it.
pub proof fn law_ascii_title_fits(title: Seq<char>)
    requires
        is_ascii_chars(title),
    ensures
        chars::cuts_cleanly(lower(title), MAX_SUBJECT as int),
        chars::clip(lower(title), MAX_SUBJECT as int).len() <= MAX_SUBJECT,
{
    let low = lower(title);
    assert(is_ascii_chars(low)) by {
        assert forall|i: int| 0 <= i < low.len() implies '\0' <= #[trigger] low[i] <= '\u{7f}' by {
            assert(low[i] == ascii_lower(title[i]));
        }
    }
    chars::law_clip_ascii(low, MAX_SUBJECT as int);
}

/// What each kind of contribution is called in commit messages, branch names,
/// guidelines and titles.
pub proof fn law_kind_texts()
    ensures
        ContributionType::SecurityFix.spec_commit_prefix()@ == "fix(security)"@,
        ContributionType::CodeQuality.spec_commit_prefix()@ == "refactor"@,
        ContributionType::DocsImprove.spec_commit_prefix()@ == "docs"@,
        ContributionType::UiUxFix.spec_commit_prefix()@ == "fix(ui)"@,
        ContributionType::PerformanceOpt.spec_commit_prefix()@ == "perf"@,
        ContributionType::FeatureAdd.spec_commit_prefix()@ == "feat"@,
        ContributionType::Refactor.spec_commit_prefix()@ == "refactor"@,
        ContributionType::SecurityFix.spec_branch_prefix()@ == "fix/security"@,
        ContributionType::CodeQuality.spec_branch_prefix()@ == "improve/quality"@,
        ContributionType::DocsImprove.spec_branch_prefix()@ == "docs"@,
        ContributionType::UiUxFix.spec_branch_prefix()@ == "fix/ui"@,
        ContributionType::PerformanceOpt.spec_branch_prefix()@ == "perf"@,
        ContributionType::FeatureAdd.spec_branch_prefix()@ == "feat"@,
        ContributionType::Refactor.spec_branch_prefix()@ == "refactor"@,
        ContributionType::SecurityFix.spec_key()@ == "security_fix"@,
        ContributionType::CodeQuality.spec_key()@ == "code_quality"@,
        ContributionType::DocsImprove.spec_key()@ == "docs_improve"@,
        ContributionType::UiUxFix.spec_key()@ == "ui_ux_fix"@,
        ContributionType::PerformanceOpt.spec_key()@ == "performance_opt"@,
        ContributionType::FeatureAdd.spec_key()@ == "feature_add"@,
        ContributionType::Refactor.spec_key()@ == "refactor"@,
        ContributionType::SecurityFix.spec_title_label()@ == "Security"@,
        ContributionType::CodeQuality.spec_title_label()@ == "Quality"@,
        ContributionType::DocsImprove.spec_title_label()@ == "Docs"@,
        ContributionType::UiUxFix.spec_title_label()@ == "UI/UX"@,
        ContributionType::PerformanceOpt.spec_title_label()@ == "Performance"@,
        ContributionType::FeatureAdd.spec_title_label()@ == "Feature"@,
        ContributionType::Refactor.spec_title_label()@ == "Refactor"@,
{
}

/// The scope of a commit message is the segment right behind `src`, `packages`,
/// `apps` or `libs`, if the path of the first change begins so; what stands
/// behind that segment, and the other changes, do not matter.
pub proof fn law_scope_is_second_segment(
    finding: FindingView,
    title: Seq<char>,
    root: Seq<char>,
    part: Seq<char>,
    rest: Seq<char>,
    changes: Seq<ChangeView>,
)
    requires
        root == "src"@ || root == "packages"@ || root == "apps"@ || root == "libs"@,
        !part.contains('/'),
        changes.len() > 0,
        changes[0].path == root + seq!['/'] + part || changes[0].path == root + seq!['/'] + part
            + seq!['/'] + rest,
    ensures
        commit_scope(changes) == Some(part),
        (finding.finding_type.spec_commit_prefix()@ + "("@ + part + "): "@).is_prefix_of(
            commit_message(finding, title, changes),
        ),
{
    reveal_strlit("src");
    reveal_strlit("packages");
    reveal_strlit("apps");
    reveal_strlit("libs");
    reveal_strlit("): ");
    reveal_strlit(")");
    reveal_strlit(": ");
    assert(!root.contains('/'));
    let path = changes[0].path;
    law_split_one_piece(root, '/');
    law_split_one_piece(part, '/');
    law_split_at_separator(root, '/', part);
    law_split_at_separator(root + seq!['/'] + part, '/', rest);
    assert(chars::split(path, '/')[0] == root && chars::split(path, '/')[1] == part);
    let head = finding.finding_type.spec_commit_prefix()@ + "("@ + part + "): "@;
    let message = commit_message(finding, title, changes);
    assert("): "@ =~= ")"@ + ": "@);
    assert(head =~= message.subrange(0, head.len() as int));
}

/// Where the path of the first change does not begin with such a directory, and
/// where nothing changes, a commit message has no scope.
pub proof fn law_no_scope_elsewhere(
    finding: FindingView,
    title: Seq<char>,
    first: Seq<char>,
    rest: Seq<char>,
    changes: Seq<ChangeView>,
)
    requires
        !first.contains('/'),
        changes.len() == 0 || changes[0].path == first || (changes[0].path == first + seq!['/']
            + rest && first != "src"@ && first != "packages"@ && first != "apps"@ && first
            != "libs"@),
    ensures
        commit_scope(changes) is None,
        (finding.finding_type.spec_commit_prefix()@ + ": "@).is_prefix_of(
            commit_message(finding, title, changes),
        ),
{
    law_split_one_piece(first, '/');
    law_split_at_separator(first, '/', rest);
    let head = finding.finding_type.spec_commit_prefix()@ + ": "@;
    let message = commit_message(finding, title, changes);
    assert(head =~= message.subrange(0, head.len() as int));
}

/// Behind its prefix and scope a commit message holds the title, cut at 50
/// bytes, the description, and the names of the first three files that change.
pub proof fn law_commit_message_body(
    finding: FindingView,
    title: Seq<char>,
    changes: Seq<ChangeView>,
)
    ensures
        ({
            let names = file_names(changes);
            &&& names.len() == (if changes.len() < 3 {
                changes.len()
            } else {
                3
            })
            &&& forall|i: int|
                0 <= i < names.len() ==> is_name_of(#[trigger] names[i], changes[i].path)
            &&& (": "@ + chars::clip(title, 50) + "\n\n"@ + finding.description
                + "\n\nAffected files: "@ + chars::join(names, ", "@)).is_suffix_of(
                commit_message(finding, title, changes),
            )
        }),
{
    let names = file_names(changes);
    assert forall|i: int| 0 <= i < names.len() implies is_name_of(
        #[trigger] names[i],
        changes[i].path,
    ) by {
        let path = changes[i].path;
        let pieces = chars::split(path, '/');
        chars::lemma_split_nonempty(path, '/');
        chars::lemma_split_pieces(path, '/');
        chars::law_split_join(path, '/');
        assert(names[i] == pieces.last());
        assert(chars::count(pieces[pieces.len() - 1], '/') == 0);
        lemma_count_zero(pieces.last(), '/');
        if pieces.len() > 1 {
            let dir = chars::join(pieces.drop_last(), seq!['/']);
            assert(path == dir + seq!['/'] + pieces.last());
        }
    }
    let tail = ": "@ + chars::clip(title, 50) + "\n\n"@ + finding.description
        + "\n\nAffected files: "@ + chars::join(names, ", "@);
    let message = commit_message(finding, title, changes);
    assert(tail =~= message.subrange(message.len() - tail.len(), message.len() as int));
}

/// `name` is what stands behind the last slash of `path`.
pub open spec fn is_name_of(name: Seq<char>, path: Seq<char>) -> bool {
    !name.contains('/') && (path == name || exists|dir: Seq<char>| path == #[trigger] (dir + seq![
        '/',
    ] + name))
}

proof fn lemma_count_zero(s: Seq<char>, c: char)
    requires
        chars::count(s, c) == 0,
    ensures
        !s.contains(c),
    decreases s.len(),
{
    if s.len() > 0 {
        lemma_count_zero(s.drop_last(), c);
        assert forall|i: int| 0 <= i < s.len() implies s[i] != c by {
            if i < s.len() - 1 {
                assert(s.drop_last()[i] == s[i]);
                assert(s.drop_last().contains(s.drop_last()[i]));
            }
        }
    }
}

/// A character of a slug is a lower case letter or a digit.
pub proof fn law_slug_characters(c: char)
    ensures
        is_slug_char(c) <==> ('a' <= c <= 'z') || ('0' <= c <= '9'),
{
}

/// No character of `s` can stand in a slug.
pub open spec fn is_gap(s: Seq<char>) -> bool {
    forall|i: int| 0 <= i < s.len() ==> !is_slug_char(#[trigger] s[i])
}

/// Every character of `s` can stand in a slug.
pub open spec fn is_slug_word(s: Seq<char>) -> bool {
    s.len() > 0 && forall|i: int| 0 <= i < s.len() ==> is_slug_char(#[trigger] s[i])
}

/// Letters and digits are kept behind anything.
proof fn lemma_dashed_word(before: Seq<char>, word: Seq<char>)
    requires
        forall|i: int| 0 <= i < word.len() ==> is_slug_char(#[trigger] word[i]),
    ensures
        dashed(before + word) == dashed(before) + word,
    decreases word.len(),
{
    if word.len() == 0 {
        assert(before + word =~= before);
        assert(dashed(before) + word =~= dashed(before));
    } else {
        let front = word.drop_last();
        assert forall|i: int| 0 <= i < front.len() implies is_slug_char(#[trigger] front[i]) by {
            assert(front[i] == word[i]);
        }
        lemma_dashed_word(before, front);
        assert(is_slug_char(word[word.len() - 1]));
        assert((before + word).drop_last() =~= before + front);
        assert((before + word).last() == word.last());
        assert(dashed(before + word) =~= dashed(before) + word);
    }
}

/// A gap is one dash.
proof fn lemma_dashed_gap(before: Seq<char>, gap: Seq<char>)
    requires
        is_gap(gap),
        gap.len() > 0,
        before.len() > 0 ==> is_slug_char(before.last()),
    ensures
        dashed(before + gap) == dashed(before).push('-'),
    decreases gap.len(),
{
    let all = before + gap;
    let front = gap.drop_last();
    assert(!is_slug_char(gap[gap.len() - 1]));
    assert(all.last() == gap.last());
    assert(all.drop_last() =~= before + front);
    if gap.len() == 1 {
        assert(before + front =~= before);
        if before.len() > 0 {
            assert(all[all.len() - 2] == before.last());
        }
    } else {
        assert forall|i: int| 0 <= i < front.len() implies !is_slug_char(#[trigger] front[i]) by {
            assert(front[i] == gap[i]);
        }
        lemma_dashed_gap(before, front);
        assert(all[all.len() - 2] == gap[gap.len() - 2]);
    }
}

/// Words with anything between them that no slug holds stand in a slug with one
/// dash between them, and what stands around them is dropped.
pub proof fn law_slug_of_words(
    before: Seq<char>,
    one: Seq<char>,
    gap: Seq<char>,
    two: Seq<char>,
    after: Seq<char>,
)
    requires
        is_gap(before),
        is_slug_word(one),
        is_gap(gap),
        gap.len() > 0,
        is_slug_word(two),
        is_gap(after),
    ensures
        ({
            let words = one + seq!['-'] + two;
            slug(before + one + gap + two + after) == (if words.len() > 40 {
                words.take(40)
            } else {
                words
            })
        }),
{
    let none = Seq::<char>::empty();
    let words = one + seq!['-'] + two;
    let a = before + one;
    let b = a + gap;
    let c = b + two;
    let all = c + after;
    let lead = if before.len() > 0 {
        seq!['-']
    } else {
        none
    };
    let tail = if after.len() > 0 {
        seq!['-']
    } else {
        none
    };
    if before.len() > 0 {
        lemma_dashed_gap(none, before);
        assert(none + before =~= before);
        assert(dashed(none) =~= none);
        assert(dashed(before) =~= lead);
    } else {
        assert(before =~= none);
        assert(dashed(before) =~= lead);
    }
    assert(is_slug_char(one[one.len() - 1]) && is_slug_char(two[two.len() - 1]));
    assert(is_slug_char(one[0]) && is_slug_char(two[0]));
    lemma_dashed_word(before, one);
    assert(a.last() == one.last());
    lemma_dashed_gap(a, gap);
    lemma_dashed_word(b, two);
    assert(c.last() == two.last());
    if after.len() > 0 {
        lemma_dashed_gap(c, after);
    } else {
        assert(all =~= c);
    }
    let d = dashed(all);
    assert(d =~= lead + words + tail);
    let rest = words + tail;
    assert(rest[0] == one[0]);
    law_strip_one_by_one(rest, '-');
    if before.len() > 0 {
        assert(d =~= seq!['-'] + rest);
    } else {
        assert(d =~= rest);
    }
    assert(chars::strip_start(d, '-') == rest);
    assert(words.last() == two.last());
    law_strip_one_by_one(words, '-');
    if after.len() > 0 {
        assert(rest =~= words.push('-'));
    } else {
        assert(rest =~= words);
    }
}

/// A branch name is the directory of its kind under `contribai/` and the slug of
/// the title; upper case does not matter in it.
pub proof fn law_branch_name_shape(finding: FindingView, other: FindingView)
    ensures
        branch_name(finding) == "contribai/"@ + finding.finding_type.spec_branch_prefix()@ + "/"@
            + slug(lower(finding.title)),
        finding.finding_type == other.finding_type && lower(finding.title) == lower(other.title)
            ==> branch_name(finding) == branch_name(other),
{
}

/// Without guidelines a title is the label of its kind and the title of the
/// finding, as it is.
pub proof fn law_default_title_shape(finding: FindingView)
    ensures
        pr_title(finding, None) == finding.finding_type.spec_title_label()@ + ": "@ + finding.title,
        finding.title.is_suffix_of(pr_title(finding, None)),
{
    let title = pr_title(finding, None);
    assert(finding.title =~= title.subrange(
        title.len() - finding.title.len(),
        title.len() as int,
    ));
}

/// Where a repository has guidelines, the title is the finding's in conventional
/// form if they ask for it, and else the finding's as it is.
pub proof fn law_title_by_guidelines(finding: FindingView, g: RepoGuidelines)
    requires
        g.contributing_md@.len() > 0 || g.pr_template@.len() > 0,
    ensures
        !g.uses_conventional_commits ==> pr_title(finding, Some(&g)) == finding.title,
        g.uses_conventional_commits ==> (": "@ + lower(finding.title)).is_suffix_of(
            pr_title(finding, Some(&g)),
        ),
        g.uses_conventional_commits && g.scopes@.len() == 0 ==> pr_title(finding, Some(&g))
            == conventional_type(finding.finding_type.spec_key()@) + ": "@ + lower(finding.title),
{
    let title = pr_title(finding, Some(&g));
    let tail = ": "@ + lower(finding.title);
    if g.uses_conventional_commits {
        assert(tail =~= title.subrange(title.len() - tail.len(), title.len() as int));
    }
}

/// A conventional title names the scope, where there is one, in brackets behind
/// its type.
pub proof fn law_conventional_title_with_scope(
    title: Seq<char>,
    kind: Seq<char>,
    scope: Seq<char>,
)
    ensures
        scope.len() > 0 ==> adapted_title(title, kind, true, scope) == conventional_type(kind)
            + "("@ + scope + "): "@ + lower(title),
        scope.len() == 0 ==> adapted_title(title, kind, true, scope) == conventional_type(kind)
            + ": "@ + lower(title),
        adapted_title(title, kind, false, scope) == title,
{
    reveal_strlit("): ");
    reveal_strlit(")");
    reveal_strlit(": ");
    assert("): "@ =~= ")"@ + ": "@);
    if scope.len() > 0 {
        assert(adapted_title(title, kind, true, scope) =~= conventional_type(kind) + "("@ + scope
            + "): "@ + lower(title));
    }
}

/// The part of the project that the first change belongs to.
fn scope_of(changes: &[FileChange]) -> (r: Option<String>)
    ensures
        commit_scope(change_views(changes@)) == (match r {
            Some(scope) => Some(scope@),
            None => None,
        }),
{
    if changes.len() == 0 {
        return None;
    }
    let segments = text::split(changes[0].path.as_str(), '/');
    let ghost all = chars::views(segments@);
    assert(all == chars::split(change_views(changes@)[0].path, '/'));
    if segments.len() < 2 {
        return None;
    }
    let root = segments[0].as_str();
    assert(all[0] == root@);
    assert(all[1] == segments@[1]@);
    if text::same(root, "src") || text::same(root, "packages") || text::same(root, "apps")
        || text::same(root, "libs") {
        Some(segments[1].clone())
    } else {
        None
    }
}

/// The names of the first files that change.
fn names_of(changes: &[FileChange]) -> (r: Vec<String>)
    ensures
        chars::views(r@) == file_names(change_views(changes@)),
{
    let ghost all = change_views(changes@);
    let mut names: Vec<String> = Vec::new();
    let mut i: usize = 0;
    assert(chars::views(names@) =~= all.take(0).map_values(
        |c: ChangeView| chars::split(c.path, '/').last(),
    ));
    while i < changes.len() && i < MAX_NAMED_FILES
        invariant
            i <= changes@.len(),
            i <= MAX_NAMED_FILES,
            all == change_views(changes@),
            chars::views(names@) == all.take(i as int).map_values(
                |c: ChangeView| chars::split(c.path, '/').last(),
            ),
        decreases changes.len() - i,
    {
        let segments = text::split(changes[i].path.as_str(), '/');
        let ghost pieces = chars::views(segments@);
        let ghost last = chars::split(all[i as int].path, '/').last();
        proof {
            chars::lemma_split_nonempty(all[i as int].path, '/');
        }
        let ghost early = names@;
        let name = segments[segments.len() - 1].clone();
        assert(name@ == pieces.last());
        names.push(name);
        i += 1;
        assert(chars::views(names@) =~= chars::views(early).push(last));
        assert(all.take(i as int) =~= all.take(i - 1).push(all[i - 1]));
        assert(chars::views(names@) =~= all.take(i as int).map_values(
            |c: ChangeView| chars::split(c.path, '/').last(),
        ));
    }
    names
}

/// The commit message for a finding, given its title in lower case.
pub fn compose_commit_message(finding: &Finding, title: &str, changes: &[FileChange]) -> (r: String)
    requires
        chars::cuts_cleanly(title@, MAX_SUBJECT as int),
    ensures
        r@ == commit_message(finding@, title@, change_views(changes@)),
{
    let mut out = finding.finding_type.commit_prefix().to_owned();
    let ghost prefix = out@;
    let scope = scope_of(changes);
    match &scope {
        Some(scope) => {
            out.append("(");
            out.append(scope.as_str());
            out.append(")");
            assert(out@ =~= prefix + ("("@ + scope@ + ")"@));
        },
        None => {
            assert(out@ =~= prefix + Seq::<char>::empty());
        },
    }
    out.append(": ");
    out.append(text::clip(title, MAX_SUBJECT).as_str());
    out.append("\n\n");
    out.append(finding.description.as_str());
    out.append("\n\nAffected files: ");
    out.append(text::join(names_of(changes).as_slice(), ", ").as_str());
    out
}

/// The part of a branch name that stands for a title in lower case.
pub fn make_slug(title: &str) -> (r: String)
    ensures
        r@ == slug(title@),
{
    proof {
        reveal_strlit("-");
        assert("-"@ =~= seq!['-']);
    }
    let with_dashes = replace_all(NON_SLUG, title, "-");
    let stripped = text::strip_matches(with_dashes.as_str(), '-');
    let cs = text::chars_of(stripped.as_str());
    if cs.len() > MAX_SLUG {
        assert(cs@.subrange(0, MAX_SLUG as int) =~= cs@.take(MAX_SLUG as int));
        text::text_of(cs.as_slice(), 0, MAX_SLUG)
    } else {
        stripped
    }
}

impl<'a> ContributionGenerator<'a> {
    /// The commit message for the changes that a finding leads to.
    ///
    /// The title must not be cut inside a character; see
    /// [`Self::try_commit_message`] for titles of which this is not known.
    pub fn generate_commit_message(&self, finding: &Finding, changes: &[FileChange]) -> (r: String)
        requires
            chars::cuts_cleanly(lower(finding.title@), MAX_SUBJECT as int),
        ensures
            r@ == commit_message(finding@, lower(finding.title@), change_views(changes@)),
    {
        let title = to_lower(finding.title.as_str());
        compose_commit_message(finding, title.as_str(), changes)
    }

    /// The commit message for the changes that a finding leads to, unless its
    /// title would be cut inside a character.
    pub fn try_commit_message(&self, finding: &Finding, changes: &[FileChange]) -> (r: Option<
        String,
    >)
        ensures
            match r {
                Some(message) => chars::cuts_cleanly(lower(finding.title@), MAX_SUBJECT as int)
                    && message@ == commit_message(
                    finding@,
                    lower(finding.title@),
                    change_views(changes@),
                ),
                None => !chars::cuts_cleanly(lower(finding.title@), MAX_SUBJECT as int),
            },
    {
        let title = to_lower(finding.title.as_str());
        if text::cuts_cleanly(title.as_str(), MAX_SUBJECT) {
            Some(self.generate_commit_message(finding, changes))
        } else {
            None
        }
    }

    /// The branch name for a finding.
    pub fn generate_branch_name(finding: &Finding) -> (r: String)
        ensures
            r@ == branch_name(finding@),
    {
        let lowered = to_lower(finding.title.as_str());
        let mut out = "contribai/".to_owned();
        out.append(finding.finding_type.branch_prefix());
        out.append("/");
        out.append(make_slug(lowered.as_str()).as_str());
        out
    }

    /// The title for a finding, with a label for its kind.
    pub fn generate_pr_title(finding: &Finding) -> (r: String)
        ensures
            r@ == default_title(finding@),
    {
        Self::generate_pr_title_with_guidelines(finding, None)
    }

    /// The title for a finding: as the guidelines of the repository want it
    /// where it has any, else with a label for its kind.
    pub fn generate_pr_title_with_guidelines(
        finding: &Finding,
        guidelines: Option<&RepoGuidelines>,
    ) -> (r: String)
        ensures
            r@ == pr_title(finding@, guidelines),
    {
        if let Some(g) = guidelines {
            if g.has_guidelines() {
                let scope = extract_scope_from_path(finding.file_path.as_str(), g);
                return adapt_pr_title(
                    finding.title.as_str(),
                    finding.finding_type.key(),
                    g,
                    scope.as_str(),
                );
            }
        }
        let mut out = finding.finding_type.title_label().to_owned();
        out.append(": ");
        out.append(finding.title.as_str());
        out
    }
}

} // verus!
