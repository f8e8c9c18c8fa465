//! The data that the generator works on.

use vstd::prelude::*;
use crate::chars;

verus! {

/// The kind of a contribution.
#[derive(Clone, Copy, PartialEq, Eq, Structural, Debug)]
pub enum ContributionType {
    SecurityFix,
    CodeQuality,
    DocsImprove,
    UiUxFix,
    PerformanceOpt,
    FeatureAdd,
    Refactor,
}

/// How severe a finding is.
#[derive(Clone, Copy, PartialEq, Eq, Structural, Debug)]
pub enum Severity {
    Low,
    Medium,
    High,
    Critical,
}

impl Severity {
    /// The severity as prompts write it.
    pub open spec fn label(self) -> &'static str {
        match self {
            Severity::Low => "low",
            Severity::Medium => "medium",
            Severity::High => "high",
            Severity::Critical => "critical",
        }
    }

    /// The severity as prompts write it.
    pub fn as_str(self) -> (r: &'static str)
        ensures
            r@ == self.label()@,
    {
        match self {
            Severity::Low => "low",
            Severity::Medium => "medium",
            Severity::High => "high",
            Severity::Critical => "critical",
        }
    }
}

/// How severities are written.
pub proof fn law_severity_texts()
    ensures
        Severity::Low.label()@ == "low"@,
        Severity::Medium.label()@ == "medium"@,
        Severity::High.label()@ == "high"@,
        Severity::Critical.label()@ == "critical"@,
{
}

/// The characters of an optional text.
pub open spec fn opt_view(s: Option<String>) -> Option<Seq<char>> {
    match s {
        Some(t) => Some(t@),
        None => None,
    }
}

/// A copy of an optional text.
pub fn clone_opt(s: &Option<String>) -> (r: Option<String>)
    ensures
        opt_view(r) == opt_view(*s),
{
    match s {
        Some(t) => Some(t.clone()),
        None => None,
    }
}

/// A copy of a list of texts.
fn clone_texts(v: &Vec<String>) -> (r: Vec<String>)
    ensures
        chars::views(r@) == chars::views(v@),
{
    let mut out: Vec<String> = Vec::new();
    let mut i: usize = 0;
    while i < v.len()
        invariant
            i <= v@.len(),
            chars::views(out@) == chars::views(v@).take(i as int),
        decreases v.len() - i,
    {
        let ghost early = out@;
        out.push(v[i].clone());
        assert(chars::views(out@) =~= chars::views(early).push(v@[i as int]@));
        assert(chars::views(v@).take(i + 1) =~= chars::views(v@).take(i as int).push(
            v@[i as int]@,
        ));
        i += 1;
    }
    assert(chars::views(v@).take(i as int) =~= chars::views(v@));
    out
}

/// Something that an analysis found in a repository.
#[derive(Debug)]
pub struct Finding {
    pub id: String,
    pub finding_type: ContributionType,
    pub severity: Severity,
    pub title: String,
    pub description: String,
    pub file_path: String,
    pub line_start: Option<usize>,
    pub line_end: Option<usize>,
    pub suggestion: Option<String>,
    pub priority_signals: Vec<String>,
}

/// What a [`Finding`] says.
#[verifier::ext_equal]
pub struct FindingView {
    pub id: Seq<char>,
    pub finding_type: ContributionType,
    pub severity: Severity,
    pub title: Seq<char>,
    pub description: Seq<char>,
    pub file_path: Seq<char>,
    pub line_start: Option<usize>,
    pub line_end: Option<usize>,
    pub suggestion: Option<Seq<char>>,
    pub priority_signals: Seq<Seq<char>>,
}

impl View for Finding {
    type V = FindingView;

    open spec fn view(&self) -> FindingView {
        FindingView {
            id: self.id@,
            finding_type: self.finding_type,
            severity: self.severity,
            title: self.title@,
            description: self.description@,
            file_path: self.file_path@,
            line_start: self.line_start,
            line_end: self.line_end,
            suggestion: opt_view(self.suggestion),
            priority_signals: chars::views(self.priority_signals@),
        }
    }
}

impl Clone for Finding {
    fn clone(&self) -> (r: Self)
        ensures
            r@ == self@,
    {
        Finding {
            id: self.id.clone(),
            finding_type: self.finding_type,
            severity: self.severity,
            title: self.title.clone(),
            description: self.description.clone(),
            file_path: self.file_path.clone(),
            line_start: self.line_start,
            line_end: self.line_end,
            suggestion: clone_opt(&self.suggestion),
            priority_signals: clone_texts(&self.priority_signals),
        }
    }
}

/// The paths and contents of a list of files.
pub type Files = Seq<(Seq<char>, Seq<char>)>;

/// No path stands in `files` twice.
pub open spec fn distinct_paths(files: Files) -> bool {
    forall|i: int, j: int|
        0 <= i < j < files.len() ==> (#[trigger] files[i]).0 != (#[trigger] files[j]).0
}

/// The content of the file at `path`.
pub open spec fn lookup(files: Files, path: Seq<char>) -> Option<Seq<char>>
    decreases files.len(),
{
    if files.len() == 0 {
        None
    } else if files[0].0 == path {
        Some(files[0].1)
    } else {
        lookup(files.drop_first(), path)
    }
}

/// `files` with `content` at `path`: in the place of the content that stood
/// there, or at the end.
pub open spec fn with_file(files: Files, path: Seq<char>, content: Seq<char>) -> Files
    decreases files.len(),
{
    if files.len() == 0 {
        seq![(path, content)]
    } else if files[0].0 == path {
        seq![(path, content)] + files.drop_first()
    } else {
        seq![files[0]] + with_file(files.drop_first(), path, content)
    }
}

/// Reading a path after a write gives what was written; every other path reads
/// as before; and a write puts no path in twice.
pub proof fn law_file_read_after_write(
    files: Files,
    path: Seq<char>,
    content: Seq<char>,
    other: Seq<char>,
)
    ensures
        lookup(with_file(files, path, content), path) == Some(content),
        other != path ==> lookup(with_file(files, path, content), other) == lookup(files, other),
        distinct_paths(files) ==> distinct_paths(with_file(files, path, content)),
    decreases files.len(),
{
    let after = with_file(files, path, content);
    if files.len() == 0 {
        assert(lookup(after.drop_first(), other) is None);
    } else {
        let rest = files.drop_first();
        law_file_read_after_write(rest, path, content, other);
        if files[0].0 == path {
            assert(after.drop_first() =~= rest);
            if distinct_paths(files) {
                assert forall|i: int, j: int| 0 <= i < j < after.len() implies (
                #[trigger] after[i]).0 != (#[trigger] after[j]).0 by {
                    assert(after[i].0 == files[i].0);
                    assert(after[j].0 == files[j].0);
                }
            }
        } else {
            let tail = with_file(rest, path, content);
            assert(after.drop_first() =~= tail);
            if distinct_paths(files) {
                assert(distinct_paths(rest)) by {
                    assert forall|i: int, j: int| 0 <= i < j < rest.len() implies (
                    #[trigger] rest[i]).0 != (#[trigger] rest[j]).0 by {
                        assert(rest[i] == files[i + 1]);
                        assert(rest[j] == files[j + 1]);
                    }
                }
                assert forall|i: int, j: int| 0 <= i < j < after.len() implies (
                #[trigger] after[i]).0 != (#[trigger] after[j]).0 by {
                    assert(after[j] == tail[j - 1]);
                    if i == 0 {
                        lemma_with_file_paths(rest, path, content, j - 1);
                        if tail[j - 1].0 != path {
                            let k = choose|k: int|
                                0 <= k < rest.len() && (#[trigger] rest[k]).0 == tail[j - 1].0;
                            assert(rest[k] == files[k + 1]);
                            assert(files[0].0 != files[k + 1].0);
                        }
                    } else {
                        assert(after[i] == tail[i - 1]);
                    }
                }
            }
        }
    }
}

/// A file at a new path stands at the end.
pub proof fn lemma_with_new_file(files: Files, path: Seq<char>, content: Seq<char>)
    requires
        forall|i: int| 0 <= i < files.len() ==> (#[trigger] files[i]).0 != path,
    ensures
        with_file(files, path, content) == files.push((path, content)),
    decreases files.len(),
{
    if files.len() > 0 {
        let rest = files.drop_first();
        assert forall|i: int| 0 <= i < rest.len() implies (#[trigger] rest[i]).0 != path by {
            assert(rest[i] == files[i + 1]);
        }
        lemma_with_new_file(rest, path, content);
        assert(seq![files[0]] + rest.push((path, content)) =~= files.push((path, content)));
    } else {
        assert(files.push((path, content)) =~= seq![(path, content)]);
    }
}

/// A write to a path that is there changes the content in its place; a write to
/// a new path puts the file at the end. The other files stay where they are.
pub proof fn law_files_keep_their_order(
    before: Files,
    path: Seq<char>,
    earlier: Seq<char>,
    after: Files,
    content: Seq<char>,
)
    requires
        forall|i: int| 0 <= i < before.len() ==> (#[trigger] before[i]).0 != path,
    ensures
        with_file(before + seq![(path, earlier)] + after, path, content) == before + seq![
            (path, content),
        ] + after,
        with_file(before, path, content) == before + seq![(path, content)],
    decreases before.len(),
{
    let all = before + seq![(path, earlier)] + after;
    lemma_with_new_file(before, path, content);
    assert(before.push((path, content)) =~= before + seq![(path, content)]);
    if before.len() == 0 {
        assert(all[0] == (path, earlier));
        assert(all.drop_first() =~= after);
        assert(before + seq![(path, content)] + after =~= seq![(path, content)] + after);
    } else {
        let rest = before.drop_first();
        assert forall|i: int| 0 <= i < rest.len() implies (#[trigger] rest[i]).0 != path by {
            assert(rest[i] == before[i + 1]);
        }
        law_files_keep_their_order(rest, path, earlier, after, content);
        assert(all[0] == before[0]);
        assert(all.drop_first() =~= rest + seq![(path, earlier)] + after);
        assert(seq![before[0]] + (rest + seq![(path, content)] + after) =~= before + seq![
            (path, content),
        ] + after);
    }
}

/// Each path after a write is the written one or stood there before.
proof fn lemma_with_file_paths(files: Files, path: Seq<char>, content: Seq<char>, i: int)
    requires
        0 <= i < with_file(files, path, content).len(),
    ensures
        with_file(files, path, content)[i].0 == path || exists|k: int|
            0 <= k < files.len() && (#[trigger] files[k]).0 == with_file(files, path, content)[i].0,
    decreases files.len(),
{
    if files.len() > 0 {
        let after = with_file(files, path, content);
        let rest = files.drop_first();
        if files[0].0 == path {
            assert(i > 0 ==> after[i] == files[i]);
        } else if i == 0 {
            assert(files[0].0 == after[0].0);
        } else {
            let tail = with_file(rest, path, content);
            assert(after[i] == tail[i - 1]);
            lemma_with_file_paths(rest, path, content, i - 1);
            if tail[i - 1].0 != path {
                let k = choose|k: int|
                    0 <= k < rest.len() && (#[trigger] rest[k]).0 == tail[i - 1].0;
                assert(files[k + 1].0 == after[i].0);
            }
        }
    }
}

/// Files by their paths, each path once, in the order in which they came.
#[derive(Debug)]
pub struct FileMap {
    entries: Vec<(String, String)>,
}

impl View for FileMap {
    type V = Files;

    closed spec fn view(&self) -> Files {
        self.entries@.map_values(|e: (String, String)| (e.0@, e.1@))
    }
}

impl FileMap {
    /// No path stands in the map twice.
    pub open spec fn wf(&self) -> bool {
        distinct_paths(self@)
    }

    /// A map without files.
    pub fn new() -> (r: Self)
        ensures
            r@ == Files::empty(),
            r.wf(),
    {
        let r = FileMap { entries: Vec::new() };
        assert(r@ =~= Files::empty());
        r
    }

    /// How many files there are.
    pub fn len(&self) -> (r: usize)
        ensures
            r == self@.len(),
    {
        self.entries.len()
    }

    /// Whether there is no file.
    pub fn is_empty(&self) -> (r: bool)
        ensures
            r == (self@.len() == 0),
    {
        self.entries.len() == 0
    }

    /// The path of the file at position `i`.
    pub fn path(&self, i: usize) -> (r: &String)
        requires
            i < self@.len(),
        ensures
            r@ == self@[i as int].0,
    {
        &self.entries[i].0
    }

    /// The content of the file at position `i`.
    pub fn content(&self, i: usize) -> (r: &String)
        requires
            i < self@.len(),
        ensures
            r@ == self@[i as int].1,
    {
        &self.entries[i].1
    }

    /// Puts `content` at `path`.
    pub fn insert(&mut self, path: String, content: String)
        ensures
            final(self)@ == with_file(old(self)@, path@, content@),
            old(self).wf() ==> final(self).wf(),
    {
        proof {
            law_file_read_after_write(self@, path@, content@, path@);
        }
        let mut i: usize = 0;
        let ghost before = self@;
        assert(before.take(0) + with_file(before.skip(0), path@, content@) =~= with_file(
            before,
            path@,
            content@,
        )) by {
            assert(before.skip(0) =~= before);
        }
        while i < self.entries.len()
            invariant
                before == self@,
                before == old(self)@,
                i <= before.len(),
                with_file(before, path@, content@) == before.take(i as int) + with_file(
                    before.skip(i as int),
                    path@,
                    content@,
                ),
                distinct_paths(before) ==> distinct_paths(with_file(before, path@, content@)),
            decreases self.entries.len() - i,
        {
            let ghost rest = before.skip(i as int);
            assert(rest.drop_first() =~= before.skip(i + 1));
            assert(rest[0] == before[i as int]);
            if self.entries[i].0 == path {
                self.entries.set(i, (path, content));
                assert(self@ =~= with_file(before, path@, content@));
                return;
            }
            assert(before.take(i as int) + (seq![rest[0]] + with_file(
                before.skip(i + 1),
                path@,
                content@,
            )) =~= before.take(i + 1) + with_file(before.skip(i + 1), path@, content@));
            i += 1;
        }
        assert(before.skip(i as int) =~= Files::empty());
        self.entries.push((path, content));
        assert(self@ =~= with_file(before, path@, content@));
    }

    /// The content of the file at `path`.
    pub fn get(&self, path: &str) -> (r: Option<&String>)
        ensures
            lookup(self@, path@) == (match r {
                Some(content) => Some(content@),
                None => None,
            }),
    {
        let key = path.to_owned();
        let mut i: usize = 0;
        assert(self@.skip(0) =~= self@);
        while i < self.entries.len()
            invariant
                key@ == path@,
                i <= self@.len(),
                self@.len() == self.entries@.len(),
                lookup(self@, path@) == lookup(self@.skip(i as int), path@),
            decreases self.entries.len() - i,
        {
            assert(self@.skip(i as int).drop_first() =~= self@.skip(i + 1));
            assert(self@.skip(i as int)[0] == self@[i as int]);
            if self.entries[i].0 == key {
                return Some(&self.entries[i].1);
            }
            i += 1;
        }
        None
    }

    /// Whether there is a file at `path`.
    pub fn contains_key(&self, path: &str) -> (r: bool)
        ensures
            r == lookup(self@, path@) is Some,
    {
        self.get(path).is_some()
    }
}

/// What the generator reads of a repository.
#[derive(Debug)]
pub struct Repository {
    pub full_name: String,
    pub language: Option<String>,
}

/// What the generator reads of a repository's files and style.
#[derive(Debug)]
pub struct RepoContext {
    pub repo: Repository,
    pub relevant_files: FileMap,
    pub coding_style: Option<String>,
}

/// The new content of one file.
#[derive(Debug)]
pub struct FileChange {
    pub path: String,
    pub original_content: Option<String>,
    pub new_content: String,
    pub is_new_file: bool,
    pub is_deleted: bool,
}

/// What a [`FileChange`] says.
#[verifier::ext_equal]
pub struct ChangeView {
    pub path: Seq<char>,
    pub original_content: Option<Seq<char>>,
    pub new_content: Seq<char>,
    pub is_new_file: bool,
    pub is_deleted: bool,
}

impl View for FileChange {
    type V = ChangeView;

    open spec fn view(&self) -> ChangeView {
        ChangeView {
            path: self.path@,
            original_content: opt_view(self.original_content),
            new_content: self.new_content@,
            is_new_file: self.is_new_file,
            is_deleted: self.is_deleted,
        }
    }
}

/// What each change of a list says.
pub open spec fn change_views(v: Seq<FileChange>) -> Seq<ChangeView> {
    v.map_values(|c: FileChange| c@)
}

/// A point in time: seconds since 1970-01-01 00:00 UTC, and nanoseconds.
#[derive(Clone, Copy, PartialEq, Eq, Structural, Debug)]
pub struct Timestamp {
    pub seconds: i64,
    pub nanos: u32,
}

/// A change set with everything that a pull request needs.
#[derive(Debug)]
pub struct Contribution {
    pub finding: Finding,
    pub contribution_type: ContributionType,
    pub title: String,
    pub description: String,
    pub changes: Vec<FileChange>,
    pub commit_message: String,
    pub tests_added: Vec<String>,
    pub branch_name: String,
    pub generated_at: Timestamp,
}

/// What a [`Contribution`] says.
#[verifier::ext_equal]
pub struct ContributionView {
    pub finding: FindingView,
    pub contribution_type: ContributionType,
    pub title: Seq<char>,
    pub description: Seq<char>,
    pub changes: Seq<ChangeView>,
    pub commit_message: Seq<char>,
    pub tests_added: Seq<Seq<char>>,
    pub branch_name: Seq<char>,
    pub generated_at: Timestamp,
}

impl View for Contribution {
    type V = ContributionView;

    open spec fn view(&self) -> ContributionView {
        ContributionView {
            finding: self.finding@,
            contribution_type: self.contribution_type,
            title: self.title@,
            description: self.description@,
            changes: change_views(self.changes@),
            commit_message: self.commit_message@,
            tests_added: chars::views(self.tests_added@),
            branch_name: self.branch_name@,
            generated_at: self.generated_at,
        }
    }
}

/// The limits that contributions are held to.
#[derive(Debug)]
pub struct ContributionConfig {
    /// How many files one pull request may change.
    pub max_changes_per_pr: usize,
}

} // verus!
