//! What a repository asks of pull requests.

use vstd::prelude::*;
use crate::case::{lower, to_lower};
use crate::chars;
use crate::text;

verus! {

/// The guidelines of a repository.
#[derive(Debug)]
pub struct RepoGuidelines {
    /// What the contributing guide says.
    pub contributing_md: String,
    /// The template for pull requests.
    pub pr_template: String,
    /// Whether titles follow the conventional commit format.
    pub uses_conventional_commits: bool,
    /// The scopes that titles may name.
    pub scopes: Vec<String>,
}

impl Default for RepoGuidelines {
    fn default() -> (r: Self)
        ensures
            r.contributing_md@ == Seq::<char>::empty(),
            r.pr_template@ == Seq::<char>::empty(),
            !r.uses_conventional_commits,
            r.scopes@ == Seq::<String>::empty(),
    {
        RepoGuidelines {
            contributing_md: String::new(),
            pr_template: String::new(),
            uses_conventional_commits: false,
            scopes: Vec::new(),
        }
    }
}

impl RepoGuidelines {
    /// The repository has a contributing guide or a template.
    pub open spec fn has_any(&self) -> bool {
        self.contributing_md@.len() > 0 || self.pr_template@.len() > 0
    }

    /// Whether the repository has a contributing guide or a template.
    pub fn has_guidelines(&self) -> (r: bool)
        ensures
            r == self.has_any(),
    {
        !self.contributing_md.as_str().is_empty() || !self.pr_template.as_str().is_empty()
    }
}

/// The first of the scopes that is a segment of the path, or nothing.
pub open spec fn scope_in(path: Seq<char>, scopes: Seq<Seq<char>>) -> Seq<char>
    decreases scopes.len(),
{
    if scopes.len() == 0 {
        Seq::empty()
    } else if chars::split(path, '/').contains(scopes[0]) {
        scopes[0]
    } else {
        scope_in(path, scopes.drop_first())
    }
}

/// The conventional commit type for a kind of contribution.
pub open spec fn conventional_type(kind: Seq<char>) -> Seq<char> {
    if kind == "security_fix"@ || kind == "ui_ux_fix"@ {
        "fix"@
    } else if kind == "code_quality"@ || kind == "refactor"@ {
        "refactor"@
    } else if kind == "docs_improve"@ {
        "docs"@
    } else if kind == "performance_opt"@ {
        "perf"@
    } else if kind == "feature_add"@ {
        "feat"@
    } else {
        "chore"@
    }
}

/// The title as the guidelines want it: in conventional commit format where
/// they ask for it, else as it is.
pub open spec fn adapted_title(
    title: Seq<char>,
    kind: Seq<char>,
    conventional: bool,
    scope: Seq<char>,
) -> Seq<char> {
    if !conventional {
        title
    } else if scope.len() == 0 {
        conventional_type(kind) + ": "@ + lower(title)
    } else {
        conventional_type(kind) + "("@ + scope + ")"@ + ": "@ + lower(title)
    }
}

/// The conventional commit types.
pub proof fn law_conventional_types()
    ensures
        conventional_type("security_fix"@) == "fix"@,
        conventional_type("ui_ux_fix"@) == "fix"@,
        conventional_type("code_quality"@) == "refactor"@,
        conventional_type("refactor"@) == "refactor"@,
        conventional_type("docs_improve"@) == "docs"@,
        conventional_type("performance_opt"@) == "perf"@,
        conventional_type("feature_add"@) == "feat"@,
{
    reveal_strlit("security_fix");
    reveal_strlit("ui_ux_fix");
    reveal_strlit("code_quality");
    reveal_strlit("refactor");
    reveal_strlit("docs_improve");
    reveal_strlit("performance_opt");
    reveal_strlit("feature_add");
    assert("code_quality"@[0] == 'c' && "docs_improve"@[0] == 'd' && "security_fix"@[0] == 's');
    assert("performance_opt"@[0] == 'p' && "feature_add"@[0] == 'f' && "refactor"@[0] == 'r'
        && "ui_ux_fix"@[0] == 'u');
}

/// The first scope that is a segment of the path is taken, and none where none
/// is.
pub proof fn law_scope_of_path(
    path: Seq<char>,
    scope: Seq<char>,
    scopes: Seq<Seq<char>>,
)
    ensures
        scope_in(path, seq![scope] + scopes) == (if chars::split(path, '/').contains(scope) {
            scope
        } else {
            scope_in(path, scopes)
        }),
        scope_in(path, Seq::empty()) == Seq::<char>::empty(),
{
    assert((seq![scope] + scopes).drop_first() =~= scopes);
}

/// Whether `word` is one of the texts.
fn is_among(texts: &[String], word: &str) -> (r: bool)
    ensures
        r == chars::views(texts@).contains(word@),
{
    let ghost all = chars::views(texts@);
    let mut i: usize = 0;
    while i < texts.len()
        invariant
            i <= texts@.len(),
            all == chars::views(texts@),
            forall|k: int| 0 <= k < i ==> #[trigger] all[k] != word@,
        decreases texts.len() - i,
    {
        assert(all[i as int] == texts@[i as int]@);
        if text::same(texts[i].as_str(), word) {
            return true;
        }
        i += 1;
    }
    false
}

/// The scope that a title names for a change of the file at `path`: the first
/// scope of the guidelines that is a segment of the path, or nothing.
pub fn extract_scope_from_path(path: &str, guidelines: &RepoGuidelines) -> (r: String)
    ensures
        r@ == scope_in(path@, chars::views(guidelines.scopes@)),
{
    let ghost all = chars::views(guidelines.scopes@);
    let segments = text::split(path, '/');
    let mut i: usize = 0;
    assert(all.skip(0) =~= all);
    while i < guidelines.scopes.len()
        invariant
            i <= guidelines.scopes@.len(),
            all == chars::views(guidelines.scopes@),
            chars::views(segments@) == chars::split(path@, '/'),
            scope_in(path@, all) == scope_in(path@, all.skip(i as int)),
        decreases guidelines.scopes.len() - i,
    {
        assert(all.skip(i as int).drop_first() =~= all.skip(i + 1));
        assert(all.skip(i as int)[0] == guidelines.scopes@[i as int]@);
        if is_among(segments.as_slice(), guidelines.scopes[i].as_str()) {
            return guidelines.scopes[i].clone();
        }
        i += 1;
    }
    String::new()
}

/// The conventional commit type for a kind of contribution.
fn commit_type(kind: &str) -> (r: &'static str)
    ensures
        r@ == conventional_type(kind@),
{
    if text::same(kind, "security_fix") || text::same(kind, "ui_ux_fix") {
        "fix"
    } else if text::same(kind, "code_quality") || text::same(kind, "refactor") {
        "refactor"
    } else if text::same(kind, "docs_improve") {
        "docs"
    } else if text::same(kind, "performance_opt") {
        "perf"
    } else if text::same(kind, "feature_add") {
        "feat"
    } else {
        "chore"
    }
}

/// The title as the guidelines want it.
pub fn adapt_pr_title(title: &str, kind: &str, guidelines: &RepoGuidelines, scope: &str) -> (r:
    String)
    ensures
        r@ == adapted_title(title@, kind@, guidelines.uses_conventional_commits, scope@),
{
    if !guidelines.uses_conventional_commits {
        return title.to_owned();
    }
    let mut out = commit_type(kind).to_owned();
    if !scope.is_empty() {
        out.append("(");
        out.append(scope);
        out.append(")");
    }
    out.append(": ");
    out.append(to_lower(title).as_str());
    out
}

} // verus!
