use contribai::generator::ContributionGenerator;
use contribai::models::{
    Contribution, ContributionConfig, ContributionType, FileChange, FileMap, Finding, RepoContext,
    Repository, Severity, Timestamp,
};
use contribai::review::{has_approval, unified_diff};

const CONFIG: ContributionConfig = ContributionConfig { max_changes_per_pr: 5 };

const QUESTIONS: &str = "\nAnswer these questions:\n\
             1. Does the change address the described issue?\n\
             2. Does it introduce any obvious new bugs or security vulnerabilities?\n\
             3. Is the change reasonable and follows existing code style?\n\n\
             IMPORTANT: Be lenient. APPROVE if the change is a net improvement, \
             even if minor improvements could be made. Only REJECT if the change \
             is clearly wrong, introduces a bug, or is completely unrelated to the issue.\n\n\
             Reply with APPROVE or REJECT followed by brief reasoning.";

fn generator() -> ContributionGenerator<'static> {
    ContributionGenerator::new(&CONFIG)
}

fn change(path: &str, new_content: &str, is_new_file: bool) -> FileChange {
    FileChange {
        path: path.into(),
        original_content: None,
        new_content: new_content.into(),
        is_new_file,
        is_deleted: false,
    }
}

fn contribution(finding_type: ContributionType, changes: Vec<FileChange>) -> Contribution {
    Contribution {
        finding: Finding {
            id: "test".into(),
            finding_type,
            severity: Severity::Low,
            title: "t".into(),
            description: "Describe".into(),
            file_path: "a".into(),
            line_start: None,
            line_end: None,
            suggestion: None,
            priority_signals: vec![],
        },
        contribution_type: finding_type,
        title: "Title".into(),
        description: "Describe".into(),
        changes,
        commit_message: String::new(),
        tests_added: vec![],
        branch_name: String::new(),
        generated_at: Timestamp { seconds: 0, nanos: 0 },
    }
}

fn context(entries: &[(&str, &str)]) -> RepoContext {
    let mut map = FileMap::new();
    for (path, content) in entries {
        map.insert(path.to_string(), content.to_string());
    }
    RepoContext {
        repo: Repository { full_name: "owner/repo".into(), language: None },
        relevant_files: map,
        coding_style: None,
    }
}

#[test]
fn diff_lists_removed_and_added_lines() {
    assert_eq!(
        unified_diff("a\nb\nc\n", "a\nx\nc\ny", "p.py"),
        "--- a/p.py\n+++ b/p.py\n-b\n+x\n+y\n"
    );
}

#[test]
fn diff_of_equal_texts_is_a_header() {
    assert_eq!(unified_diff("a\nb", "a\nb", "p"), "--- a/p\n+++ b/p\n");
    // Only the lines count, not how often or in which order they stand there.
    assert_eq!(unified_diff("a\nb", "b\na\na\r\n", "p"), "--- a/p\n+++ b/p\n");
    assert_eq!(unified_diff("", "", "p"), "--- a/p\n+++ b/p\n");
}

#[test]
fn review_prompt_is_exact() {
    let c = contribution(
        ContributionType::SecurityFix,
        vec![change("a", "1\n3\n", false), change("n", "new text", true), change("u", "z", false)],
    );
    let prompt = generator().build_review_prompt(&c, &context(&[("a", "1\n2\n"), ("n", "old")]));
    assert_eq!(
        prompt.unwrap(),
        format!(
            "Review the following code contribution for quality:\n\n**Title**: Title\n\
             **Type**: SecurityFix\n**Finding**: Describe\n**Changes**:\n\
             - a (modified)\n- n (new)\n- u (modified)\n\n\nFor each changed file:\n\
             \n### a (diff)\n```diff\n--- a/a\n+++ b/a\n-2\n+3\n\n```\n\
             \n### n\n```\nnew text\n```\n\
             \n### u\n```\nz\n```\n{}",
            QUESTIONS
        )
    );
}

#[test]
fn five_changes_are_shown() {
    let changes: Vec<FileChange> =
        (0..7).map(|i| change(&format!("f{}", i), "content", true)).collect();
    let c = contribution(ContributionType::Refactor, changes);
    let prompt = generator().build_review_prompt(&c, &context(&[])).unwrap();
    assert!(prompt.contains("- f6 (new)\n"));
    assert!(prompt.contains("### f4\n"));
    assert!(!prompt.contains("### f5\n"));
}

#[test]
fn shown_changes_are_cut() {
    let c = contribution(ContributionType::Refactor, vec![change("f", &"w".repeat(5000), true)]);
    let prompt = generator().build_review_prompt(&c, &context(&[])).unwrap();
    assert!(prompt.contains(&format!("```\n{}\n```", "w".repeat(4000))));
    assert!(!prompt.contains(&"w".repeat(4001)));
    let wide = format!("{}\u{e9}", "w".repeat(3999));
    let c = contribution(ContributionType::Refactor, vec![change("f", &wide, true)]);
    assert!(generator().build_review_prompt(&c, &context(&[])).is_none());
}

#[test]
fn kinds_have_names() {
    let kinds = [
        ContributionType::SecurityFix,
        ContributionType::CodeQuality,
        ContributionType::DocsImprove,
        ContributionType::UiUxFix,
        ContributionType::PerformanceOpt,
        ContributionType::FeatureAdd,
        ContributionType::Refactor,
    ];
    for kind in kinds {
        assert_eq!(kind.name(), format!("{:?}", kind));
    }
}

#[test]
fn approval_is_a_matter_of_one_word() {
    assert!(ContributionGenerator::review_approves("APPROVE"));
    assert!(ContributionGenerator::review_approves("I would approve this."));
    assert!(ContributionGenerator::review_approves("Approved \u{2713} stra\u{df}e"));
    assert!(!ContributionGenerator::review_approves("REJECT: wrong"));
    assert!(!ContributionGenerator::review_approves("\u{e9} non"));
    assert!(!ContributionGenerator::review_approves(""));
    assert!(has_approval("APPROVED"));
    assert!(!has_approval("approved"));
}
