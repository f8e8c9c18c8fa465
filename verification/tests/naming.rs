use contribai::generator::ContributionGenerator;
use contribai::guidelines::{adapt_pr_title, extract_scope_from_path, RepoGuidelines};
use contribai::models::{ContributionConfig, ContributionType, FileChange, Finding, Severity};
use contribai::naming::{compose_commit_message, make_slug};

const CONFIG: ContributionConfig = ContributionConfig { max_changes_per_pr: 5 };

fn mock_gen() -> ContributionGenerator<'static> {
    ContributionGenerator::new(&CONFIG).without_self_review()
}

fn test_finding() -> Finding {
    Finding {
        id: "test".into(),
        finding_type: ContributionType::SecurityFix,
        severity: Severity::High,
        title: "SQL injection in user query".into(),
        description: "User input not sanitized".into(),
        file_path: "src/db/queries.py".into(),
        line_start: Some(42),
        line_end: Some(45),
        suggestion: Some("Use parameterized queries".into()),
        priority_signals: vec![],
    }
}

fn titled(title: &str) -> Finding {
    Finding { title: title.into(), ..test_finding() }
}

fn kind(finding_type: ContributionType) -> Finding {
    Finding { finding_type, title: "T".into(), ..test_finding() }
}

fn change(path: &str) -> FileChange {
    FileChange {
        path: path.into(),
        original_content: None,
        new_content: "fixed".into(),
        is_new_file: false,
        is_deleted: false,
    }
}

const KINDS: [ContributionType; 7] = [
    ContributionType::SecurityFix,
    ContributionType::CodeQuality,
    ContributionType::DocsImprove,
    ContributionType::UiUxFix,
    ContributionType::PerformanceOpt,
    ContributionType::FeatureAdd,
    ContributionType::Refactor,
];

#[test]
fn test_generate_branch_name() {
    let f = test_finding();
    let branch = ContributionGenerator::generate_branch_name(&f);
    assert!(branch.starts_with("contribai/fix/security/"));
    assert!(branch.contains("sql-injection"));
}

#[test]
fn test_generate_pr_title() {
    let f = test_finding();
    let title = ContributionGenerator::generate_pr_title(&f);
    assert!(title.starts_with("Security: "));
}

#[test]
fn test_generate_pr_title_with_conventional_guidelines() {
    let g = RepoGuidelines {
        uses_conventional_commits: true,
        contributing_md: "uses conventional commits".into(),
        pr_template: "## Description".into(),
        ..Default::default()
    };
    let f = test_finding();
    let title = ContributionGenerator::generate_pr_title_with_guidelines(&f, Some(&g));
    // Conventional commits format: "fix: sql injection in user query"
    assert!(title.starts_with("fix:") || title.contains("sql injection"));
}

#[test]
fn test_generate_commit_message() {
    let gen = mock_gen();
    let f = test_finding();
    let changes = vec![FileChange {
        path: "src/db/queries.py".into(),
        original_content: None,
        new_content: "fixed".into(),
        is_new_file: false,
        is_deleted: false,
    }];
    let msg = gen.generate_commit_message(&f, &changes);
    // Should contain "fix(security)" and scope "(db)"
    assert!(msg.contains("fix(security)"));
    assert!(msg.contains("(db)"));
}

#[test]
fn branch_name_is_exact() {
    assert_eq!(
        ContributionGenerator::generate_branch_name(&test_finding()),
        "contribai/fix/security/sql-injection-in-user-query"
    );
}

#[test]
fn branch_names_of_all_kinds() {
    let names: Vec<String> =
        KINDS.iter().map(|k| ContributionGenerator::generate_branch_name(&kind(*k))).collect();
    assert_eq!(
        names,
        vec![
            "contribai/fix/security/t",
            "contribai/improve/quality/t",
            "contribai/docs/t",
            "contribai/fix/ui/t",
            "contribai/perf/t",
            "contribai/feat/t",
            "contribai/refactor/t"
        ]
    );
}

#[test]
fn slugs_hold_letters_digits_and_single_dashes() {
    assert_eq!(make_slug("--  a  b!!c9 --"), "a-b-c9");
    assert_eq!(make_slug("caf\u{e9} au lait"), "caf-au-lait");
    assert_eq!(make_slug("???"), "");
    assert_eq!(make_slug("ABC"), "");
    assert_eq!(make_slug("already-a-slug-2"), "already-a-slug-2");
}

#[test]
fn slugs_are_cut_at_forty_characters() {
    let title = "0123456789 123456789 123456789 12345678 x tail";
    assert_eq!(make_slug(title), "0123456789-123456789-123456789-12345678-");
}

#[test]
fn upper_case_outside_ascii_is_lowered_for_branches() {
    assert_eq!(
        ContributionGenerator::generate_branch_name(&titled("\u{c9}A \u{212a}B")),
        "contribai/fix/security/a-kb"
    );
}

#[test]
fn titles_of_all_kinds() {
    let titles: Vec<String> =
        KINDS.iter().map(|k| ContributionGenerator::generate_pr_title(&kind(*k))).collect();
    assert_eq!(
        titles,
        vec![
            "Security: T",
            "Quality: T",
            "Docs: T",
            "UI/UX: T",
            "Performance: T",
            "Feature: T",
            "Refactor: T"
        ]
    );
}

#[test]
fn guidelines_decide_on_the_title() {
    let f = test_finding();
    let with = |g: &RepoGuidelines| {
        ContributionGenerator::generate_pr_title_with_guidelines(&f, Some(g))
    };
    let mut g = RepoGuidelines { uses_conventional_commits: true, ..Default::default() };
    assert!(!g.has_guidelines());
    assert_eq!(with(&g), "Security: SQL injection in user query");
    g.contributing_md = "guide".into();
    assert!(g.has_guidelines());
    assert_eq!(with(&g), "fix: sql injection in user query");
    g.scopes = vec!["api".into(), "db".into()];
    assert_eq!(with(&g), "fix(db): sql injection in user query");
    g.uses_conventional_commits = false;
    assert_eq!(with(&g), "SQL injection in user query");
}

#[test]
fn conventional_types_of_all_kinds() {
    let g = RepoGuidelines {
        pr_template: "t".into(),
        uses_conventional_commits: true,
        ..Default::default()
    };
    let titles: Vec<String> = KINDS
        .iter()
        .map(|k| ContributionGenerator::generate_pr_title_with_guidelines(&kind(*k), Some(&g)))
        .collect();
    assert_eq!(
        titles,
        vec!["fix: t", "refactor: t", "docs: t", "fix: t", "perf: t", "feat: t", "refactor: t"]
    );
    assert_eq!(adapt_pr_title("T", "unknown", &g, ""), "chore: t");
}

#[test]
fn scope_is_a_segment_of_the_path() {
    let g = RepoGuidelines { scopes: vec!["src".into(), "db".into()], ..Default::default() };
    assert_eq!(extract_scope_from_path("src/db/x.py", &g), "src");
    assert_eq!(extract_scope_from_path("lib/db/x.py", &g), "db");
    assert_eq!(extract_scope_from_path("lib/dbs/x.py", &g), "");
}

#[test]
fn commit_message_is_exact() {
    let f = test_finding();
    let changes = [change("src/db/queries.py"), change("b.py"), change("x/y/c.py"), change("d.py")];
    assert_eq!(
        mock_gen().generate_commit_message(&f, &changes),
        "fix(security)(db): sql injection in user query\n\nUser input not sanitized\n\nAffected files: queries.py, b.py, c.py"
    );
}

#[test]
fn scope_needs_a_project_directory() {
    let f = kind(ContributionType::DocsImprove);
    let subject = |path: &str| {
        let message = mock_gen().generate_commit_message(&f, &[change(path)]);
        message.split('\n').next().unwrap().to_string()
    };
    assert_eq!(subject("docs/a.md"), "docs: t");
    assert_eq!(subject("src"), "docs: t");
    assert_eq!(subject("packages/core/a.ts"), "docs(core): t");
    assert_eq!(subject("apps/web/a.ts"), "docs(web): t");
    assert_eq!(subject("libs/a.ts"), "docs(a.ts): t");
}

#[test]
fn commit_message_without_changes() {
    let f = kind(ContributionType::UiUxFix);
    assert_eq!(
        mock_gen().generate_commit_message(&f, &[]),
        "fix(ui): t\n\nUser input not sanitized\n\nAffected files: "
    );
}

#[test]
fn commit_prefixes_of_all_kinds() {
    let prefixes: Vec<&str> = KINDS.iter().map(|k| k.commit_prefix()).collect();
    assert_eq!(
        prefixes,
        vec!["fix(security)", "refactor", "docs", "fix(ui)", "perf", "feat", "refactor"]
    );
}

#[test]
fn long_titles_are_cut_at_fifty_bytes() {
    let title = "X".repeat(60);
    let message = mock_gen().generate_commit_message(&titled(&title), &[]);
    assert!(message.starts_with(&format!("fix(security): {}\n", "x".repeat(50))));
    let wide = format!("{}\u{e9}tail", "x".repeat(48));
    assert!(compose_commit_message(&test_finding(), &wide, &[])
        .starts_with(&format!("fix(security): {}\u{e9}\n", "x".repeat(48))));
}

#[test]
fn titles_cut_inside_a_character_are_refused() {
    let title = format!("{}\u{e9}", "x".repeat(49));
    assert_eq!(mock_gen().try_commit_message(&titled(&title), &[]), None);
    assert_eq!(
        mock_gen().try_commit_message(&titled("ok"), &[]),
        Some("fix(security): ok\n\nUser input not sanitized\n\nAffected files: ".to_string())
    );
}
