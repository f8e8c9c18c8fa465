use contribai::generator::ContributionGenerator;
use contribai::guidelines::RepoGuidelines;
use contribai::models::{
    ContributionConfig, ContributionType, FileMap, Finding, RepoContext, Repository, Severity,
    Timestamp,
};
use contribai::pipeline::{Action, Event, LlmRequest, Progress};

const CONFIG: ContributionConfig = ContributionConfig { max_changes_per_pr: 5 };

const NOW: Timestamp = Timestamp { seconds: 1_700_000_000, nanos: 5 };

const GOOD: &str =
    r#"{"changes": [{"path": "src/db/q.py", "edits": [{"search": "x = 1", "replace": "x = 2"}]}]}"#;

fn finding() -> Finding {
    Finding {
        id: "id".into(),
        finding_type: ContributionType::SecurityFix,
        severity: Severity::High,
        title: "SQL injection".into(),
        description: "User input".into(),
        file_path: "src/db/q.py".into(),
        line_start: Some(1),
        line_end: None,
        suggestion: None,
        priority_signals: vec!["hot".into()],
    }
}

fn context() -> RepoContext {
    let mut map = FileMap::new();
    map.insert("src/db/q.py".to_string(), "x = 1\n".to_string());
    RepoContext {
        repo: Repository { full_name: "owner/repo".into(), language: Some("Python".into()) },
        relevant_files: map,
        coding_style: None,
    }
}

fn request(action: Action) -> LlmRequest {
    match action {
        Action::Complete(request) => request,
        other => panic!("no request: {:?}", other),
    }
}

fn step(gen: &ContributionGenerator, progress: Progress, event: Event) -> (Progress, Action) {
    gen.step_at(&finding(), &context(), None, progress, event, NOW)
}

fn reply(text: &str) -> Event {
    Event::Reply(text.to_string())
}

#[test]
fn run_begins_with_a_request_for_changes() {
    let gen = ContributionGenerator::new(&CONFIG);
    let (progress, action) = step(&gen, Progress::Fresh, Event::Start);
    let asked = request(action);
    assert_eq!(asked.prompt, gen.build_generation_prompt(&finding(), &context()));
    assert_eq!(asked.system, Some(gen.build_system_prompt(&context())));
    assert_eq!(asked.temperature_tenths, 2);
    assert!(matches!(progress, Progress::Drafting { retried: false, .. }));
}

#[test]
fn sound_reply_ends_an_unreviewed_run() {
    let gen = ContributionGenerator::new(&CONFIG).without_self_review();
    let (progress, _) = step(&gen, Progress::Fresh, Event::Start);
    let (progress, action) = step(&gen, progress, reply(GOOD));
    assert!(matches!(progress, Progress::Finished));
    let c = match action {
        Action::Return(Some(c)) => c,
        other => panic!("no contribution: {:?}", other),
    };
    assert_eq!(c.title, "Security: SQL injection");
    assert_eq!(c.description, "User input");
    assert_eq!(c.branch_name, "contribai/fix/security/sql-injection");
    assert_eq!(
        c.commit_message,
        "fix(security)(db): sql injection\n\nUser input\n\nAffected files: q.py"
    );
    assert_eq!(c.changes.len(), 1);
    assert_eq!(c.changes[0].new_content, "x = 2\n");
    assert_eq!(c.contribution_type, ContributionType::SecurityFix);
    assert!(c.tests_added.is_empty());
    assert_eq!(c.generated_at, NOW);
    assert_eq!(c.finding.id, "id");
    assert_eq!(c.finding.priority_signals, vec!["hot".to_string()]);
    assert_eq!(c.finding.line_start, Some(1));
}

#[test]
fn unreadable_reply_is_asked_for_again_once() {
    let gen = ContributionGenerator::new(&CONFIG);
    let (progress, action) = step(&gen, Progress::Fresh, Event::Start);
    let first = request(action);
    let (progress, action) = step(&gen, progress, reply("no json"));
    let second = request(action);
    assert_eq!(
        second.prompt,
        format!(
            "{}\n\n## IMPORTANT: Your previous attempt failed.\n\
             Error: No valid changes could be parsed from JSON output\n\
             Please fix the issue and return ONLY valid JSON \
             with no markdown fences or extra text.",
            first.prompt
        )
    );
    assert_eq!(second.system, first.system);
    assert_eq!(second.temperature_tenths, 2);
    let (progress, action) = step(&gen, progress, reply("still no json"));
    assert!(matches!(progress, Progress::Finished));
    assert!(matches!(action, Action::Return(None)));
}

#[test]
fn unsound_reply_is_asked_for_again() {
    let gen = ContributionGenerator::new(&CONFIG);
    let (progress, _) = step(&gen, Progress::Fresh, Event::Start);
    let noop = GOOD.replace("x = 2", "x = 1");
    let (progress, action) = step(&gen, progress, reply(&noop));
    assert!(request(action).prompt.contains(
        "Error: Generated code failed syntax validation (unbalanced brackets or empty edits)\n"
    ));
    let (progress, action) = step(&gen, progress, reply(GOOD));
    assert!(matches!(progress, Progress::Reviewing { .. }));
    assert_eq!(request(action).system, None);
}

fn reviewing(gen: &ContributionGenerator) -> Progress {
    let (progress, _) = step(gen, Progress::Fresh, Event::Start);
    let (progress, action) = step(gen, progress, reply(GOOD));
    let asked = request(action);
    assert_eq!(asked.temperature_tenths, 1);
    assert!(asked.prompt.starts_with("Review the following code contribution for quality:"));
    assert!(asked.prompt.contains("-x = 1\n+x = 2\n"));
    progress
}

#[test]
fn review_lets_approved_contributions_pass() {
    let gen = ContributionGenerator::new(&CONFIG);
    let (_, action) = step(&gen, reviewing(&gen), reply("Approve. Fine."));
    assert!(matches!(action, Action::Return(Some(_))));
    let (_, action) = step(&gen, reviewing(&gen), reply("REJECT"));
    assert!(matches!(action, Action::Return(None)));
}

#[test]
fn review_that_fails_lets_contributions_pass() {
    let gen = ContributionGenerator::new(&CONFIG);
    let (progress, action) = step(&gen, reviewing(&gen), Event::Failed);
    assert!(matches!(progress, Progress::Finished));
    assert!(matches!(action, Action::Return(Some(_))));
}

#[test]
fn failed_request_for_changes_fails_the_run() {
    let gen = ContributionGenerator::new(&CONFIG);
    let (progress, _) = step(&gen, Progress::Fresh, Event::Start);
    let (progress, action) = step(&gen, progress, Event::Failed);
    assert!(matches!(progress, Progress::Finished));
    assert!(matches!(action, Action::Fail));
}

#[test]
fn events_out_of_place_are_refused() {
    let gen = ContributionGenerator::new(&CONFIG);
    assert!(matches!(step(&gen, Progress::Fresh, Event::Failed).1, Action::Refuse));
    assert!(matches!(step(&gen, Progress::Fresh, reply("x")).1, Action::Refuse));
    assert!(matches!(step(&gen, Progress::Finished, Event::Start).1, Action::Refuse));
    assert!(matches!(step(&gen, reviewing(&gen), Event::Start).1, Action::Refuse));
}

#[test]
fn titles_that_cannot_be_cut_are_refused() {
    let gen = ContributionGenerator::new(&CONFIG).without_self_review();
    let mut f = finding();
    f.title = format!("{}\u{e9}", "x".repeat(49));
    let (progress, action) = gen.step_at(&f, &context(), None, Progress::Fresh, Event::Start, NOW);
    assert!(matches!(action, Action::Complete(_)));
    let (_, action) = gen.step_at(&f, &context(), None, progress, reply(GOOD), NOW);
    assert!(matches!(action, Action::Refuse));
}

#[test]
fn run_by_the_clock_with_guidelines() {
    let gen = ContributionGenerator::new(&CONFIG).without_self_review();
    let g = RepoGuidelines {
        contributing_md: "guide".into(),
        uses_conventional_commits: true,
        ..Default::default()
    };
    let (f, ctx) = (finding(), context());
    let (progress, action) =
        gen.generate_with_guidelines(&f, &ctx, Some(&g), Progress::Fresh, Event::Start);
    assert!(matches!(action, Action::Complete(_)));
    let (_, action) = gen.generate_with_guidelines(&f, &ctx, Some(&g), progress, reply(GOOD));
    let c = match action {
        Action::Return(Some(c)) => c,
        other => panic!("no contribution: {:?}", other),
    };
    assert_eq!(c.title, "fix: sql injection");
    assert!(c.generated_at.seconds > 1_500_000_000);
    assert!(c.generated_at.nanos < 1_000_000_000);
}

#[test]
fn run_by_the_clock_without_guidelines() {
    let gen = ContributionGenerator::new(&CONFIG);
    let (f, ctx) = (finding(), context());
    let (progress, _) = gen.generate(&f, &ctx, Progress::Fresh, Event::Start);
    let (progress, _) = gen.generate(&f, &ctx, progress, reply(GOOD));
    let (_, action) = gen.generate(&f, &ctx, progress, reply("approve"));
    match action {
        Action::Return(Some(c)) => assert_eq!(c.title, "Security: SQL injection"),
        other => panic!("no contribution: {:?}", other),
    }
}

#[test]
fn review_can_be_switched_off() {
    assert!(ContributionGenerator::new(&CONFIG).self_review_enabled);
    assert!(!ContributionGenerator::new(&CONFIG).without_self_review().self_review_enabled);
    assert_eq!(ContributionGenerator::new(&CONFIG).config.max_changes_per_pr, 5);
}
