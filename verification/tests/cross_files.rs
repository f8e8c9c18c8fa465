use contribai::cross_files::{count_hits, pick_keywords, select_files};
use contribai::generator::ContributionGenerator;
use contribai::models::{
    ContributionConfig, ContributionType, FileMap, Finding, RepoContext, Repository, Severity,
};

const CONFIG: ContributionConfig = ContributionConfig { max_changes_per_pr: 5 };

fn generator() -> ContributionGenerator<'static> {
    ContributionGenerator::new(&CONFIG).without_self_review()
}

fn finding(description: &str, suggestion: Option<&str>) -> Finding {
    Finding {
        id: "test".into(),
        finding_type: ContributionType::SecurityFix,
        severity: Severity::High,
        title: "SQL injection in user query".into(),
        description: description.into(),
        file_path: "src/db/queries.py".into(),
        line_start: Some(42),
        line_end: Some(45),
        suggestion: suggestion.map(|s| s.to_string()),
        priority_signals: vec![],
    }
}

fn files(entries: &[(&str, &str)]) -> FileMap {
    let mut map = FileMap::new();
    for (path, content) in entries {
        map.insert(path.to_string(), content.to_string());
    }
    map
}

fn context(entries: &[(&str, &str)]) -> RepoContext {
    RepoContext {
        repo: Repository { full_name: "owner/repo".into(), language: None },
        relevant_files: files(entries),
        coding_style: None,
    }
}

fn patterns(description: &str, suggestion: Option<&str>) -> Vec<String> {
    ContributionGenerator::extract_search_patterns(&finding(description, suggestion))
}

fn texts(words: &[&str]) -> Vec<String> {
    words.iter().map(|w| w.to_string()).collect()
}

#[test]
fn test_find_cross_file_instances() {
    let gen = generator();
    let finding = finding(
        "Use `parameterized queries` instead of `string.format`",
        Some("Use `cursor.execute` with params"),
    );
    let ctx = context(&[
        // Primary file (should be excluded from results)
        ("src/db/queries.py", "cursor.execute(sql.format(user))"),
        // Should match: has 2+ keyword hits
        ("src/api/users.py", "parameterized queries string.format cursor.execute"),
        // Should NOT match: insufficient keyword overlap
        ("src/api/posts.py", "unrelated content here xyz"),
    ]);
    let result = gen.find_cross_file_instances(&finding, &ctx);

    assert!(result.contains_key("src/api/users.py"));
    assert!(!result.contains_key("src/db/queries.py")); // primary file excluded
    assert!(!result.contains_key("src/api/posts.py")); // too few matches
}

#[test]
fn snippets_come_before_names() {
    assert_eq!(
        patterns("Use `parameterized queries` instead of `string.format`", Some("`cursor.execute`")),
        texts(&[
            "parameterized queries",
            "string.format",
            "cursor.execute",
            "string.format",
            "cursor.execute"
        ])
    );
}

#[test]
fn short_snippets_and_names_are_left_out() {
    assert_eq!(patterns("`abc` `abcd` a.bcd ab.cde", None), texts(&["abcd", "ab.cde"]));
}

#[test]
fn names_take_their_marks_along() {
    assert_eq!(
        patterns("call obj.method!() or obj.check?; then a.b.c_long and x_1.y_22()", None),
        texts(&["obj.method!()", "obj.check?", "x_1.y_22()"])
    );
}

#[test]
fn empty_backticks_hold_no_snippet() {
    assert_eq!(patterns("``code`` and `tail", None), texts(&["code", " and "]));
    assert_eq!(patterns("", None), texts(&[]));
}

#[test]
fn names_outside_ascii_are_found() {
    assert_eq!(patterns("\u{e9}t\u{e9}.m\u{e9}thode", None), texts(&["\u{e9}t\u{e9}.m\u{e9}thode"]));
}

#[test]
fn at_most_ten_keywords() {
    let long: Vec<String> = (0..15).map(|i| format!("`word{}`", i)).collect();
    let found = patterns(&long.join(" "), None);
    assert_eq!(found.len(), 10);
    assert_eq!(found[9], "word9");
}

#[test]
fn case_of_keywords_does_not_matter() {
    let f = finding("`FOO bar` and `Baz qux`", None);
    let ctx = context(&[("a", "foo BAR baz QUX"), ("b", "foo bar only"), ("c", "FOO BAR BAZ QUX")]);
    let found = generator().find_cross_file_instances(&f, &ctx);
    assert_eq!(found.len(), 2);
    assert_eq!(found.get("a"), Some(&"foo BAR baz QUX".to_string()));
    assert!(found.contains_key("c"));
}

#[test]
fn at_most_three_other_files() {
    let f = finding("`alpha` `omega`", None);
    let entries: Vec<(String, String)> =
        (0..6).map(|i| (format!("f{}", i), "alpha omega".to_string())).collect();
    let borrowed: Vec<(&str, &str)> =
        entries.iter().map(|(p, c)| (p.as_str(), c.as_str())).collect();
    let found = generator().find_cross_file_instances(&f, &context(&borrowed));
    assert_eq!(found.len(), 3);
    assert_eq!(found.path(0), "f0");
    assert_eq!(found.path(2), "f2");
}

#[test]
fn finding_without_a_file_has_no_other_files() {
    let mut f = finding("`alpha` `omega`", None);
    f.file_path = String::new();
    assert!(generator().find_cross_file_instances(&f, &context(&[("a", "alpha omega")])).is_empty());
    let g = finding("no keywords", None);
    assert!(generator().find_cross_file_instances(&g, &context(&[("a", "alpha omega")])).is_empty());
    assert!(generator().find_cross_file_instances(&g, &context(&[])).is_empty());
}

#[test]
fn keywords_are_picked_by_length() {
    assert_eq!(
        pick_keywords(&texts(&["abc", "\u{e9}\u{e9}"]), &texts(&["12345", "123456"])),
        texts(&["\u{e9}\u{e9}", "123456"])
    );
}

#[test]
fn hits_are_counted_per_keyword() {
    assert_eq!(count_hits("one two one", &texts(&["one", "two", "three", "one"])), 3);
    assert_eq!(count_hits("one", &texts(&[])), 0);
}

#[test]
fn files_are_selected_by_the_given_texts() {
    let map = files(&[("own", "A"), ("x", "B"), ("y", "C")]);
    let lowered = texts(&["k1 k2", "k1", "k2 k1"]);
    let found = select_files(&map, "own", &lowered, &texts(&["k1", "k2"]));
    assert_eq!(found.len(), 1);
    assert_eq!(found.get("y"), Some(&"C".to_string()));
}

#[test]
fn file_map_keeps_each_path_once() {
    let mut map = files(&[("a", "1"), ("b", "2")]);
    map.insert("a".to_string(), "3".to_string());
    assert_eq!(map.len(), 2);
    assert_eq!(map.get("a"), Some(&"3".to_string()));
    assert_eq!(map.get("b"), Some(&"2".to_string()));
    assert_eq!(map.get("c"), None);
    assert_eq!(map.path(0), "a");
    assert_eq!(map.content(1), "2");
    assert!(FileMap::new().is_empty());
}
