use contribai::generator::ContributionGenerator;
use contribai::json::JsonValue;
use contribai::models::{ContributionConfig, FileMap, RepoContext, Repository};

fn context(files: &[(&str, &str)]) -> RepoContext {
    let mut map = FileMap::new();
    for (path, content) in files {
        map.insert(path.to_string(), content.to_string());
    }
    RepoContext {
        repo: Repository { full_name: "owner/repo".into(), language: None },
        relevant_files: map,
        coding_style: None,
    }
}

const CONFIG: ContributionConfig = ContributionConfig { max_changes_per_pr: 5 };

fn generator() -> ContributionGenerator<'static> {
    ContributionGenerator::new(&CONFIG).without_self_review()
}

#[test]
fn test_parse_changes_valid() {
    let gen = generator();
    let ctx = context(&[]);
    let response =
        r#"[{"path": "src/main.py", "new_content": "print('fixed')", "is_new_file": false}]"#;
    let changes = gen.parse_changes(response, &ctx);
    assert!(changes.is_some());
    assert_eq!(changes.unwrap().len(), 1);
}

#[test]
fn test_parse_changes_invalid() {
    let gen = generator();
    let ctx = context(&[]);
    let response = "This is not valid JSON at all";
    let changes = gen.parse_changes(response, &ctx);
    assert!(changes.is_none());
}

#[test]
fn test_parse_changes_search_replace() {
    let gen = generator();
    let ctx = context(&[("src/main.py", "def foo():\n    x = 1\n    return x\n")]);

    let response = r#"{"changes": [{"path": "src/main.py", "is_new_file": false, "edits": [{"search": "x = 1", "replace": "x = 2"}]}]}"#;
    let changes = gen.parse_changes(response, &ctx);
    assert!(changes.is_some());
    let ch = changes.unwrap();
    assert_eq!(ch.len(), 1);
    assert!(ch[0].new_content.contains("x = 2"));
    assert!(!ch[0].new_content.contains("x = 1"));
}

#[test]
fn search_replace_change_is_exact() {
    let ctx = context(&[("a.py", "one\ntwo\none\n")]);
    let response =
        r#"{"changes": [{"path": "a.py", "edits": [{"search": "one", "replace": "1"}]}]}"#;
    let ch = generator().parse_changes(response, &ctx).unwrap();
    assert_eq!(ch.len(), 1);
    assert_eq!(ch[0].path, "a.py");
    assert_eq!(ch[0].original_content, Some("one\ntwo\none\n".to_string()));
    assert_eq!(ch[0].new_content, "1\ntwo\none\n");
    assert!(!ch[0].is_new_file);
    assert!(!ch[0].is_deleted);
}

#[test]
fn edits_build_on_each_other_and_missing_ones_are_passed_over() {
    let ctx = context(&[("a.py", "alpha beta")]);
    let response = r#"{"changes": [{"path": "a.py", "edits": [
        {"search": "", "replace": "never"},
        {"search": "nowhere", "replace": "never"},
        {"search": "alpha", "replace": "gamma"},
        {"replace": "never"},
        {"search": "gamma beta"}
    ]}]}"#;
    let ch = generator().parse_changes(response, &ctx).unwrap();
    assert_eq!(ch[0].new_content, "");
}

#[test]
fn file_without_applied_edits_is_skipped() {
    let ctx = context(&[("a.py", "alpha"), ("b.py", "beta")]);
    let response = r#"{"changes": [
        {"path": "a.py", "edits": [{"search": "nowhere", "replace": "x"}]},
        {"path": "missing.py", "edits": [{"search": "a", "replace": "x"}]},
        {"edits": [{"search": "a", "replace": "x"}]},
        {"path": 3, "content": "x"},
        {"path": "b.py"},
        {"path": "b.py", "edits": [{"search": "beta", "replace": "delta"}]}
    ]}"#;
    let ch = generator().parse_changes(response, &ctx).unwrap();
    assert_eq!(ch.len(), 1);
    assert_eq!(ch[0].path, "b.py");
    assert_eq!(ch[0].new_content, "delta");
}

#[test]
fn full_content_makes_a_new_file() {
    let ctx = context(&[]);
    let response =
        r#"{"changes": [{"path": "n.py", "content": "a\nb", "is_new_file": false}]}"#;
    let ch = generator().parse_changes(response, &ctx).unwrap();
    assert_eq!(ch.len(), 1);
    assert_eq!(ch[0].path, "n.py");
    assert_eq!(ch[0].original_content, None);
    assert_eq!(ch[0].new_content, "a\nb");
    assert!(ch[0].is_new_file);
}

#[test]
fn changes_are_limited() {
    let ctx = context(&[]);
    let items: Vec<String> = (0..9)
        .map(|i| format!("{{\"path\": \"f{}\", \"content\": \"c\"}}", i))
        .collect();
    let response = format!("{{\"changes\": [{}]}}", items.join(", "));
    let ch = generator().parse_changes(&response, &ctx).unwrap();
    let paths: Vec<&str> = ch.iter().map(|c| c.path.as_str()).collect();
    assert_eq!(paths, vec!["f0", "f1", "f2", "f3", "f4"]);
}

#[test]
fn bare_list_is_not_limited() {
    let ctx = context(&[]);
    let items: Vec<String> = (0..9)
        .map(|i| format!("{{\"path\": \"f{}\", \"new_content\": \"c\"}}", i))
        .collect();
    let response = format!("[{}]", items.join(", "));
    assert_eq!(generator().parse_changes(&response, &ctx).unwrap().len(), 9);
}

#[test]
fn bare_list_leaves_out_items_without_path_or_content() {
    let ctx = context(&[]);
    let response = r#"[{"path": "a"}, {"new_content": "x"}, 7, "s", null, [1],
        {"path": "b", "new_content": "x", "is_new_file": true},
        {"path": "c", "new_content": "y", "is_new_file": "yes"}]"#;
    let ch = generator().parse_changes(response, &ctx).unwrap();
    assert_eq!(ch.len(), 2);
    assert_eq!(ch[0].path, "b");
    assert!(ch[0].is_new_file);
    assert_eq!(ch[0].original_content, None);
    assert_eq!(ch[1].path, "c");
    assert_eq!(ch[1].new_content, "y");
    assert!(!ch[1].is_new_file);
}

#[test]
fn documents_without_changes_give_nothing() {
    let ctx = context(&[]);
    let gen = generator();
    assert!(gen.parse_changes("{\"changes\": []}", &ctx).is_none());
    assert!(gen.parse_changes("{\"changes\": 3}", &ctx).is_none());
    assert!(gen.parse_changes("{\"other\": [1]}", &ctx).is_none());
    assert!(gen.parse_changes("[]", &ctx).is_none());
    assert!(gen.parse_changes("{\"changes\": [,]}", &ctx).is_none());
}

#[test]
fn limit_of_none_leaves_no_changes() {
    let config = ContributionConfig { max_changes_per_pr: 0 };
    let gen = ContributionGenerator::new(&config);
    let ctx = context(&[]);
    let response = r#"{"changes": [{"path": "n.py", "content": "a"}]}"#;
    assert!(gen.parse_changes(response, &ctx).is_none());
}

#[test]
fn fenced_reply_is_read() {
    let ctx = context(&[]);
    let response = "Here:\n```json\n{\"changes\": [{\"path\": \"p\", \"content\": \"\\u00e9\\n\"}]}\n```\n";
    let ch = generator().parse_changes(response, &ctx).unwrap();
    assert_eq!(ch[0].new_content, "\u{e9}\n");
}

#[test]
fn changes_of_a_value_built_by_hand() {
    let ctx = context(&[("a", "x y")]);
    let edit = JsonValue::Object(vec![
        ("search".to_string(), JsonValue::Str("y".to_string())),
        ("replace".to_string(), JsonValue::Str("z".to_string())),
    ]);
    let item = JsonValue::Object(vec![
        ("path".to_string(), JsonValue::Str("a".to_string())),
        ("edits".to_string(), JsonValue::Array(vec![edit])),
    ]);
    let data = JsonValue::Object(vec![("changes".to_string(), JsonValue::Array(vec![item]))]);
    let ch = generator().changes_from_json(&data, &ctx).unwrap();
    assert_eq!(ch.len(), 1);
    assert_eq!(ch[0].new_content, "x z");
}

#[test]
fn parsed_values_are_told_apart() {
    let data = JsonValue::parse(r#"{"b": true, "n": -1.5e3, "z": null, "s": "t", "a": [1, "u"]}"#)
        .unwrap();
    assert_eq!(data.get_bool("b"), Some(true));
    assert!(matches!(data.get("n"), Some(JsonValue::Number)));
    assert!(matches!(data.get("z"), Some(JsonValue::Null)));
    assert_eq!(data.get_str("s"), Some(&"t".to_string()));
    assert_eq!(data.get_str("b"), None);
    assert_eq!(data.get_bool("s"), None);
    assert!(data.get("missing").is_none());
    let items = data.get_array("a").unwrap();
    assert_eq!(items.len(), 2);
    assert!(matches!(&items[1], JsonValue::Str(s) if s == "u"));
    assert!(items[1].get("a").is_none());
    assert!(JsonValue::parse("{").is_none());
    assert!(JsonValue::parse("").is_none());
}

#[test]
fn last_of_equal_keys_counts() {
    let data = JsonValue::parse(r#"{"k": "first", "k": "second"}"#).unwrap();
    assert_eq!(data.get_str("k"), Some(&"second".to_string()));
}

#[test]
fn fences_around_a_value_do_not_matter() {
    let ctx = context(&[("a", "x y")]);
    let value = r#"{"changes": [{"path": "a", "edits": [{"search": "y", "replace": "z"}]}]}"#;
    let fenced = format!("Some `prose` {{ first.\n```json\n{}\n```\n[and] more", value);
    for reply in [value.to_string(), fenced] {
        let ch = generator().parse_changes(&reply, &ctx).unwrap();
        assert_eq!(ch.len(), 1);
        assert_eq!(ch[0].new_content, "x z");
    }
}
