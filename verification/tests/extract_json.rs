use contribai::generator::ContributionGenerator;

fn extract(response: &str) -> Option<String> {
    ContributionGenerator::extract_json(response)
}

#[test]
fn test_extract_json_fenced() {
    let response = "some text\n```json\n{\"changes\": []}\n```\ntrailing text";
    let result = ContributionGenerator::extract_json(response);
    assert_eq!(result, Some("{\"changes\": []}".to_string()));
}

#[test]
fn test_extract_json_raw() {
    let response = r#"Here is the fix: {"changes": [{"path": "x.py"}]}"#;
    let result = ContributionGenerator::extract_json(response);
    assert!(result.is_some());
    assert!(result.unwrap().contains("changes"));
}

#[test]
fn test_extract_json_bare_array() {
    let response = r#"[{"path": "x.py", "new_content": "hello"}]"#;
    let result = ContributionGenerator::extract_json(response);
    assert!(result.is_some());
    assert!(result.unwrap().starts_with('['));
}

#[test]
fn test_extract_json_none() {
    let result = ContributionGenerator::extract_json("no json here at all");
    assert!(result.is_none());
}

#[test]
fn json_fence_holds_what_is_extracted() {
    let response = "a {\"x\": 1}\n```json  \n\n  [1,\n 2]  \n\n   ```\nb\n```json\n{}\n```";
    assert_eq!(extract(response), Some("[1,\n 2]".to_string()));
}

#[test]
fn json_fence_wins_over_an_earlier_plain_fence() {
    let response = "```\n{\"a\": 1}\n```\n```json\n{\"b\": 2}\n```";
    assert_eq!(extract(response), Some("{\"b\": 2}".to_string()));
}

#[test]
fn blank_json_fence_runs_on_to_the_next_fence() {
    let response = "```json\n\n```\nfoo\n```";
    assert_eq!(extract(response), Some("```\nfoo".to_string()));
}

#[test]
fn json_fence_with_backticks_inside() {
    let response = "```json\n{\"a\": \"```\"}\n```";
    assert_eq!(extract(response), Some("{\"a\": \"```\"}".to_string()));
}

#[test]
fn json_fence_with_unicode_white_space() {
    let response = "```json\u{a0}\n{\"a\": \"\u{e9}\"}\n\u{2003}```";
    assert_eq!(extract(response), Some("{\"a\": \"\u{e9}\"}".to_string()));
}

#[test]
fn json_mark_without_a_line_end_is_no_fence() {
    let response = "```json {\"a\": 1} ```";
    assert_eq!(extract(response), Some("{\"a\": 1}".to_string()));
}

#[test]
fn plain_fence_holds_an_object() {
    let response = "Sure:\n```\n{\"changes\": [\n]}\n```\nand {more}";
    assert_eq!(extract(response), Some("{\"changes\": [\n]}".to_string()));
}

#[test]
fn plain_fence_without_an_object_is_passed_over() {
    let response = "```\ncode\n```\nthen {\"a\": {}} end";
    assert_eq!(extract(response), Some("{\"a\": {}}".to_string()));
}

#[test]
fn prose_around_a_bare_value_is_dropped() {
    assert_eq!(extract("x [1, [2]] y"), Some("[1, [2]]".to_string()));
    assert_eq!(extract("x {\"a\": \"}\"} y"), Some("{\"a\": \"}\"}".to_string()));
}

#[test]
fn changes_are_preferred_to_an_earlier_bracket() {
    let response = "see [1] and {\"changes\": []} here";
    assert_eq!(extract(response), Some("{\"changes\": []}".to_string()));
}

#[test]
fn escaped_quotes_stay_inside_strings() {
    let response = r#"{"a": "x \" } y"} z"#;
    assert_eq!(extract(response), Some(r#"{"a": "x \" } y"}"#.to_string()));
}

#[test]
fn quote_behind_any_backslash_ends_no_string() {
    assert_eq!(extract(r#"{"p": "a\\"}"#), None);
    let response = r#"{"p": "a\\", "q": "b"} c" }"#;
    assert_eq!(extract(response), Some(response.to_string()));
}

#[test]
fn value_that_is_never_closed_is_not_extracted() {
    assert_eq!(extract("{\"a\": [1, 2"), None);
    assert_eq!(extract("{\"a\": \"}"), None);
    assert_eq!(extract(""), None);
}

#[test]
fn backticks_in_prose_open_no_fence() {
    let response = "use ```json inline and ``` too\n```json\n[1]\n```";
    assert_eq!(extract(response), Some("[1]".to_string()));
    let plain = "```\ntext\n```\n```\n{\"a\": \"```\"}\n```";
    assert_eq!(extract(plain), Some("{\"a\": \"```\"}".to_string()));
}

#[test]
fn blank_json_fence_at_the_end_gives_nothing_to_read() {
    assert_eq!(extract("```json\n\n```\n"), Some(String::new()));
}
