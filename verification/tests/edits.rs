use contribai::generator::ContributionGenerator;

fn edit(content: &str, search: &str, replace: &str) -> Option<String> {
    ContributionGenerator::apply_single_edit(content, search, replace)
}

#[test]
fn test_fuzzy_replace_exact_words() {
    let content = "line one\nline two\nline three\n";
    let search = "line one\nline two";
    let replace = "replaced one\nreplaced two";
    let result = ContributionGenerator::fuzzy_replace(content, search, replace);
    assert!(result.is_some());
    let r = result.unwrap();
    assert!(r.contains("replaced one"));
    assert!(!r.contains("line one"));
}

#[test]
fn test_fuzzy_replace_no_match() {
    // Words share no overlap with content
    let content = "completely different text here";
    let search = "foo bar baz qux quux corge grault garply";
    let replace = "something";
    let result = ContributionGenerator::fuzzy_replace(content, search, replace);
    assert!(result.is_none());
}

#[test]
fn test_fuzzy_replace_empty_search() {
    let result = ContributionGenerator::fuzzy_replace("hello world", "", "replacement");
    assert!(result.is_none());
}

#[test]
fn exact_edit_replaces_the_first_occurrence_only() {
    assert_eq!(edit("a b a b", "a", "X"), Some("X b a b".to_string()));
    assert_eq!(edit("a b a b", "b", ""), Some("a  a b".to_string()));
    assert_eq!(edit("h\u{e9}llo", "\u{e9}", "e"), Some("hello".to_string()));
}

#[test]
fn exact_edit_can_be_undone() {
    let before = "let x = 1;\nlet y = 2;\n";
    let after = edit(before, "x = 1", "z = 9").unwrap();
    assert_eq!(edit(&after, "z = 9", "x = 1"), Some(before.to_string()));
}

#[test]
fn white_space_at_line_ends_does_not_matter() {
    let content = "fn a() {  \n    one();\t\n}\nrest";
    let search = "fn a() {\n    one();\n}";
    assert_eq!(edit(content, search, "fn b() {}"), Some("fn b() {}\nrest".to_string()));
}

#[test]
fn whole_lines_are_replaced_where_line_ends_differ() {
    let content = "keep\nalpha beta  \ngamma delta\ntail";
    assert_eq!(
        edit(content, "beta\ngamma", "NEW"),
        Some("keep\nNEW\ntail".to_string())
    );
}

#[test]
fn surrounding_white_space_is_dropped_from_long_searches() {
    let content = "before; the quick brown fox jumps; after";
    let search = "\n   the quick brown fox jumps  \n";
    assert_eq!(
        edit(content, search, "  a dog  "),
        Some("before; a dog; after".to_string())
    );
}

#[test]
fn surrounding_white_space_counts_in_short_searches() {
    assert_eq!(edit("one short text", "\n  short \n", "x"), None);
}

#[test]
fn fuzzy_edit_takes_the_closest_lines() {
    let content = "alpha beta gamma delta epsilon\nalpha beta gamma delta zeta\nend";
    let search = "alpha  beta gamma  delta zeta";
    assert_eq!(
        edit(content, search, "NEW"),
        Some("alpha beta gamma delta epsilon\nNEW\nend".to_string())
    );
}

#[test]
fn fuzzy_edit_takes_the_first_of_equally_close_lines() {
    let content = "a b c d\na b c d\n";
    assert_eq!(
        ContributionGenerator::fuzzy_replace(content, "d c b a", "x\ny"),
        Some("x\ny\na b c d".to_string())
    );
}

#[test]
fn fuzzy_edit_needs_four_fifths() {
    // 4 of 5 words on each side: exactly four fifths.
    assert_eq!(
        ContributionGenerator::fuzzy_replace("a b c d e", "a b c d x", "R"),
        Some("R".to_string())
    );
    // 3 of 4 words: less.
    assert_eq!(ContributionGenerator::fuzzy_replace("a b c d", "a b c x", "R"), None);
}

#[test]
fn fuzzy_edit_of_a_text_with_too_few_lines() {
    assert_eq!(ContributionGenerator::fuzzy_replace("a b", "a\nb", "R"), None);
    assert_eq!(ContributionGenerator::fuzzy_replace("", "a", "R"), None);
}

#[test]
fn fuzzy_edit_drops_carriage_returns_and_the_last_line_end() {
    assert_eq!(
        ContributionGenerator::fuzzy_replace("a b\r\nc d\r\n", "b a", "R"),
        Some("R\nc d".to_string())
    );
}

#[test]
fn edit_that_finds_no_place() {
    assert_eq!(edit("some content", "missing", "x"), None);
    assert_eq!(edit("some content", "a text of more than twenty bytes", "x"), None);
}
