use contribai::generator::ContributionGenerator;
use contribai::models::{ContributionConfig, FileChange};

const CONFIG: ContributionConfig = ContributionConfig { max_changes_per_pr: 5 };

fn generator() -> ContributionGenerator<'static> {
    ContributionGenerator::new(&CONFIG).without_self_review()
}

fn change(original: Option<&str>, new_content: &str, is_new_file: bool) -> FileChange {
    FileChange {
        path: "test.py".into(),
        original_content: original.map(|s| s.to_string()),
        new_content: new_content.into(),
        is_new_file,
        is_deleted: false,
    }
}

#[test]
fn test_validate_changes_good() {
    let gen = generator();
    let good = vec![FileChange {
        path: "test.py".into(),
        original_content: None,
        new_content: "def foo():\n    return 42\n".into(),
        is_new_file: false,
        is_deleted: false,
    }];
    assert!(gen.validate_changes(&good));
}

#[test]
fn test_validate_changes_noop() {
    let gen = generator();
    let noop = vec![FileChange {
        path: "test.py".into(),
        original_content: Some("same content".into()),
        new_content: "same content".into(),
        is_new_file: false,
        is_deleted: false,
    }];
    assert!(!gen.validate_changes(&noop));
}

#[test]
fn test_validate_changes_new_file_empty() {
    let gen = generator();
    let empty_new = vec![FileChange {
        path: "test.py".into(),
        original_content: None,
        new_content: "   ".into(),
        is_new_file: true,
        is_deleted: false,
    }];
    assert!(!gen.validate_changes(&empty_new));
}

#[test]
fn no_changes_are_not_valid() {
    assert!(!generator().validate_changes(&[]));
}

#[test]
fn new_file_needs_ten_bytes() {
    assert!(!generator().validate_changes(&[change(None, "  123456789\n", true)]));
    assert!(generator().validate_changes(&[change(None, "  1234567890\n", true)]));
    // Five characters of two bytes each.
    assert!(generator().validate_changes(&[change(None, "\u{e9}\u{e9}\u{e9}\u{e9}\u{e9}", true)]));
    assert!(generator().validate_changes(&[change(None, "", false)]));
}

#[test]
fn five_unbalanced_brackets_are_tolerated() {
    assert!(generator().validate_changes(&[change(None, "(((((", false)]));
    assert!(!generator().validate_changes(&[change(None, "((((((", false)]));
    assert!(generator().validate_changes(&[change(None, ")))))", false)]));
    assert!(!generator().validate_changes(&[change(None, "))))))", false)]));
    assert!(!generator().validate_changes(&[change(None, "((((()]}]", false)]));
}

#[test]
fn one_broken_change_spoils_the_list() {
    let good = change(Some("a"), "b", false);
    let noop = change(Some("a"), "a", false);
    assert!(!generator().validate_changes(&[good, noop]));
    let both = [change(Some("a"), "b", false), change(Some("c"), "d", false)];
    assert!(generator().validate_changes(&both));
}
