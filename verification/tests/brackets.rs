use contribai::generator::ContributionGenerator;

fn count(code: &str) -> usize {
    ContributionGenerator::count_unbalanced_brackets(code)
}

#[test]
fn test_count_unbalanced_balanced() {
    let code = "fn foo() { let x = (1 + 2); }";
    assert_eq!(ContributionGenerator::count_unbalanced_brackets(code), 0);
}

#[test]
fn test_count_unbalanced_simple_imbalance() {
    // missing `)` and `}`
    let code = "fn foo() { let x = (1 + 2;";
    assert_eq!(ContributionGenerator::count_unbalanced_brackets(code), 2);
}

#[test]
fn test_count_unbalanced_ignores_string() {
    // Brackets inside string literals must be ignored
    let code = r#"let s = "hello { world }"; fn foo() {}"#;
    assert_eq!(ContributionGenerator::count_unbalanced_brackets(code), 0);
}

#[test]
fn test_count_unbalanced_ignores_line_comment_slash() {
    let code = "let x = 1; // unmatched { bracket\nlet y = 2;";
    assert_eq!(ContributionGenerator::count_unbalanced_brackets(code), 0);
}

#[test]
fn test_count_unbalanced_ignores_line_comment_hash() {
    let code = "x = 1  # unmatched { bracket\ny = 2";
    assert_eq!(ContributionGenerator::count_unbalanced_brackets(code), 0);
}

#[test]
fn test_count_unbalanced_ignores_block_comment() {
    let code = "let x = 1; /* unmatched { */ let y = 2;";
    assert_eq!(ContributionGenerator::count_unbalanced_brackets(code), 0);
}

#[test]
fn closers_without_openers_count() {
    assert_eq!(count(")]}"), 3);
    assert_eq!(count("(]"), 2);
    assert_eq!(count("([)"), 3);
    assert_eq!(count(""), 0);
    assert_eq!(count(")"), 1);
    assert_eq!(count("())("), 2);
    assert_eq!(count("\")\" // )\n/* ) */"), 0);
}

#[test]
fn escaped_backslashes_do_not_escape_quotes() {
    assert_eq!(count(r#""a\\" {"#), 1);
    assert_eq!(count(r#""C:\\" { 'b\\\\' ("#), 2);
    assert_eq!(count(r#""a\\\" {""#), 0);
    assert_eq!(count(r#"\\"{""#), 0);
    assert_eq!(count(r#"\"{"#), 1);
}

#[test]
fn balanced_brackets_change_nothing_behind_others() {
    for head in ["", "(", "([", ")", "(]"] {
        for inner in ["()", "[{}]", "(()[])"] {
            assert_eq!(count(&format!("{}{}", head, inner)), count(head));
        }
    }
}

#[test]
fn comments_behind_backslashes_and_slashes_do_not_matter() {
    assert_eq!(count("\\# (\n["), count("\\["));
    assert_eq!(count("\\/* ( */["), count("\\["));
    assert_eq!(count("a /// (\n["), count("a /["));
    assert_eq!(count("/* */// (\n["), count("/* */["));
}

#[test]
fn comments_end_where_they_end() {
    assert_eq!(count("// (\n("), 1);
    assert_eq!(count("# [\n["), 1);
    assert_eq!(count("/* ( */ ("), 1);
    assert_eq!(count("/* (\n // { \n*/ {"), 1);
    assert_eq!(count("/*/ ( */"), 0);
}

#[test]
fn strings_end_at_their_own_quote() {
    assert_eq!(count("'(' ("), 1);
    assert_eq!(count("\"'(\" ("), 1);
    assert_eq!(count("\"\\\"(\""), 0);
    assert_eq!(count("\"// (\" ("), 1);
    assert_eq!(count("\"(\n(\""), 0);
}

#[test]
fn other_characters_do_not_matter() {
    assert_eq!(count("\u{e9}(\u{4e2d}{\u{1f600}}"), 1);
    assert_eq!(count("a / b * (c"), 1);
}

#[test]
fn remarks_inside_code_do_not_matter() {
    assert_eq!(count("f(a, /* [ { */ b"), count("f(a,  b"));
    assert_eq!(count("f(a // [ {\n, b"), count("f(a , b"));
    assert_eq!(count("f(a # [ {\n, b"), count("f(a , b"));
    assert_eq!(count("f(\"[ \\\" {\" [ b"), count("f( [ b"));
}

#[test]
fn brackets_of_continued_code_add_up() {
    assert_eq!(count("(["), 2);
    assert_eq!(count("(["), count("(") + count("["));
    assert_eq!(count("([") - 1, count("([]"));
}
