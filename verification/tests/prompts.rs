use contribai::generator::ContributionGenerator;
use contribai::models::{
    ContributionConfig, ContributionType, FileMap, Finding, RepoContext, Repository, Severity,
};
use contribai::prompts::{check_prompt_fits, compose_generation_prompt};

const CONFIG: ContributionConfig = ContributionConfig { max_changes_per_pr: 5 };

const RULES: &str = "You are a senior open-source contributor who writes production-ready \
             code. You understand that PRs are judged by maintainers who value \
             minimal, focused, and convention-matching changes.\n\n\
             RULES FOR GENERATING CHANGES:\n\
             1. Match existing code style EXACTLY (indentation, naming, patterns)\n\
             2. Make the SMALLEST change that correctly fixes the issue\n\
             3. Include proper error handling consistent with the codebase\n\
             4. Do NOT break existing functionality\n\
             5. Do NOT add unnecessary dependencies or imports\n\
             6. Do NOT refactor adjacent code — fix only the reported issue\n\
             7. Do NOT add comments explaining what the code does\n\
             8. Do NOT modify files unrelated to the finding\n\n\
             OUTPUT FORMAT RULES (CRITICAL):\n\
             - Return ONLY raw JSON — no markdown fences, no ```json blocks\n\
             - No explanatory text before or after the JSON\n\
             - The response must be valid, parseable JSON and nothing else\n\n\
             ACCEPTANCE CRITERIA:\n\
             - Would a busy maintainer merge this in under 30 seconds?\n\
             - Is the change obviously correct with no side effects?\n";

const EXISTING: &str = "Since this is an EXISTING file, use SEARCH/REPLACE blocks \
                 to make targeted edits. DO NOT rewrite the entire file.\n\n\
                 ```json\n\
                 {{\n  \"changes\": [\n    {{\n\
                       \"path\": \"path/to/file\",\n\
                       \"is_new_file\": false,\n\
                       \"edits\": [\n        {{\n\
                           \"search\": \"exact text to find in the file\",\n\
                           \"replace\": \"replacement text\"\n\
                       }}\n      ]\n    }}\n  ]\n}}\n\
                 ```\n\n\
                 RULES for search/replace:\n\
                 - `search` must be an EXACT substring from the current file\n\
                 - `replace` is what replaces it (can be longer/shorter)\n\
                 - To DELETE content, set `replace` to empty string\n\
                 - Keep each edit small and focused\n";

const NEW: &str = "Since this is a NEW file, provide the full content:\n\n\
                 ```json\n\
                 {{\n  \"changes\": [\n    {{\n\
                       \"path\": \"path/to/file\",\n\
                       \"content\": \"full content of the new file\",\n\
                       \"is_new_file\": true\n\
                   }}\n  ]\n}}\n\
                 ```\n";

fn generator() -> ContributionGenerator<'static> {
    ContributionGenerator::new(&CONFIG)
}

fn finding(suggestion: Option<&str>) -> Finding {
    Finding {
        id: "test".into(),
        finding_type: ContributionType::SecurityFix,
        severity: Severity::High,
        title: "SQL injection".into(),
        description: "Use `cursor.execute` not `string.format`".into(),
        file_path: "src/db.py".into(),
        line_start: None,
        line_end: None,
        suggestion: suggestion.map(|s| s.to_string()),
        priority_signals: vec![],
    }
}

fn context(entries: &[(&str, &str)], language: Option<&str>, style: Option<&str>) -> RepoContext {
    let mut map = FileMap::new();
    for (path, content) in entries {
        map.insert(path.to_string(), content.to_string());
    }
    RepoContext {
        repo: Repository {
            full_name: "owner/repo".into(),
            language: language.map(|s| s.to_string()),
        },
        relevant_files: map,
        coding_style: style.map(|s| s.to_string()),
    }
}

#[test]
fn system_prompt_names_the_repository() {
    assert_eq!(
        generator().build_system_prompt(&context(&[], None, None)),
        format!("{}\nREPOSITORY: owner/repo\nLanguage: unknown\n", RULES)
    );
}

#[test]
fn system_prompt_shows_language_and_style() {
    assert_eq!(
        generator().build_system_prompt(&context(&[], Some("Python"), Some("tabs"))),
        format!(
            "{}\nCODEBASE STYLE:\ntabs\nYou MUST match these conventions exactly.\n\
             \nREPOSITORY: owner/repo\nLanguage: Python\n",
            RULES
        )
    );
}

#[test]
fn prompt_for_a_new_file() {
    assert_eq!(
        generator().build_generation_prompt(&finding(None), &context(&[], None, None)),
        format!(
            "## Task\nFix this issue.\n\n## Finding\n- **Title**: SQL injection\n\
             - **Severity**: high\n- **File**: src/db.py\n\
             - **Description**: Use `cursor.execute` not `string.format`\n\
             \n## Output Format\nReturn your changes as a JSON object.\n\n{}",
            NEW
        )
    );
}

#[test]
fn prompt_for_an_existing_file_with_others() {
    let ctx = context(
        &[
            ("src/db.py", "x = 1\n"),
            ("a.py", "cursor.execute(string.format())"),
            ("b.py", "Cursor.Execute string.FORMAT"),
        ],
        None,
        None,
    );
    assert_eq!(
        generator().build_generation_prompt(&finding(Some("bind")), &ctx),
        format!(
            "## Task\nFix this issue.\n\n## Finding\n- **Title**: SQL injection\n\
             - **Severity**: high\n- **File**: src/db.py\n\
             - **Description**: Use `cursor.execute` not `string.format`\n\
             - **Suggestion**: bind\n\
             \n## IMPORTANT: Same issue in 2 OTHER file(s)\n\
             Fix ALL instances across ALL files in a single contribution.\n\n\
             ### a.py\n```\ncursor.execute(string.format())\n```\n\n\
             ### b.py\n```\nCursor.Execute string.FORMAT\n```\n\n\
             \n## Output Format\nReturn your changes as a JSON object.\n\n\
             ## Current File Content (src/db.py)\n```\nx = 1\n\n```\n\n{}",
            EXISTING
        )
    );
}

#[test]
fn long_contents_are_cut() {
    let long = "y".repeat(7000);
    let mut others = FileMap::new();
    others.insert("o".to_string(), "z".repeat(3500));
    let prompt = compose_generation_prompt(&finding(None), &long, &others);
    assert!(prompt.contains(&format!("```\n{}\n```", "y".repeat(6000))));
    assert!(prompt.contains(&format!("### o\n```\n{}\n```", "z".repeat(3000))));
    assert!(!prompt.contains(&"y".repeat(6001)));
    assert!(!prompt.contains(&"z".repeat(3001)));
}

#[test]
fn severities_are_written_in_lower_case() {
    assert_eq!(Severity::Low.as_str(), "low");
    assert_eq!(Severity::Medium.as_str(), "medium");
    assert_eq!(Severity::High.as_str(), "high");
    assert_eq!(Severity::Critical.as_str(), "critical");
}

#[test]
fn contents_cut_inside_a_character_are_refused() {
    let content = format!("{}\u{e9}", "y".repeat(5999));
    let ctx = context(&[("src/db.py", &content)], None, None);
    assert_eq!(generator().try_generation_prompt(&finding(None), &ctx), None);
    let mut others = FileMap::new();
    assert!(!check_prompt_fits(&content, &others));
    assert!(check_prompt_fits("short", &others));
    others.insert("o".to_string(), format!("{}\u{e9}", "z".repeat(2999)));
    assert!(!check_prompt_fits("short", &others));
}

#[test]
fn prompt_that_fits_is_built() {
    let ctx = context(&[("src/db.py", "x = 1\n")], None, None);
    assert_eq!(
        generator().try_generation_prompt(&finding(None), &ctx),
        Some(generator().build_generation_prompt(&finding(None), &ctx))
    );
}
