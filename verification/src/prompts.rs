//! The prompts that ask for a change.

use vstd::prelude::*;
use vstd::utf8::is_ascii_chars;
use crate::chars;
use crate::cross_files::cross_files;
use crate::generator::ContributionGenerator;
use crate::models::{lookup, opt_view, FileMap, Files, Finding, FindingView, RepoContext};
use crate::text;
use crate::text_laws::law_contains_iff_written_around;

verus! {

/// How many bytes of the file to change a prompt shows.
pub const MAX_FILE_BYTES: usize = 6000;

/// How many bytes of each other file a prompt shows.
pub const MAX_OTHER_BYTES: usize = 3000;

/// The rules that every system prompt begins with.
pub const SYSTEM_RULES: &'static str = "You are a senior open-source contributor who writes production-ready \
     code. You understand that PRs are judged by maintainers who value \
     minimal, focused, and convention-matching changes.\n\n\
     RULES FOR GENERATING CHANGES:\n\
     1. Match existing code style EXACTLY (indentation, naming, patterns)\n\
     2. Make the SMALLEST change that correctly fixes the issue\n\
     3. Include proper error handling consistent with the codebase\n\
     4. Do NOT break existing functionality\n\
     5. Do NOT add unnecessary dependencies or imports\n\
     6. Do NOT refactor adjacent code — fix only the reported issue\n\
     7. Do NOT add comments explaining what the code does\n\
     8. Do NOT modify files unrelated to the finding\n\n\
     OUTPUT FORMAT RULES (CRITICAL):\n\
     - Return ONLY raw JSON — no markdown fences, no ```json blocks\n\
     - No explanatory text before or after the JSON\n\
     - The response must be valid, parseable JSON and nothing else\n\n\
     ACCEPTANCE CRITERIA:\n\
     - Would a busy maintainer merge this in under 30 seconds?\n\
     - Is the change obviously correct with no side effects?\n";

/// How a change of an existing file is to be written down.
pub const EXISTING_FILE_FORMAT: &'static str = "Since this is an EXISTING file, use SEARCH/REPLACE blocks \
     to make targeted edits. DO NOT rewrite the entire file.\n\n\
     ```json\n\
     {{\n  \"changes\": [\n    {{\n\
     \"path\": \"path/to/file\",\n\
     \"is_new_file\": false,\n\
     \"edits\": [\n        {{\n\
     \"search\": \"exact text to find in the file\",\n\
     \"replace\": \"replacement text\"\n\
     }}\n      ]\n    }}\n  ]\n}}\n\
     ```\n\n\
     RULES for search/replace:\n\
     - `search` must be an EXACT substring from the current file\n\
     - `replace` is what replaces it (can be longer/shorter)\n\
     - To DELETE content, set `replace` to empty string\n\
     - Keep each edit small and focused\n";

/// How a new file is to be written down.
pub const NEW_FILE_FORMAT: &'static str = "Since this is a NEW file, provide the full content:\n\n\
     ```json\n\
     {{\n  \"changes\": [\n    {{\n\
     \"path\": \"path/to/file\",\n\
     \"content\": \"full content of the new file\",\n\
     \"is_new_file\": true\n\
     }}\n  ]\n}}\n\
     ```\n";

/// The system prompt for a repository: the rules, its style and its name.
pub open spec fn system_prompt(
    full_name: Seq<char>,
    language: Option<Seq<char>>,
    style: Option<Seq<char>>,
) -> Seq<char> {
    SYSTEM_RULES@ + match style {
        Some(s) => "\nCODEBASE STYLE:\n"@ + s
            + "\nYou MUST match these conventions exactly.\n"@,
        None => Seq::empty(),
    } + "\nREPOSITORY: "@ + full_name + "\nLanguage: "@ + match language {
        Some(l) => l,
        None => "unknown"@,
    } + "\n"@
}

/// What a prompt says of a finding.
pub open spec fn finding_section(finding: FindingView) -> Seq<char> {
    "## Task\nFix this issue.\n\n## Finding\n- **Title**: "@ + finding.title
        + "\n- **Severity**: "@ + finding.severity.label()@ + "\n- **File**: "@ + finding.file_path
        + "\n- **Description**: "@ + finding.description + "\n"@ + match finding.suggestion {
        Some(s) => "- **Suggestion**: "@ + s + "\n"@,
        None => Seq::empty(),
    }
}

/// The contents of other files, each under its path.
pub open spec fn other_files(files: Files) -> Seq<char>
    decreases files.len(),
{
    if files.len() == 0 {
        Seq::empty()
    } else {
        let (path, content) = files.last();
        other_files(files.drop_last()) + "### "@ + path + "\n```\n"@ + chars::clip(
            content,
            MAX_OTHER_BYTES as int,
        ) + "\n```\n\n"@
    }
}

/// What a prompt says of the other files with the same issue.
pub open spec fn cross_section(files: Files) -> Seq<char> {
    if files.len() == 0 {
        Seq::empty()
    } else {
        "\n## IMPORTANT: Same issue in "@ + chars::decimal(files.len()) + " OTHER file(s)\nFix ALL instances across ALL files in a single contribution.\n\n"@
            + other_files(files)
    }
}

/// What a prompt says of the form of the answer, which depends on whether the
/// file to change has a content.
pub open spec fn format_section(path: Seq<char>, current: Seq<char>) -> Seq<char> {
    "\n## Output Format\nReturn your changes as a JSON object.\n\n"@ + if current.len() == 0 {
        NEW_FILE_FORMAT@
    } else {
        "## Current File Content ("@ + path + ")\n```\n"@ + chars::clip(
            current,
            MAX_FILE_BYTES as int,
        ) + "\n```\n\n"@ + EXISTING_FILE_FORMAT@
    }
}

/// The prompt for a finding, given the content of its file and the other files
/// with the same issue.
pub open spec fn generation_prompt(
    finding: FindingView,
    current: Seq<char>,
    others: Files,
) -> Seq<char> {
    finding_section(finding) + cross_section(others) + format_section(finding.file_path, current)
}

/// No content is cut inside a character.
pub open spec fn prompt_fits(current: Seq<char>, others: Files) -> bool {
    &&& chars::cuts_cleanly(current, MAX_FILE_BYTES as int)
    &&& forall|i: int|
        0 <= i < others.len() ==> chars::cuts_cleanly(
            (#[trigger] others[i]).1,
            MAX_OTHER_BYTES as int,
        )
}

/// The content of the file of a finding, which is empty where it is not known.
pub open spec fn current_content(finding: FindingView, files: Files) -> Seq<char> {
    match lookup(files, finding.file_path) {
        Some(content) => content,
        None => Seq::empty(),
    }
}

/// ASCII contents are never cut inside a character.
pub proof fn law_ascii_contents_fit(current: Seq<char>, others: Files)
    requires
        is_ascii_chars(current),
        forall|i: int| 0 <= i < others.len() ==> is_ascii_chars((#[trigger] others[i]).1),
    ensures
        prompt_fits(current, others),
{
    chars::law_clip_ascii(current, MAX_FILE_BYTES as int);
    assert forall|i: int| 0 <= i < others.len() implies chars::cuts_cleanly(
        (#[trigger] others[i]).1,
        MAX_OTHER_BYTES as int,
    ) by {
        chars::law_clip_ascii(others[i].1, MAX_OTHER_BYTES as int);
    }
}

/// A prompt asks for edits of a file that has a content and for the full
/// content of any other.
pub proof fn law_format_follows_content(finding: FindingView, current: Seq<char>, others: Files)
    ensures
        current.len() > 0 ==> EXISTING_FILE_FORMAT@.is_suffix_of(
            generation_prompt(finding, current, others),
        ),
        current.len() == 0 ==> NEW_FILE_FORMAT@.is_suffix_of(
            generation_prompt(finding, current, others),
        ),
{
    let prompt = generation_prompt(finding, current, others);
    let form = if current.len() > 0 {
        EXISTING_FILE_FORMAT@
    } else {
        NEW_FILE_FORMAT@
    };
    assert(prompt.skip(prompt.len() - form.len()) =~= form);
}

/// `part` stands between what is before and behind it.
proof fn lemma_part(a: Seq<char>, part: Seq<char>, b: Seq<char>)
    ensures
        chars::contains(a + part + b, part),
{
    law_contains_iff_written_around(a + part + b, part);
    assert(a + part + b == a + part + b);
}

/// A prompt names the finding, word for word: its title, severity, file,
/// description and, if it has one, suggestion.
pub proof fn law_prompt_names_finding(finding: FindingView, current: Seq<char>, others: Files)
    ensures
        ({
            let head = "## Task\nFix this issue.\n\n## Finding\n- **Title**: "@ + finding.title
                + "\n- **Severity**: "@ + finding.severity.label()@ + "\n- **File**: "@
                + finding.file_path + "\n- **Description**: "@ + finding.description + "\n"@;
            let prompt = generation_prompt(finding, current, others);
            &&& head.is_prefix_of(prompt)
            &&& finding.suggestion matches Some(suggestion) ==> (head + "- **Suggestion**: "@
                + suggestion + "\n"@).is_prefix_of(prompt)
        }),
{
    let head = "## Task\nFix this issue.\n\n## Finding\n- **Title**: "@ + finding.title
        + "\n- **Severity**: "@ + finding.severity.label()@ + "\n- **File**: "@ + finding.file_path
        + "\n- **Description**: "@ + finding.description + "\n"@;
    let prompt = generation_prompt(finding, current, others);
    assert(head =~= prompt.subrange(0, head.len() as int));
    if let Some(suggestion) = finding.suggestion {
        let more = head + "- **Suggestion**: "@ + suggestion + "\n"@;
        assert(finding_section(finding) =~= more);
        assert(more =~= prompt.subrange(0, more.len() as int));
    }
}

/// A prompt shows each other file under its path, up to 3000 bytes of it, in
/// order, and says how many there are; without other files it says nothing of
/// any.
pub proof fn law_prompt_shows_other_files(
    finding: FindingView,
    current: Seq<char>,
    a: Files,
    b: Files,
)
    ensures
        other_files(a + b) == other_files(a) + other_files(b),
        a.len() == 1 ==> other_files(a) == "### "@ + a[0].0 + "\n```\n"@ + chars::clip(a[0].1, 3000)
            + "\n```\n\n"@,
        other_files(Seq::empty()) == Seq::<char>::empty(),
        a.len() > 0 ==> chars::contains(
            generation_prompt(finding, current, a),
            "\n## IMPORTANT: Same issue in "@ + chars::decimal(a.len())
                + " OTHER file(s)\nFix ALL instances across ALL files in a single contribution.\n\n"@
                + other_files(a),
        ),
        a.len() == 0 ==> generation_prompt(finding, current, a) == finding_section(finding)
            + format_section(finding.file_path, current),
    decreases b.len(),
{
    if b.len() == 0 {
        assert(a + b =~= a);
        assert(other_files(a) + other_files(b) =~= other_files(a));
    } else {
        law_prompt_shows_other_files(finding, current, a, b.drop_last());
        assert((a + b).drop_last() =~= a + b.drop_last());
        assert((a + b).last() == b.last());
        assert(other_files(a + b) =~= other_files(a) + other_files(b));
    }
    if a.len() == 1 {
        assert(a.drop_last() =~= Seq::empty());
        assert(other_files(a.drop_last()) =~= Seq::empty());
        assert(other_files(a) =~= "### "@ + a[0].0 + "\n```\n"@ + chars::clip(a[0].1, 3000)
            + "\n```\n\n"@);
    }
    if a.len() > 0 {
        lemma_part(
            finding_section(finding),
            cross_section(a),
            format_section(finding.file_path, current),
        );
    } else {
        assert(finding_section(finding) + Seq::<char>::empty() =~= finding_section(finding));
    }
}

/// A prompt shows the file to change under its path, up to 6000 bytes of it; of
/// a file without content it shows nothing.
pub proof fn law_prompt_shows_file(finding: FindingView, current: Seq<char>, others: Files)
    ensures
        ({
            let prompt = generation_prompt(finding, current, others);
            let asked = "\n## Output Format\nReturn your changes as a JSON object.\n\n"@;
            &&& current.len() > 0 ==> (asked + "## Current File Content ("@ + finding.file_path
                + ")\n```\n"@ + chars::clip(current, 6000) + "\n```\n\n"@
                + EXISTING_FILE_FORMAT@).is_suffix_of(prompt)
            &&& current.len() == 0 ==> (asked + NEW_FILE_FORMAT@).is_suffix_of(prompt)
        }),
{
    let prompt = generation_prompt(finding, current, others);
    let tail = format_section(finding.file_path, current);
    let asked = "\n## Output Format\nReturn your changes as a JSON object.\n\n"@;
    assert(tail =~= prompt.subrange(prompt.len() - tail.len(), prompt.len() as int));
    if current.len() > 0 {
        assert(tail =~= asked + "## Current File Content ("@ + finding.file_path + ")\n```\n"@
            + chars::clip(current, 6000) + "\n```\n\n"@ + EXISTING_FILE_FORMAT@);
    }
}

/// A system prompt holds the rules, then the style where one is known, then the
/// repository and its language, which is `unknown` where it is not known.
pub proof fn law_system_prompt_parts(
    full_name: Seq<char>,
    language: Option<Seq<char>>,
    style: Option<Seq<char>>,
)
    ensures
        ({
            let prompt = system_prompt(full_name, language, style);
            let spoken = match language {
                Some(l) => l,
                None => "unknown"@,
            };
            let tail = "\nREPOSITORY: "@ + full_name + "\nLanguage: "@ + spoken + "\n"@;
            &&& style is None ==> prompt == SYSTEM_RULES@ + tail
            &&& style matches Some(s) ==> prompt == SYSTEM_RULES@ + ("\nCODEBASE STYLE:\n"@ + s
                + "\nYou MUST match these conventions exactly.\n"@) + tail
        }),
{
    let prompt = system_prompt(full_name, language, style);
    let spoken = match language {
        Some(l) => l,
        None => "unknown"@,
    };
    let tail = "\nREPOSITORY: "@ + full_name + "\nLanguage: "@ + spoken + "\n"@;
    match style {
        Some(s) => {
            assert(prompt =~= SYSTEM_RULES@ + ("\nCODEBASE STYLE:\n"@ + s
                + "\nYou MUST match these conventions exactly.\n"@) + tail);
        },
        None => {
            assert(prompt =~= SYSTEM_RULES@ + tail);
        },
    }
}

/// A prompt speaks of the finding, then of the other files, then of the answer,
/// and of nothing else.
pub proof fn law_prompt_is_three_parts(finding: FindingView, current: Seq<char>, others: Files)
    ensures
        generation_prompt(finding, current, others) == ("## Task\nFix this issue.\n\n## Finding\n- **Title**: "@
            + finding.title + "\n- **Severity**: "@ + finding.severity.label()@ + "\n- **File**: "@
            + finding.file_path + "\n- **Description**: "@ + finding.description + "\n"@ + (
        match finding.suggestion {
            Some(suggestion) => "- **Suggestion**: "@ + suggestion + "\n"@,
            None => Seq::empty(),
        })) + (if others.len() == 0 {
            Seq::empty()
        } else {
            "\n## IMPORTANT: Same issue in "@ + chars::decimal(others.len())
                + " OTHER file(s)\nFix ALL instances across ALL files in a single contribution.\n\n"@
                + other_files(others)
        }) + ("\n## Output Format\nReturn your changes as a JSON object.\n\n"@ + (
        if current.len() == 0 {
            NEW_FILE_FORMAT@
        } else {
            "## Current File Content ("@ + finding.file_path + ")\n```\n"@ + chars::clip(
                current,
                6000,
            ) + "\n```\n\n"@ + EXISTING_FILE_FORMAT@
        })),
{
}

/// The content that a prompt shows is that of the finding's own file, if it is
/// known.
pub proof fn law_current_content(finding: FindingView, files: Files)
    ensures
        lookup(files, finding.file_path) matches Some(content) ==> current_content(finding, files)
            == content,
        lookup(files, finding.file_path) is None ==> current_content(finding, files).len() == 0,
{
}

/// A prompt can be made exactly where the file to change can be cut at 6000
/// bytes and each other file at 3000.
pub proof fn law_prompt_fits_iff(current: Seq<char>, others: Files)
    ensures
        prompt_fits(current, others) <==> chars::cuts_cleanly(current, 6000) && forall|i: int|
            0 <= i < others.len() ==> chars::cuts_cleanly((#[trigger] others[i]).1, 3000),
{
}

/// What a prompt says of a finding.
fn finding_text(finding: &Finding) -> (r: String)
    ensures
        r@ == finding_section(finding@),
{
    let mut out = "## Task\nFix this issue.\n\n## Finding\n- **Title**: ".to_owned();
    out.append(finding.title.as_str());
    out.append("\n- **Severity**: ");
    out.append(finding.severity.as_str());
    out.append("\n- **File**: ");
    out.append(finding.file_path.as_str());
    out.append("\n- **Description**: ");
    out.append(finding.description.as_str());
    out.append("\n");
    let ghost early = out@;
    match &finding.suggestion {
        Some(s) => {
            out.append("- **Suggestion**: ");
            out.append(s.as_str());
            out.append("\n");
            assert(out@ =~= early + ("- **Suggestion**: "@ + s@ + "\n"@));
        },
        None => {
            assert(out@ =~= early + Seq::<char>::empty());
        },
    }
    out
}

/// What a prompt says of the other files with the same issue.
fn cross_text(files: &FileMap) -> (r: String)
    requires
        forall|i: int|
            0 <= i < files@.len() ==> chars::cuts_cleanly(
                (#[trigger] files@[i]).1,
                MAX_OTHER_BYTES as int,
            ),
    ensures
        r@ == cross_section(files@),
{
    if files.is_empty() {
        return String::new();
    }
    let mut out = "\n## IMPORTANT: Same issue in ".to_owned();
    out.append(text::decimal(files.len()).as_str());
    out.append(
        " OTHER file(s)\nFix ALL instances across ALL files in a single contribution.\n\n",
    );
    let ghost head = out@;
    let ghost all = files@;
    let mut i: usize = 0;
    assert(all.take(0) =~= Seq::empty());
    assert(out@ =~= head + other_files(all.take(0)));
    while i < files.len()
        invariant
            i <= all.len(),
            all == files@,
            forall|k: int|
                0 <= k < all.len() ==> chars::cuts_cleanly(
                    (#[trigger] all[k]).1,
                    MAX_OTHER_BYTES as int,
                ),
            out@ == head + other_files(all.take(i as int)),
        decreases all.len() - i,
    {
        assert(all.take(i + 1).drop_last() =~= all.take(i as int));
        assert(all.take(i + 1).last() == all[i as int]);
        out.append("### ");
        out.append(files.path(i).as_str());
        out.append("\n```\n");
        out.append(text::clip(files.content(i).as_str(), MAX_OTHER_BYTES).as_str());
        out.append("\n```\n\n");
        i += 1;
        assert(out@ =~= head + other_files(all.take(i as int)));
    }
    assert(all.take(i as int) =~= all);
    out
}

/// What a prompt says of the form of the answer.
fn format_text(path: &str, current: &str) -> (r: String)
    requires
        chars::cuts_cleanly(current@, MAX_FILE_BYTES as int),
    ensures
        r@ == format_section(path@, current@),
{
    let mut out = "\n## Output Format\nReturn your changes as a JSON object.\n\n".to_owned();
    let ghost head = out@;
    if current.is_empty() {
        out.append(NEW_FILE_FORMAT);
    } else {
        let mut shown = "## Current File Content (".to_owned();
        shown.append(path);
        shown.append(")\n```\n");
        shown.append(text::clip(current, MAX_FILE_BYTES).as_str());
        shown.append("\n```\n\n");
        shown.append(EXISTING_FILE_FORMAT);
        out.append(shown.as_str());
    }
    out
}

/// The prompt for a finding, given the content of its file and the other files
/// with the same issue.
pub fn compose_generation_prompt(finding: &Finding, current: &str, others: &FileMap) -> (r: String)
    requires
        prompt_fits(current@, others@),
    ensures
        r@ == generation_prompt(finding@, current@, others@),
{
    let mut out = finding_text(finding);
    out.append(cross_text(others).as_str());
    out.append(format_text(finding.file_path.as_str(), current).as_str());
    out
}

/// Whether no content is cut inside a character.
pub fn check_prompt_fits(current: &str, others: &FileMap) -> (r: bool)
    ensures
        r == prompt_fits(current@, others@),
{
    if !text::cuts_cleanly(current, MAX_FILE_BYTES) {
        return false;
    }
    let mut i: usize = 0;
    while i < others.len()
        invariant
            i <= others@.len(),
            chars::cuts_cleanly(current@, MAX_FILE_BYTES as int),
            forall|k: int|
                0 <= k < i ==> chars::cuts_cleanly(
                    (#[trigger] others@[k]).1,
                    MAX_OTHER_BYTES as int,
                ),
        decreases others@.len() - i,
    {
        if !text::cuts_cleanly(others.content(i).as_str(), MAX_OTHER_BYTES) {
            assert(!chars::cuts_cleanly(others@[i as int].1, MAX_OTHER_BYTES as int));
            return false;
        }
        i += 1;
    }
    true
}

/// The content of the file of a finding, which is empty where it is not known.
fn content_for(finding: &Finding, context: &RepoContext) -> (r: String)
    ensures
        r@ == current_content(finding@, context.relevant_files@),
{
    match context.relevant_files.get(finding.file_path.as_str()) {
        Some(content) => content.clone(),
        None => String::new(),
    }
}

impl<'a> ContributionGenerator<'a> {
    /// The system prompt for a repository.
    pub fn build_system_prompt(&self, context: &RepoContext) -> (r: String)
        ensures
            r@ == system_prompt(
                context.repo.full_name@,
                opt_view(context.repo.language),
                opt_view(context.coding_style),
            ),
    {
        let mut out = SYSTEM_RULES.to_owned();
        match &context.coding_style {
            Some(style) => {
                let mut section = "\nCODEBASE STYLE:\n".to_owned();
                section.append(style.as_str());
                section.append("\nYou MUST match these conventions exactly.\n");
                out.append(section.as_str());
            },
            None => {
                assert(out@ =~= SYSTEM_RULES@ + Seq::<char>::empty());
            },
        }
        out.append("\nREPOSITORY: ");
        out.append(context.repo.full_name.as_str());
        out.append("\nLanguage: ");
        match &context.repo.language {
            Some(language) => out.append(language.as_str()),
            None => out.append("unknown"),
        }
        out.append("\n");
        out
    }

    /// The prompt for a finding.
    ///
    /// No content that the prompt shows may be cut inside a character; see
    /// [`Self::try_generation_prompt`] for contents of which this is not known.
    pub fn build_generation_prompt(&self, finding: &Finding, context: &RepoContext) -> (r: String)
        requires
            prompt_fits(
                current_content(finding@, context.relevant_files@),
                cross_files(finding@, context.relevant_files@),
            ),
        ensures
            r@ == generation_prompt(
                finding@,
                current_content(finding@, context.relevant_files@),
                cross_files(finding@, context.relevant_files@),
            ),
    {
        let current = content_for(finding, context);
        let others = self.find_cross_file_instances(finding, context);
        compose_generation_prompt(finding, current.as_str(), &others)
    }

    /// The prompt for a finding, unless a content that it shows would be cut
    /// inside a character.
    pub fn try_generation_prompt(&self, finding: &Finding, context: &RepoContext) -> (r: Option<
        String,
    >)
        ensures
            ({
                let current = current_content(finding@, context.relevant_files@);
                let others = cross_files(finding@, context.relevant_files@);
                match r {
                    Some(prompt) => prompt_fits(current, others) && prompt@ == generation_prompt(
                        finding@,
                        current,
                        others,
                    ),
                    None => !prompt_fits(current, others),
                }
            }),
    {
        let current = content_for(finding, context);
        let others = self.find_cross_file_instances(finding, context);
        if check_prompt_fits(current.as_str(), &others) {
            Some(self.build_generation_prompt(finding, context))
        } else {
            None
        }
    }
}

} // verus!
