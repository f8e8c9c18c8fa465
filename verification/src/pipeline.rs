//! The way from a finding to a contribution.
//!
//! A language model is asked for changes, at most twice, and then, where the
//! review is switched on, whether the contribution is good. Whoever drives the
//! pipeline carries out each [`Action`] and hands back the [`Event`] that came
//! of it; everything that is decided in between is decided here.

use vstd::prelude::*;
use crate::case::lower;
use crate::changes::reply_changes;
use crate::chars;
use crate::cross_files::cross_files;
use crate::generator::ContributionGenerator;
use crate::guidelines::RepoGuidelines;
use crate::models::{
    change_views, opt_view, ChangeView, Contribution, ContributionView, FileChange, Files, Finding,
    FindingView, RepoContext, Timestamp,
};
use crate::naming::{branch_name, commit_message, pr_title, MAX_SUBJECT};
use crate::outside::current_time;
use crate::prompts::{current_content, generation_prompt, prompt_fits, system_prompt};
use crate::review::{approves, review_fits, review_prompt};
use crate::validate::are_sound;

verus! {

/// The temperature of a request for changes, in tenths.
pub const DRAFT_TEMPERATURE: u32 = 2;

/// The temperature of a request for a review, in tenths.
pub const REVIEW_TEMPERATURE: u32 = 1;

/// Why a reply was not taken: its changes are broken.
pub const UNSOUND: &'static str = "Generated code failed syntax validation \
     (unbalanced brackets or empty edits)";

/// Why a reply was not taken: it holds no changes.
pub const UNREADABLE: &'static str = "No valid changes could be parsed from JSON output";

/// A request to the language model.
#[derive(Debug)]
pub struct LlmRequest {
    pub prompt: String,
    pub system: Option<String>,
    /// The temperature in tenths.
    pub temperature_tenths: u32,
}

/// What an [`LlmRequest`] says.
#[verifier::ext_equal]
pub struct RequestView {
    pub prompt: Seq<char>,
    pub system: Option<Seq<char>>,
    pub temperature_tenths: u32,
}

impl View for LlmRequest {
    type V = RequestView;

    open spec fn view(&self) -> RequestView {
        RequestView {
            prompt: self.prompt@,
            system: opt_view(self.system),
            temperature_tenths: self.temperature_tenths,
        }
    }
}

/// How far a run has come.
#[derive(Debug)]
pub enum Progress {
    /// Nothing was asked yet.
    Fresh,
    /// Changes were asked for with these prompts; `retried` says whether for
    /// the second time.
    Drafting { retried: bool, prompt: String, system: String },
    /// A review of the contribution was asked for.
    Reviewing { contribution: Contribution },
    /// The run is over.
    Finished,
}

/// What a [`Progress`] says.
#[verifier::ext_equal]
pub enum ProgressView {
    Fresh,
    Drafting { retried: bool, prompt: Seq<char>, system: Seq<char> },
    Reviewing { contribution: ContributionView },
    Finished,
}

impl View for Progress {
    type V = ProgressView;

    open spec fn view(&self) -> ProgressView {
        match self {
            Progress::Fresh => ProgressView::Fresh,
            Progress::Drafting { retried, prompt, system } => ProgressView::Drafting {
                retried: *retried,
                prompt: prompt@,
                system: system@,
            },
            Progress::Reviewing { contribution } => ProgressView::Reviewing {
                contribution: contribution@,
            },
            Progress::Finished => ProgressView::Finished,
        }
    }
}

/// What happened.
#[derive(Debug)]
pub enum Event {
    /// The run begins.
    Start,
    /// The language model replied.
    Reply(String),
    /// The language model could not be reached.
    Failed,
}

/// What an [`Event`] says.
#[verifier::ext_equal]
pub enum EventView {
    Start,
    Reply(Seq<char>),
    Failed,
}

impl View for Event {
    type V = EventView;

    open spec fn view(&self) -> EventView {
        match self {
            Event::Start => EventView::Start,
            Event::Reply(text) => EventView::Reply(text@),
            Event::Failed => EventView::Failed,
        }
    }
}

/// What is to be done.
#[derive(Debug)]
pub enum Action {
    /// Ask the language model.
    Complete(LlmRequest),
    /// End the run with this contribution, or without one.
    Return(Option<Contribution>),
    /// End the run with the failure of the language model.
    Fail,
    /// End the run: a text would have to be cut inside a character, or the
    /// event does not belong here.
    Refuse,
}

/// What an [`Action`] says.
#[verifier::ext_equal]
pub enum ActionView {
    Complete(RequestView),
    Return(Option<ContributionView>),
    Fail,
    Refuse,
}

impl View for Action {
    type V = ActionView;

    open spec fn view(&self) -> ActionView {
        match self {
            Action::Complete(request) => ActionView::Complete(request@),
            Action::Return(Some(contribution)) => ActionView::Return(Some(contribution@)),
            Action::Return(None) => ActionView::Return(None),
            Action::Fail => ActionView::Fail,
            Action::Refuse => ActionView::Refuse,
        }
    }
}

/// What a run is about.
#[verifier::ext_equal]
pub struct JobView {
    pub finding: FindingView,
    pub files: Files,
    pub full_name: Seq<char>,
    pub language: Option<Seq<char>>,
    pub style: Option<Seq<char>>,
    /// The title of the contribution.
    pub title: Seq<char>,
    /// How many files may change.
    pub max_changes: int,
    /// Whether a review is asked for.
    pub reviewed: bool,
}

/// The prompt that asks for changes once more.
pub open spec fn retry_prompt(prompt: Seq<char>, error: Seq<char>) -> Seq<char> {
    prompt + "\n\n## IMPORTANT: Your previous attempt failed.\nError: "@ + error + "\nPlease fix the issue and return ONLY valid JSON with no markdown fences or extra text."@
}

/// A request for changes.
pub open spec fn draft_request(prompt: Seq<char>, system: Seq<char>) -> ActionView {
    ActionView::Complete(
        RequestView { prompt, system: Some(system), temperature_tenths: DRAFT_TEMPERATURE },
    )
}

/// A request for a review.
pub open spec fn review_request(prompt: Seq<char>) -> ActionView {
    ActionView::Complete(
        RequestView { prompt, system: None, temperature_tenths: REVIEW_TEMPERATURE },
    )
}

/// The run ends with `action`.
pub open spec fn ends(action: ActionView) -> (ProgressView, ActionView) {
    (ProgressView::Finished, action)
}

/// The first request.
pub open spec fn started(job: JobView) -> (ProgressView, ActionView) {
    let current = current_content(job.finding, job.files);
    let others = cross_files(job.finding, job.files);
    if prompt_fits(current, others) {
        let prompt = generation_prompt(job.finding, current, others);
        let system = system_prompt(job.full_name, job.language, job.style);
        (ProgressView::Drafting { retried: false, prompt, system }, draft_request(prompt, system))
    } else {
        ends(ActionView::Refuse)
    }
}

/// The contribution that sound changes make.
pub open spec fn contribution_of(
    job: JobView,
    changes: Seq<ChangeView>,
    now: Timestamp,
) -> ContributionView {
    ContributionView {
        finding: job.finding,
        contribution_type: job.finding.finding_type,
        title: job.title,
        description: job.finding.description,
        changes,
        commit_message: commit_message(job.finding, lower(job.finding.title), changes),
        tests_added: Seq::empty(),
        branch_name: branch_name(job.finding),
        generated_at: now,
    }
}

/// What follows once there are sound changes.
pub open spec fn drafted(job: JobView, changes: Seq<ChangeView>, now: Timestamp) -> (
    ProgressView,
    ActionView,
) {
    let contribution = contribution_of(job, changes, now);
    if !chars::cuts_cleanly(lower(job.finding.title), MAX_SUBJECT as int) {
        ends(ActionView::Refuse)
    } else if !job.reviewed {
        ends(ActionView::Return(Some(contribution)))
    } else if !review_fits(changes, job.files) {
        ends(ActionView::Refuse)
    } else {
        (
            ProgressView::Reviewing { contribution },
            review_request(review_prompt(contribution, job.files)),
        )
    }
}

/// What follows a reply that cannot be taken.
pub open spec fn missed(
    retried: bool,
    prompt: Seq<char>,
    system: Seq<char>,
    error: Seq<char>,
) -> (ProgressView, ActionView) {
    if retried {
        ends(ActionView::Return(None))
    } else {
        (
            ProgressView::Drafting { retried: true, prompt, system },
            draft_request(retry_prompt(prompt, error), system),
        )
    }
}

/// What follows a reply to a request for changes, given the changes that were
/// read from it.
pub open spec fn replied(
    job: JobView,
    retried: bool,
    prompt: Seq<char>,
    system: Seq<char>,
    changes: Option<Seq<ChangeView>>,
    now: Timestamp,
) -> (ProgressView, ActionView) {
    match changes {
        Some(changes) => if are_sound(changes) {
            drafted(job, changes, now)
        } else {
            missed(retried, prompt, system, UNSOUND@)
        },
        None => missed(retried, prompt, system, UNREADABLE@),
    }
}

/// One step of a run.
pub open spec fn stepped(
    job: JobView,
    progress: ProgressView,
    event: EventView,
    now: Timestamp,
) -> (ProgressView, ActionView) {
    match (progress, event) {
        (ProgressView::Fresh, EventView::Start) => started(job),
        (ProgressView::Drafting { retried, prompt, system }, EventView::Reply(reply)) => replied(
            job,
            retried,
            prompt,
            system,
            reply_changes(reply, job.files, job.max_changes),
            now,
        ),
        (ProgressView::Drafting { .. }, EventView::Failed) => ends(ActionView::Fail),
        (ProgressView::Reviewing { contribution }, EventView::Reply(answer)) => if approves(
            answer,
        ) {
            ends(ActionView::Return(Some(contribution)))
        } else {
            ends(ActionView::Return(None))
        },
        (ProgressView::Reviewing { contribution }, EventView::Failed) => ends(
            ActionView::Return(Some(contribution)),
        ),
        _ => ends(ActionView::Refuse),
    }
}

/// How many more requests for changes a run can make.
pub open spec fn drafts_left(progress: ProgressView) -> nat {
    match progress {
        ProgressView::Fresh => 2,
        ProgressView::Drafting { retried, .. } => if retried {
            0
        } else {
            1
        },
        _ => 0,
    }
}

/// How many more requests for a review a run can make.
pub open spec fn reviews_left(progress: ProgressView) -> nat {
    match progress {
        ProgressView::Fresh | ProgressView::Drafting { .. } => 1,
        _ => 0,
    }
}

/// How many of the actions ask for changes: those with a system prompt.
pub open spec fn draft_count(actions: Seq<ActionView>) -> nat
    decreases actions.len(),
{
    if actions.len() == 0 {
        0
    } else {
        draft_count(actions.drop_first()) + match actions[0] {
            ActionView::Complete(request) => if request.system is Some {
                1nat
            } else {
                0nat
            },
            _ => 0nat,
        }
    }
}

/// How many of the actions ask the language model for anything.
pub open spec fn request_count(actions: Seq<ActionView>) -> nat
    decreases actions.len(),
{
    if actions.len() == 0 {
        0
    } else {
        request_count(actions.drop_first()) + if actions[0] is Complete {
            1nat
        } else {
            0nat
        }
    }
}

/// The actions of a run in which the events happen one after the other, each at
/// its time.
pub open spec fn run(
    job: JobView,
    progress: ProgressView,
    events: Seq<(EventView, Timestamp)>,
) -> Seq<ActionView>
    decreases events.len(),
{
    if events.len() == 0 {
        Seq::empty()
    } else {
        let (next, action) = stepped(job, progress, events[0].0, events[0].1);
        seq![action] + run(job, next, events.drop_first())
    }
}

/// Whatever happens, a run asks for changes at most twice, and for a review at
/// most once.
pub proof fn law_requests_limited(job: JobView, events: Seq<(EventView, Timestamp)>)
    ensures
        draft_count(run(job, ProgressView::Fresh, events)) <= 2,
        request_count(run(job, ProgressView::Fresh, events)) <= 3,
{
    lemma_requests_limited(job, ProgressView::Fresh, events);
}

proof fn lemma_requests_limited(
    job: JobView,
    progress: ProgressView,
    events: Seq<(EventView, Timestamp)>,
)
    ensures
        draft_count(run(job, progress, events)) <= drafts_left(progress),
        request_count(run(job, progress, events)) <= drafts_left(progress) + reviews_left(progress),
    decreases events.len(),
{
    if events.len() > 0 {
        let (next, action) = stepped(job, progress, events[0].0, events[0].1);
        let rest = run(job, next, events.drop_first());
        lemma_requests_limited(job, next, events.drop_first());
        assert((seq![action] + rest).drop_first() =~= rest);
    }
}

/// The contribution is made of sound changes, for the job at hand.
pub open spec fn is_result(job: JobView, contribution: ContributionView) -> bool {
    &&& are_sound(contribution.changes)
    &&& contribution == contribution_of(job, contribution.changes, contribution.generated_at)
}

/// Every contribution that a run comes up with is made of sound changes, for
/// the job at hand.
pub proof fn law_results_are_sound(job: JobView, events: Seq<(EventView, Timestamp)>, i: int)
    requires
        0 <= i < run(job, ProgressView::Fresh, events).len(),
    ensures
        run(job, ProgressView::Fresh, events)[i] matches ActionView::Return(
            Some(contribution),
        ) ==> is_result(job, contribution),
{
    lemma_results_are_sound(job, ProgressView::Fresh, events, i);
}

proof fn lemma_results_are_sound(
    job: JobView,
    progress: ProgressView,
    events: Seq<(EventView, Timestamp)>,
    i: int,
)
    requires
        0 <= i < run(job, progress, events).len(),
        progress matches ProgressView::Reviewing { contribution } ==> is_result(job, contribution),
    ensures
        run(job, progress, events)[i] matches ActionView::Return(Some(contribution)) ==> is_result(
            job,
            contribution,
        ),
    decreases events.len(),
{
    if events.len() > 0 {
        let (next, action) = stepped(job, progress, events[0].0, events[0].1);
        if i > 0 {
            lemma_results_are_sound(job, next, events.drop_first(), i - 1);
        }
    }
}

/// Nothing that a prompt or a message shows is cut inside a character.
pub open spec fn job_fits(job: JobView) -> bool {
    &&& prompt_fits(current_content(job.finding, job.files), cross_files(job.finding, job.files))
    &&& chars::cuts_cleanly(lower(job.finding.title), MAX_SUBJECT as int)
}

/// Two replies without changes end a run without a contribution, after two
/// requests.
pub proof fn law_two_misses_give_nothing(
    job: JobView,
    first: Seq<char>,
    second: Seq<char>,
    now: Timestamp,
)
    requires
        job_fits(job),
        reply_changes(first, job.files, job.max_changes) is None,
        reply_changes(second, job.files, job.max_changes) is None,
    ensures
        ({
            let (asked, request) = stepped(job, ProgressView::Fresh, EventView::Start, now);
            let (again, retry) = stepped(job, asked, EventView::Reply(first), now);
            &&& request is Complete
            &&& retry is Complete
            &&& stepped(job, again, EventView::Reply(second), now) == ends(
                ActionView::Return(None),
            )
        }),
{
}

/// Without the review, the first reply with sound changes ends a run with the
/// contribution that they make.
pub proof fn law_sound_reply_gives_contribution(
    job: JobView,
    reply: Seq<char>,
    changes: Seq<ChangeView>,
    now: Timestamp,
)
    requires
        job_fits(job),
        !job.reviewed,
        reply_changes(reply, job.files, job.max_changes) == Some(changes),
        are_sound(changes),
    ensures
        ({
            let (asked, request) = stepped(job, ProgressView::Fresh, EventView::Start, now);
            stepped(job, asked, EventView::Reply(reply), now) == ends(
                ActionView::Return(Some(contribution_of(job, changes, now))),
            )
        }),
{
}

/// A review lets a contribution pass exactly where the answer approves it; a
/// review that fails lets it pass too.
pub proof fn law_review_is_a_gate(
    job: JobView,
    contribution: ContributionView,
    answer: Seq<char>,
    now: Timestamp,
)
    ensures
        ({
            let reviewing = ProgressView::Reviewing { contribution };
            let passed = ends(ActionView::Return(Some(contribution)));
            &&& (stepped(job, reviewing, EventView::Reply(answer), now) == passed) == approves(
                answer,
            )
            &&& !approves(answer) ==> stepped(job, reviewing, EventView::Reply(answer), now)
                == ends(ActionView::Return(None))
            &&& stepped(job, reviewing, EventView::Failed, now) == passed
        }),
{
}

/// Where the language model fails to answer a request for changes, the run
/// fails.
pub proof fn law_draft_failure_ends_run(
    job: JobView,
    retried: bool,
    prompt: Seq<char>,
    system: Seq<char>,
    now: Timestamp,
)
    ensures
        stepped(
            job,
            ProgressView::Drafting { retried, prompt, system },
            EventView::Failed,
            now,
        ) == ends(ActionView::Fail),
{
}

/// A run begins with a request for changes: the prompt for the finding, with the
/// content of its file and the other files like it, and the system prompt for
/// the repository, at a temperature of two tenths.
pub proof fn law_run_begins_with_request(job: JobView, now: Timestamp)
    requires
        prompt_fits(current_content(job.finding, job.files), cross_files(job.finding, job.files)),
    ensures
        ({
            let prompt = generation_prompt(
                job.finding,
                current_content(job.finding, job.files),
                cross_files(job.finding, job.files),
            );
            let system = system_prompt(job.full_name, job.language, job.style);
            stepped(job, ProgressView::Fresh, EventView::Start, now) == (
                ProgressView::Drafting { retried: false, prompt, system },
                ActionView::Complete(
                    RequestView { prompt, system: Some(system), temperature_tenths: 2 },
                ),
            )
        }),
{
}

/// A first reply that cannot be taken is answered with the same prompt once
/// more, with the reason behind it: that no changes could be read from it, or
/// that its changes are not sound.
pub proof fn law_first_miss_is_asked_again(
    job: JobView,
    prompt: Seq<char>,
    system: Seq<char>,
    reply: Seq<char>,
    now: Timestamp,
)
    requires
        reply_changes(reply, job.files, job.max_changes) matches Some(changes) ==> !are_sound(
            changes,
        ),
    ensures
        ({
            let error = if reply_changes(reply, job.files, job.max_changes) is None {
                "No valid changes could be parsed from JSON output"@
            } else {
                "Generated code failed syntax validation (unbalanced brackets or empty edits)"@
            };
            let again = prompt + "\n\n## IMPORTANT: Your previous attempt failed.\nError: "@
                + error + "\nPlease fix the issue and return ONLY valid JSON with no markdown fences or extra text."@;
            stepped(
                job,
                ProgressView::Drafting { retried: false, prompt, system },
                EventView::Reply(reply),
                now,
            ) == (
                ProgressView::Drafting { retried: true, prompt, system },
                ActionView::Complete(
                    RequestView { prompt: again, system: Some(system), temperature_tenths: 2 },
                ),
            )
        }),
{
}

/// A second reply that cannot be taken ends the run without a contribution; one
/// that can is as good as a first one.
pub proof fn law_second_reply(
    job: JobView,
    prompt: Seq<char>,
    system: Seq<char>,
    reply: Seq<char>,
    now: Timestamp,
)
    ensures
        ({
            let second = stepped(
                job,
                ProgressView::Drafting { retried: true, prompt, system },
                EventView::Reply(reply),
                now,
            );
            let first = stepped(
                job,
                ProgressView::Drafting { retried: false, prompt, system },
                EventView::Reply(reply),
                now,
            );
            match reply_changes(reply, job.files, job.max_changes) {
                Some(changes) => if are_sound(changes) {
                    second == first
                } else {
                    second == (ProgressView::Finished, ActionView::Return(None))
                },
                None => second == (ProgressView::Finished, ActionView::Return(None)),
            }
        }),
{
}

/// What a contribution holds: the finding, what it says, the changes, and the
/// names made of them.
pub proof fn law_contribution_parts(job: JobView, changes: Seq<ChangeView>, now: Timestamp)
    ensures
        ({
            let c = contribution_of(job, changes, now);
            &&& c.finding == job.finding
            &&& c.contribution_type == job.finding.finding_type
            &&& c.title == job.title
            &&& c.description == job.finding.description
            &&& c.changes == changes
            &&& c.commit_message == commit_message(
                job.finding,
                lower(job.finding.title),
                changes,
            )
            &&& c.branch_name == branch_name(job.finding)
            &&& c.tests_added.len() == 0
            &&& c.generated_at == now
        }),
{
}

/// Where the review is switched on, sound changes are not handed out but asked
/// about: the review prompt for the contribution, without a system prompt, at a
/// temperature of one tenth.
pub proof fn law_sound_reply_is_reviewed(
    job: JobView,
    retried: bool,
    prompt: Seq<char>,
    system: Seq<char>,
    reply: Seq<char>,
    changes: Seq<ChangeView>,
    now: Timestamp,
)
    requires
        job.reviewed,
        reply_changes(reply, job.files, job.max_changes) == Some(changes),
        are_sound(changes),
        chars::cuts_cleanly(lower(job.finding.title), 50),
        review_fits(changes, job.files),
    ensures
        stepped(
            job,
            ProgressView::Drafting { retried, prompt, system },
            EventView::Reply(reply),
            now,
        ) == (
            ProgressView::Reviewing { contribution: contribution_of(job, changes, now) },
            ActionView::Complete(
                RequestView {
                    prompt: review_prompt(contribution_of(job, changes, now), job.files),
                    system: None,
                    temperature_tenths: 1,
                },
            ),
        ),
{
}

/// A run is refused where a prompt would have to cut a content inside a
/// character, where sound changes come for a title that cannot be cut at 50
/// bytes, and where they are to be reviewed and cannot be shown.
pub proof fn law_uncuttable_texts_refused(
    job: JobView,
    retried: bool,
    prompt: Seq<char>,
    system: Seq<char>,
    reply: Seq<char>,
    changes: Seq<ChangeView>,
    now: Timestamp,
)
    requires
        reply_changes(reply, job.files, job.max_changes) == Some(changes),
        are_sound(changes),
    ensures
        !prompt_fits(current_content(job.finding, job.files), cross_files(job.finding, job.files))
            ==> stepped(job, ProgressView::Fresh, EventView::Start, now) == (
            ProgressView::Finished,
            ActionView::Refuse,
        ),
        !chars::cuts_cleanly(lower(job.finding.title), 50) || (job.reviewed && !review_fits(
            changes,
            job.files,
        )) <==> stepped(
            job,
            ProgressView::Drafting { retried, prompt, system },
            EventView::Reply(reply),
            now,
        ) == (ProgressView::Finished, ActionView::Refuse),
{
}

/// A run that is over stays over, and an event that does not belong ends one.
pub proof fn law_misplaced_events_refused(
    job: JobView,
    progress: ProgressView,
    event: EventView,
    now: Timestamp,
)
    requires
        progress is Finished || (progress is Fresh) != (event is Start),
    ensures
        stepped(job, progress, event, now) == (ProgressView::Finished, ActionView::Refuse),
{
}

/// A run reads the finding, the files, the repository and the limit as they are
/// given, and the guidelines for the title alone.
pub proof fn law_job_parts(
    generator: ContributionGenerator,
    finding: Finding,
    context: RepoContext,
    guidelines: Option<&RepoGuidelines>,
)
    ensures
        ({
            let job = generator.job(&finding, &context, guidelines);
            &&& job.finding == finding@
            &&& job.files == context.relevant_files@
            &&& job.full_name == context.repo.full_name@
            &&& job.language == opt_view(context.repo.language)
            &&& job.style == opt_view(context.coding_style)
            &&& job.title == pr_title(finding@, guidelines)
            &&& job.max_changes == generator.config.max_changes_per_pr
            &&& job.reviewed == generator.self_review_enabled
        }),
{
}

impl<'a> ContributionGenerator<'a> {
    /// What a run of this generator is about.
    pub open spec fn job(
        &self,
        finding: &Finding,
        context: &RepoContext,
        guidelines: Option<&RepoGuidelines>,
    ) -> JobView {
        JobView {
            finding: finding@,
            files: context.relevant_files@,
            full_name: context.repo.full_name@,
            language: opt_view(context.repo.language),
            style: opt_view(context.coding_style),
            title: pr_title(finding@, guidelines),
            max_changes: self.config.max_changes_per_pr as int,
            reviewed: self.self_review_enabled,
        }
    }

    /// The first request.
    fn start(&self, finding: &Finding, context: &RepoContext) -> (r: (Progress, Action))
        ensures
            forall|guidelines: Option<&RepoGuidelines>|
                (r.0@, r.1@) == started(#[trigger] self.job(finding, context, guidelines)),
    {
        let system = self.build_system_prompt(context);
        match self.try_generation_prompt(finding, context) {
            Some(prompt) => {
                let request = LlmRequest {
                    prompt: prompt.clone(),
                    system: Some(system.clone()),
                    temperature_tenths: DRAFT_TEMPERATURE,
                };
                (Progress::Drafting { retried: false, prompt, system }, Action::Complete(request))
            },
            None => (Progress::Finished, Action::Refuse),
        }
    }

    /// What follows once there are sound changes.
    fn finish_draft(
        &self,
        finding: &Finding,
        context: &RepoContext,
        guidelines: Option<&RepoGuidelines>,
        changes: Vec<FileChange>,
        now: Timestamp,
    ) -> (r: (Progress, Action))
        ensures
            (r.0@, r.1@) == drafted(
                self.job(finding, context, guidelines),
                change_views(changes@),
                now,
            ),
    {
        let message = match self.try_commit_message(finding, changes.as_slice()) {
            Some(message) => message,
            None => {
                return (Progress::Finished, Action::Refuse);
            },
        };
        let ghost job = self.job(finding, context, guidelines);
        let ghost views = change_views(changes@);
        let contribution = Contribution {
            finding: finding.clone(),
            contribution_type: finding.finding_type,
            title: Self::generate_pr_title_with_guidelines(finding, guidelines),
            description: finding.description.clone(),
            changes,
            commit_message: message,
            tests_added: Vec::new(),
            branch_name: Self::generate_branch_name(finding),
            generated_at: now,
        };
        assert(contribution@ =~= contribution_of(job, views, now));
        if !self.self_review_enabled {
            return (Progress::Finished, Action::Return(Some(contribution)));
        }
        match self.build_review_prompt(&contribution, context) {
            Some(prompt) => {
                let request = LlmRequest {
                    prompt,
                    system: None,
                    temperature_tenths: REVIEW_TEMPERATURE,
                };
                (Progress::Reviewing { contribution }, Action::Complete(request))
            },
            None => (Progress::Finished, Action::Refuse),
        }
    }

    /// What follows a reply that cannot be taken.
    fn miss(retried: bool, prompt: String, system: String, error: &str) -> (r: (Progress, Action))
        ensures
            (r.0@, r.1@) == missed(retried, prompt@, system@, error@),
    {
        if retried {
            return (Progress::Finished, Action::Return(None));
        }
        let mut again = prompt.clone();
        again.append("\n\n## IMPORTANT: Your previous attempt failed.\nError: ");
        again.append(error);
        again.append(
            "\nPlease fix the issue and return ONLY valid JSON with no markdown fences or extra text.",
        );
        let request = LlmRequest {
            prompt: again,
            system: Some(system.clone()),
            temperature_tenths: DRAFT_TEMPERATURE,
        };
        (Progress::Drafting { retried: true, prompt, system }, Action::Complete(request))
    }

    /// What follows a reply to a request for changes, given the changes that
    /// were read from it.
    pub fn take_changes(
        &self,
        finding: &Finding,
        context: &RepoContext,
        guidelines: Option<&RepoGuidelines>,
        retried: bool,
        prompt: String,
        system: String,
        changes: Option<Vec<FileChange>>,
        now: Timestamp,
    ) -> (r: (Progress, Action))
        ensures
            (r.0@, r.1@) == replied(
                self.job(finding, context, guidelines),
                retried,
                prompt@,
                system@,
                match changes {
                    Some(changes) => Some(change_views(changes@)),
                    None => None,
                },
                now,
            ),
    {
        match changes {
            Some(changes) => {
                if self.validate_changes(changes.as_slice()) {
                    self.finish_draft(finding, context, guidelines, changes, now)
                } else {
                    Self::miss(retried, prompt, system, UNSOUND)
                }
            },
            None => Self::miss(retried, prompt, system, UNREADABLE),
        }
    }

    /// One step of a run, at the time `now`.
    pub fn step_at(
        &self,
        finding: &Finding,
        context: &RepoContext,
        guidelines: Option<&RepoGuidelines>,
        progress: Progress,
        event: Event,
        now: Timestamp,
    ) -> (r: (Progress, Action))
        ensures
            (r.0@, r.1@) == stepped(
                self.job(finding, context, guidelines),
                progress@,
                event@,
                now,
            ),
    {
        match (progress, event) {
            (Progress::Fresh, Event::Start) => self.start(finding, context),
            (Progress::Drafting { retried, prompt, system }, Event::Reply(reply)) => {
                let changes = self.parse_changes(reply.as_str(), context);
                self.take_changes(
                    finding,
                    context,
                    guidelines,
                    retried,
                    prompt,
                    system,
                    changes,
                    now,
                )
            },
            (Progress::Drafting { .. }, Event::Failed) => (Progress::Finished, Action::Fail),
            (Progress::Reviewing { contribution }, Event::Reply(answer)) => {
                if Self::review_approves(answer.as_str()) {
                    (Progress::Finished, Action::Return(Some(contribution)))
                } else {
                    (Progress::Finished, Action::Return(None))
                }
            },
            (Progress::Reviewing { contribution }, Event::Failed) => {
                (Progress::Finished, Action::Return(Some(contribution)))
            },
            _ => (Progress::Finished, Action::Refuse),
        }
    }

    /// One step of a run for a finding, now. The title of the contribution is
    /// adapted to the guidelines of the repository, where there are any.
    pub fn generate_with_guidelines(
        &self,
        finding: &Finding,
        context: &RepoContext,
        guidelines: Option<&RepoGuidelines>,
        progress: Progress,
        event: Event,
    ) -> (r: (Progress, Action))
        ensures
            exists|now: Timestamp|
                #![trigger stepped(
                    self.job(finding, context, guidelines),
                    progress@,
                    event@,
                    now,
                )]
                now.nanos < 1_000_000_000 && (r.0@, r.1@) == stepped(
                    self.job(finding, context, guidelines),
                    progress@,
                    event@,
                    now,
                ),
    {
        let now = current_time();
        self.step_at(finding, context, guidelines, progress, event, now)
    }

    /// One step of a run for a finding, now, without guidelines.
    pub fn generate(
        &self,
        finding: &Finding,
        context: &RepoContext,
        progress: Progress,
        event: Event,
    ) -> (r: (Progress, Action))
        ensures
            exists|now: Timestamp|
                #![trigger stepped(self.job(finding, context, None), progress@, event@, now)]
                now.nanos < 1_000_000_000 && (r.0@, r.1@) == stepped(
                    self.job(finding, context, None),
                    progress@,
                    event@,
                    now,
                ),
    {
        self.generate_with_guidelines(finding, context, None, progress, event)
    }
}

} // verus!
