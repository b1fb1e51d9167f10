//! Running one job: a repository, a ref and a prompt.
//!
//! A job is stateless. Its checkout is scratch and is discarded whatever
//! happened, including on failure; its branch is the whole durable output,
//! which is why work is committed and published *before* success is decided.

use crate::config::{find_provider, law_the_first_block_of_a_name_is_found, parse_duration,
    provider_named, ConfigError, ConfigErrorView, RepoConfig};
use crate::event::{EventKind, EventKindView, EventView};
use crate::exec::{run_command, run_shell, Invocation, InvocationView, ShellOutcome};
use crate::filepath::path_below;
use crate::git;
use crate::git::{commit_calls, commit_outcome, git_call, stat_of, CommitStep, DiffStat, GitCall,
    GitCallView, GitOutput, StatView, WorktreeStart};
use crate::lines::{is_blank, lines, nonblank, nonblank_lines, trim, trimmed};
use crate::number::{decimal, decimal_of, signed_decimal, signed_decimal_of};
use crate::paths::{job_worktrees, nowhere_to_record, record_repository_for_worktrees, recorded,
    JobMeta, JobPaths, Recorded, RecordedView};
use crate::provider::{render_command, rendered_args, CommandSpec};
use crate::report::{progress_of, rejection, DiffSummary};
use crate::state::{replayed, JobState};
use crate::text::{copy_texts, debug_text, opt_view, texts, views};
use crate::time::{humantime_parsed, Span, NANOS_PER_SEC};
use crate::workspace;
use crate::workspace::{branch_of, check_seeds, first_missing, job_branch_name, publish_next,
    seed_copies, seed_files, seed_paths, seed_sources, Checkout, CheckoutStep, CheckoutStepView,
    JobWorkspace, PublishStep, PublishStepView, SeedCopy, SeedCopyView};
use vstd::prelude::*;

verus! {

/// The parts of running a job that come from the machine rather than from the
/// repository's own configuration.
#[derive(Debug, Clone, PartialEq, Eq)]
pub struct RunOpts {
    /// The repository the checkout is created from.
    pub repo: String,
    /// Where `copy` paths resolve from.
    pub seed_from: String,
    /// The remote the job's branch is published to. A repository that has no
    /// remote by this name keeps its branch locally instead.
    pub remote: String,
    /// Where worktrees go, when there is somewhere.
    pub worktrees_root: Option<String>,
}

/// Whether a job's work was accepted. `verify` decides this when the
/// repository declares one; otherwise the agent's exit code does.
#[derive(Debug, Clone, Copy, PartialEq, Eq, Structural)]
pub enum JobOutcome {
    Passed,
    Failed,
}

impl JobOutcome {
    pub fn passed(self) -> (yes: bool)
        ensures
            yes == (self == JobOutcome::Passed),
    {
        match self {
            JobOutcome::Passed => true,
            JobOutcome::Failed => false,
        }
    }
}

/// One job: which prompt, run by which provider, against which ref.
#[derive(Debug, Clone, Copy)]
pub struct JobSpec<'a> {
    pub prompt: &'a str,
    pub provider: &'a str,
    pub base_ref: &'a str,
    /// 1 for a first attempt; higher for a revise round, which continues the
    /// job's own branch.
    pub round: u32,
}

/// What an agent left behind, recorded on the job's branch.
///
/// This is the whole durable output of a job. The checkout it was produced in
/// is gone by the time this is reported.
#[derive(Debug, PartialEq, Eq)]
pub struct AgentWork {
    pub branch: String,
    pub sha: String,
    pub stat: DiffStat,
    /// The remote the branch reached, or `None` for a repository with no such
    /// remote — or one that refused the push.
    pub pushed_to: Option<String>,
}

pub struct AgentWorkView {
    pub branch: Seq<char>,
    pub sha: Seq<char>,
    pub stat: DiffStat,
    pub pushed_to: Option<Seq<char>>,
}

impl View for AgentWork {
    type V = AgentWorkView;

    open spec fn view(&self) -> AgentWorkView {
        AgentWorkView {
            branch: self.branch@,
            sha: self.sha@,
            stat: self.stat,
            pushed_to: opt_view(self.pushed_to),
        }
    }
}

/// How a round ended.
#[derive(Debug, PartialEq, Eq)]
pub enum RoundResult {
    /// An agent that correctly decided nothing needed doing.
    Succeeded,
    /// An agent left work, which was committed and published.
    Committed { work: AgentWork },
    /// `verify` rejected an otherwise-successful round. The work — if there
    /// was any — is preserved regardless: a rejection is exactly the case
    /// where the diff is worth reading.
    VerifyRejected { reason: String, work: Option<AgentWork> },
    /// `work` carries whatever the agent had produced before it failed. That
    /// work is preserved on the job's branch.
    Failed { reason: String, work: Option<AgentWork> },
}

pub enum RoundResultView {
    Succeeded,
    Committed { work: AgentWorkView },
    VerifyRejected { reason: Seq<char>, work: Option<AgentWorkView> },
    Failed { reason: Seq<char>, work: Option<AgentWorkView> },
}

impl View for RoundResult {
    type V = RoundResultView;

    open spec fn view(&self) -> RoundResultView {
        match self {
            RoundResult::Succeeded => RoundResultView::Succeeded,
            RoundResult::Committed { work } => RoundResultView::Committed { work: work@ },
            RoundResult::VerifyRejected { reason, work } => RoundResultView::VerifyRejected {
                reason: reason@,
                work: opt_view(*work),
            },
            RoundResult::Failed { reason, work } => RoundResultView::Failed {
                reason: reason@,
                work: opt_view(*work),
            },
        }
    }
}

/// Why the agent failed a round, from what running its command came to: an
/// error means that it could not be started.
pub open spec fn agent_failure(ran: Result<ShellOutcome, String>) -> Option<Seq<char>> {
    match ran {
        Err(unspawnable) => Some(unspawnable@),
        Ok(outcome) => outcome.reason(),
    }
}

impl RoundResult {
    /// A command's outcome, where an unspawnable program and a non-zero exit
    /// both mean the job failed — but with different reasons.
    pub fn from_command(outcome: &Result<ShellOutcome, String>) -> (result: RoundResult)
        ensures
            result@ == (match agent_failure(*outcome) {
                Some(reason) => RoundResultView::Failed { reason, work: None },
                None => RoundResultView::Succeeded,
            }),
    {
        match outcome {
            Err(unspawnable) => RoundResult::Failed { reason: unspawnable.clone(), work: None },
            Ok(outcome) => match outcome.failure_reason() {
                Some(reason) => RoundResult::Failed { reason, work: None },
                None => RoundResult::Succeeded,
            },
        }
    }

    /// The reason this round failed, if the agent itself is what failed it.
    pub fn failure_reason(self) -> (reason: Option<String>)
        ensures
            opt_view(reason) == (match self@ {
                RoundResultView::Failed { reason, .. } => Some(reason),
                _ => None,
            }),
    {
        match self {
            RoundResult::Failed { reason, .. } => Some(reason),
            RoundResult::Succeeded => None,
            RoundResult::Committed { .. } => None,
            RoundResult::VerifyRejected { .. } => None,
        }
    }
}

/// The cap on one command. Both the agent and `verify` get it in full.
///
/// An error means that the cap the repository declares is not a duration.
pub fn wall_clock_limit(config: &RepoConfig) -> (limit: Result<Option<Span>, String>)
    requires
        config.cap_is_countable(),
    ensures
        match opt_view(config.max_duration) {
            None => limit matches Ok(None),
            Some(text) => match humantime_parsed(text) {
                Ok((secs, nanos)) => limit matches Ok(Some(span)) && span@ == secs * NANOS_PER_SEC
                    + nanos,
                Err(e) => limit matches Err(message) && message@ == crate::config::duration_error(
                    debug_text(text),
                    e,
                ),
            },
        },
{
    match &config.max_duration {
        None => Ok(None),
        Some(text) => match parse_duration(text.as_str()) {
            Ok(span) => Ok(Some(span)),
            Err(e) => Err(e),
        },
    }
}

/// A commit subject: the job, then the first line of what it was asked that is
/// not blank.
pub open spec fn commit_subject(job_id: nat, prompt: Seq<char>) -> Seq<char> {
    let said = nonblank(lines(prompt));
    "job "@ + decimal(job_id) + ": "@ + (if said.len() > 0 {
        trimmed(said[0])
    } else {
        "agent work"@
    })
}

/// A commit subject a human can scan in `git log`: the job, then the first
/// non-blank line of what it was asked to do.
pub fn commit_message(job_id: u64, prompt: &str) -> (message: String)
    ensures
        message@ == commit_subject(job_id as nat, prompt@),
{
    let said = nonblank_lines(prompt);
    let mut message = String::from_str("job ");
    message.append(decimal_of(job_id).as_str());
    message.append(": ");
    assert(texts(said@) == nonblank(lines(prompt@)));
    if said.len() > 0 {
        assert(texts(said@)[0] == said@[0]@);
        message.append(trim(said[0].as_str()).as_str());
    } else {
        message.append("agent work");
    }
    message
}

/// The prompt of a revise round.
pub open spec fn prompt_with_feedback(original: Seq<char>, feedback: Seq<char>) -> Seq<char> {
    original
        + "\n\n---\n\nYour previous attempt is already committed in this working tree. Revise it based on this feedback:\n\n"@
        + feedback + "\n"@
}

/// The prompt a revise round carries: what was originally asked, then what to
/// change about the answer.
///
/// The agent's prior work is already committed in the tree it is about to be
/// dropped into, so the feedback is the only new context it needs. That is
/// what makes revising behave identically across every provider — no session
/// replay, no conversation history.
pub fn revised_prompt(original: &str, feedback: &str) -> (prompt: String)
    ensures
        prompt@ == prompt_with_feedback(original@, feedback@),
{
    let mut prompt = String::from_str(original);
    prompt.append(
        "\n\n---\n\nYour previous attempt is already committed in this working tree. Revise it based on this feedback:\n\n",
    );
    prompt.append(feedback);
    prompt.append("\n");
    prompt
}

/// The agent is told the whole of what was asked first and the whole of the
/// feedback, whatever they hold: between the two stands the same text in every
/// revise round, and after them nothing but the end of the line.
pub proof fn law_a_revise_round_is_told_everything()
    ensures
        exists|middle: Seq<char>|
            middle.len() > 0 && #[trigger] is_always_between(middle),
{
    let middle = prompt_with_feedback(Seq::empty(), Seq::empty()).drop_last();
    reveal_strlit("\n");
    reveal_strlit(
        "\n\n---\n\nYour previous attempt is already committed in this working tree. Revise it based on this feedback:\n\n",
    );
    assert(prompt_with_feedback(Seq::empty(), Seq::empty()).last() == '\n');
    assert forall|original: Seq<char>, feedback: Seq<char>| #[trigger]
        prompt_with_feedback(original, feedback) == original + middle + feedback + seq!['\n'] by {
        assert(prompt_with_feedback(original, feedback) =~= original + middle + feedback
            + seq!['\n']);
    }
    assert(is_always_between(middle));
}

/// Whether `middle` is what stands between the first prompt and the feedback in
/// the prompt of every revise round.
pub open spec fn is_always_between(middle: Seq<char>) -> bool {
    forall|original: Seq<char>, feedback: Seq<char>| #[trigger]
        prompt_with_feedback(original, feedback) == original + middle + feedback + seq!['\n']
}

/// One revise round: what to change about the last one, and which round this
/// is.
#[derive(Debug, Clone, Copy)]
pub struct Revision<'a> {
    pub feedback: &'a str,
    pub round: u32,
}

/// One revise round, resolved: what [`JobSpec`] says of it, held.
#[derive(Debug, Clone, PartialEq, Eq)]
pub struct RevisedJob {
    pub prompt: String,
    pub provider: String,
    pub base_ref: String,
    pub round: u32,
}

impl RevisedJob {
    /// The round to run.
    pub fn spec<'a>(&'a self) -> (spec: JobSpec<'a>)
        ensures
            spec.prompt@ == self.prompt@,
            spec.provider@ == self.provider@,
            spec.base_ref@ == self.base_ref@,
            spec.round == self.round,
    {
        JobSpec {
            prompt: self.prompt.as_str(),
            provider: self.provider.as_str(),
            base_ref: self.base_ref.as_str(),
            round: self.round,
        }
    }
}

/// Another round on this job's branch, with feedback folded into the prompt.
///
/// A revise is a *new job*, not a resumption. Nothing is kept from the last
/// round except the branch — which is exactly what the agent needs, because
/// its prior work arrives as files on disk.
pub fn revise_job(meta: &JobMeta, revision: &Revision<'_>) -> (job: RevisedJob)
    ensures
        job.prompt@ == prompt_with_feedback(meta.prompt@, revision.feedback@),
        job.provider@ == meta.provider@,
        job.base_ref@ == meta.base_ref@,
        job.round == revision.round,
{
    RevisedJob {
        prompt: revised_prompt(meta.prompt.as_str(), revision.feedback),
        provider: meta.provider.clone(),
        base_ref: meta.base_ref.clone(),
        round: revision.round,
    }
}

/// Everything a round needs, resolved before the agent is spawned so a config
/// mistake is reported against the command line rather than surfacing as a
/// mysteriously failed job.
#[derive(Debug, PartialEq, Eq)]
pub struct JobPlan {
    pub repo: String,
    /// Where the checkout starts — at the base ref on a new branch for a first
    /// attempt, on the job's own branch for a revise round, so the agent
    /// starts from its prior work.
    pub start: WorktreeStart,
    pub workspace_path: String,
    pub branch: String,
    pub seed_from: String,
    pub copy_paths: Vec<String>,
    pub command: CommandSpec,
    pub commit_message: String,
    pub remote: String,
    /// The command that decides whether the round's work is accepted, or
    /// `None` for a repository with no `verify` — which accepts on the
    /// agent's exit code alone.
    pub verify: Option<String>,
    /// Where what the agent and `verify` print goes.
    pub log_path: String,
    /// The cap on one command. Both the agent and `verify` get it in full.
    pub timeout: Option<Span>,
}

/// Why a job cannot be planned.
#[derive(Debug, PartialEq, Eq)]
pub enum PlanError {
    Config(ConfigError),
    NowhereForWorktrees,
}

impl PlanError {
    /// What the user is told.
    pub open spec fn text(self) -> Seq<char> {
        match self {
            PlanError::Config(e) => e@.message(),
            PlanError::NowhereForWorktrees =>
            "HOME is unset, so assembly-line has nowhere to put worktrees"@,
        }
    }

    /// What the user is told.
    pub fn message(&self) -> (text: String)
        ensures
            text@ == self.text(),
    {
        match self {
            PlanError::Config(e) => e.message(),
            PlanError::NowhereForWorktrees => String::from_str(
                "HOME is unset, so assembly-line has nowhere to put worktrees",
            ),
        }
    }
}

/// Whether a plan carries out this job, under this provider, from this commit
/// and under this cap.
pub open spec fn is_plan_for(
    plan: JobPlan,
    config: RepoConfig,
    spec: JobSpec<'_>,
    paths: JobPaths,
    opts: RunOpts,
    worktrees_root: Seq<char>,
    start_sha: Seq<char>,
    timeout: Option<Span>,
) -> bool {
    let job_id = paths.id as nat;
    &&& plan.repo@ == opts.repo@
    &&& plan.start.commit() == start_sha
    &&& plan.start is OnExistingBranch <==> spec.round > 1
    &&& plan.workspace_path@ == path_below(
        job_worktrees(worktrees_root, opts.repo@, job_id),
        "checkout"@,
    )
    &&& plan.branch@ == branch_of(job_id)
    &&& plan.seed_from@ == opts.seed_from@
    &&& plan.copy_paths@ == config.copy@
    &&& provider_named(config.providers@, spec.provider@) matches Some(provider)
        && plan.command.program@ == provider.cmd@ && texts(plan.command.args@) == rendered_args(
        texts(provider.args@),
        spec.prompt@,
    )
    &&& plan.commit_message@ == commit_subject(job_id, spec.prompt@)
    &&& plan.remote@ == opts.remote@
    &&& plan.verify == config.verify
    &&& plan.log_path@ == path_below(paths.dir@, "job.log"@)
    &&& plan.timeout == timeout
}

/// Resolve a job against the repository's configuration.
///
/// An error when the repository does not declare the provider the job asked
/// for, and when there is nowhere to put a worktree.
pub fn job_plan(
    config: &RepoConfig,
    spec: &JobSpec<'_>,
    paths: &JobPaths,
    opts: &RunOpts,
    start_sha: &str,
    timeout: Option<Span>,
) -> (planned: Result<JobPlan, PlanError>)
    ensures
        match provider_named(config.providers@, spec.provider@) {
            None => planned matches Err(PlanError::Config(e)) && e@
                == ConfigErrorView::UnknownProvider(spec.provider@),
            Some(_) => match opts.worktrees_root {
                None => planned matches Err(PlanError::NowhereForWorktrees),
                Some(root) => planned matches Ok(plan) && is_plan_for(
                    plan,
                    *config,
                    *spec,
                    *paths,
                    *opts,
                    root@,
                    start_sha@,
                    timeout,
                ),
            },
        },
{
    let provider = match find_provider(&config.providers, spec.provider) {
        Some(provider) => provider,
        None => {
            return Err(
                PlanError::Config(ConfigError::UnknownProvider(String::from_str(spec.provider))),
            );
        },
    };
    let root = match &opts.worktrees_root {
        Some(root) => Some(root.as_str()),
        None => None,
    };
    let workspace_path = match paths.worktree(root, opts.repo.as_str()) {
        Some(path) => path,
        None => {
            return Err(PlanError::NowhereForWorktrees);
        },
    };
    let start = if spec.round > 1 {
        WorktreeStart::OnExistingBranch { tip: String::from_str(start_sha) }
    } else {
        WorktreeStart::CreatingBranch { at: String::from_str(start_sha) }
    };
    Ok(
        JobPlan {
            repo: opts.repo.clone(),
            start,
            workspace_path,
            branch: job_branch_name(paths.id),
            seed_from: opts.seed_from.clone(),
            copy_paths: copy_texts(&config.copy),
            command: render_command(provider, spec.prompt),
            commit_message: commit_message(paths.id, spec.prompt),
            remote: opts.remote.clone(),
            verify: config.verify.clone(),
            log_path: paths.log(),
            timeout,
        },
    )
}

/// A round is planned by the repository's settings, whichever round it is: it
/// is judged by the repository's own `verify`, seeded with its `copy` paths, run
/// by the provider asked for with the prompt given, and capped by the limit
/// given; and it works for the repository, on the job's own branch.
pub proof fn law_every_round_is_planned_by_the_settings(
    plan: JobPlan,
    config: RepoConfig,
    spec: JobSpec<'_>,
    paths: JobPaths,
    opts: RunOpts,
    worktrees_root: Seq<char>,
    start_sha: Seq<char>,
    timeout: Option<Span>,
    at: int,
)
    requires
        is_plan_for(plan, config, spec, paths, opts, worktrees_root, start_sha, timeout),
        0 <= at < config.providers@.len(),
        config.providers@[at].name@ == spec.provider@,
        forall|i: int| 0 <= i < at ==> (#[trigger] config.providers@[i]).name@ != spec.provider@,
    ensures
        plan.verify == config.verify,
        plan.copy_paths@ == config.copy@,
        plan.timeout == timeout,
        plan.repo@ == opts.repo@ && plan.remote@ == opts.remote@ && plan.seed_from@
            == opts.seed_from@,
        plan.command.program@ == config.providers@[at].provider.cmd@,
        plan.command.args@.len() == config.providers@[at].provider.args@.len(),
        plan.start == (if spec.round > 1 {
            WorktreeStart::OnExistingBranch { tip: plan.start->OnExistingBranch_tip }
        } else {
            WorktreeStart::CreatingBranch { at: plan.start->CreatingBranch_at }
        }),
        plan.start matches WorktreeStart::OnExistingBranch { tip } ==> tip@ == start_sha,
        plan.start matches WorktreeStart::CreatingBranch { at } ==> at@ == start_sha,
{
    law_the_first_block_of_a_name_is_found(config.providers@, at);
    assert(texts(plan.command.args@).len() == plan.command.args@.len());
}

/// Rounds of one job under the same settings are planned alike, first and
/// revise round: they differ in where they start and in what is asked, and in
/// nothing else.
pub proof fn law_rounds_of_a_job_are_planned_alike(
    one: JobPlan,
    other: JobPlan,
    config: RepoConfig,
    first: JobSpec<'_>,
    later: JobSpec<'_>,
    paths: JobPaths,
    opts: RunOpts,
    worktrees_root: Seq<char>,
    start: Seq<char>,
    tip: Seq<char>,
    timeout: Option<Span>,
)
    requires
        is_plan_for(one, config, first, paths, opts, worktrees_root, start, timeout),
        is_plan_for(other, config, later, paths, opts, worktrees_root, tip, timeout),
        first.provider@ == later.provider@,
    ensures
        one.verify == other.verify,
        one.copy_paths@ == other.copy_paths@,
        one.command.program@ == other.command.program@,
        first.prompt@ == later.prompt@ ==> texts(one.command.args@) == texts(other.command.args@),
        first.prompt@ == later.prompt@ ==> one.commit_message@ == other.commit_message@,
        one.workspace_path@ == other.workspace_path@,
        one.branch@ == other.branch@,
        one.log_path@ == other.log_path@,
        one.timeout == other.timeout,
        one.repo@ == other.repo@ && one.remote@ == other.remote@ && one.seed_from@
            == other.seed_from@,
{
}

/// Whether the repository has anything to branch from, from what
/// [`git::has_commits`] came to.
pub fn ensure_commits(output: &GitOutput) -> (ensured: Result<(), String>)
    ensures
        match ensured {
            Ok(()) => output@.ok(),
            Err(e) => !output@.ok() && e@
                == "the repository has no commits, so a job has nothing to branch from"@,
        },
{
    if output.succeeded() {
        Ok(())
    } else {
        Err(
            String::from_str(
                "the repository has no commits, so a job has nothing to branch from",
            ),
        )
    }
}

/// Where this round's checkout starts: the ref the job was cut from for a
/// first attempt, the job's own branch tip for a revise round.
pub fn start_commit_for_round(repo: &str, branch: &str, spec: &JobSpec<'_>) -> (call: GitCall)
    ensures
        call@ == finding_start(repo@, branch@, *spec),
{
    if spec.round > 1 {
        git::branch_tip(repo, branch)
    } else {
        git::sha_at_ref(repo, spec.base_ref)
    }
}

/// What `verify` had to say about the tree the branch carries.
#[derive(Debug, PartialEq, Eq)]
pub enum VerifyVerdict {
    /// Nothing `verify` holds against the round: it exited 0, the repository
    /// configures no `verify`, or the agent had already failed and there was
    /// nothing left worth judging.
    NoObjection,
    /// `verify` ran to completion and exited non-zero — a judgement about the
    /// work, and the only thing that gates delivery.
    Rejected { reason: String },
    /// `verify` was killed before it could judge anything: cancelled, or cut
    /// off at `max_duration`. Ctrl-C during a long test suite is ordinary, and
    /// recording it as a rejection would put a claim about the work into an
    /// append-only log that can never be corrected.
    Interrupted { reason: String },
}

pub enum VerifyVerdictView {
    NoObjection,
    Rejected { reason: Seq<char> },
    Interrupted { reason: Seq<char> },
}

impl View for VerifyVerdict {
    type V = VerifyVerdictView;

    open spec fn view(&self) -> VerifyVerdictView {
        match self {
            VerifyVerdict::NoObjection => VerifyVerdictView::NoObjection,
            VerifyVerdict::Rejected { reason } => VerifyVerdictView::Rejected { reason: reason@ },
            VerifyVerdict::Interrupted { reason } => VerifyVerdictView::Interrupted {
                reason: reason@,
            },
        }
    }
}

/// What `verify` made of the work, from how it stopped.
pub open spec fn verdict_of(outcome: ShellOutcome) -> VerifyVerdictView {
    match outcome {
        ShellOutcome::Exited(code) => if code == 0 {
            VerifyVerdictView::NoObjection
        } else {
            VerifyVerdictView::Rejected { reason: "exit "@ + signed_decimal(code as int) }
        },
        ShellOutcome::TimedOut => VerifyVerdictView::Interrupted { reason: "verify timed out"@ },
        ShellOutcome::Cancelled => VerifyVerdictView::Interrupted { reason: "verify cancelled"@ },
    }
}

/// What `verify` made of what the agent left, from how it stopped.
///
/// The outcome is matched here rather than flattened through
/// [`ShellOutcome::failure_reason`], which cannot tell `exit 1` from a kill: a
/// rejection is a verdict about the work, and an interruption is the absence
/// of one.
pub fn verify_verdict(outcome: &ShellOutcome) -> (verdict: VerifyVerdict)
    ensures
        verdict@ == verdict_of(*outcome),
{
    match outcome {
        ShellOutcome::Exited(code) => if *code == 0 {
            VerifyVerdict::NoObjection
        } else {
            let mut reason = String::from_str("exit ");
            reason.append(signed_decimal_of(*code).as_str());
            VerifyVerdict::Rejected { reason }
        },
        ShellOutcome::TimedOut => VerifyVerdict::Interrupted {
            reason: String::from_str("verify timed out"),
        },
        ShellOutcome::Cancelled => VerifyVerdict::Interrupted {
            reason: String::from_str("verify cancelled"),
        },
    }
}

/// `verify` is recorded as a rejection only when it ran to completion and said
/// no; being killed is no verdict.
pub proof fn law_only_a_completed_verify_rejects(outcome: ShellOutcome)
    ensures
        verdict_of(outcome) is Rejected <==> outcome is Exited && outcome->Exited_0 != 0,
{
}

/// What a round settled to, in the order it settled: the agent's work
/// preserved on the branch, the verdict on it, then the scratch checkout's
/// removal.
///
/// Three held results rather than three early returns. The checkout is scratch
/// holding whatever was seeded into it, so leaving it behind for `gc` because
/// an earlier git call failed is not an option.
#[derive(Debug, PartialEq, Eq)]
pub struct RoundSettlement {
    pub preserved: Result<Option<AgentWork>, String>,
    pub verdict: Result<VerifyVerdict, String>,
    pub discarded: Result<(), String>,
}

impl RoundSettlement {
    /// What the round produced and what was made of it — answered only once
    /// the checkout is gone. The first thing that went wrong is what is told.
    pub fn work_and_verdict(self) -> (settled: Result<(Option<AgentWork>, VerifyVerdict), String>)
        ensures
            match (self.preserved, self.verdict, self.discarded) {
                (Err(e), _, _) => settled == Err::<(Option<AgentWork>, VerifyVerdict), String>(e),
                (Ok(_), Err(e), _) => settled == Err::<
                    (Option<AgentWork>, VerifyVerdict),
                    String,
                >(e),
                (Ok(_), Ok(_), Err(e)) => settled == Err::<
                    (Option<AgentWork>, VerifyVerdict),
                    String,
                >(e),
                (Ok(work), Ok(verdict), Ok(())) => settled == Ok::<
                    (Option<AgentWork>, VerifyVerdict),
                    String,
                >((work, verdict)),
            },
    {
        let work = match self.preserved {
            Ok(work) => work,
            Err(e) => {
                return Err(e);
            },
        };
        let verdict = match self.verdict {
            Ok(verdict) => verdict,
            Err(e) => {
                return Err(e);
            },
        };
        match self.discarded {
            Ok(()) => Ok((work, verdict)),
            Err(e) => Err(e),
        }
    }
}

/// How far a round has come: what each of its steps came to, as they are
/// taken.
#[derive(Debug, PartialEq, Eq)]
pub struct Round {
    /// The `copy` paths were looked for.
    pub seeds_found: Option<Result<(), String>>,
    /// Git was asked for the checkout.
    pub checked_out: Option<Result<(), String>>,
    /// The `copy` paths were copied into it.
    pub seeded: Option<Result<(), String>>,
    /// The agent was run.
    pub ran: Option<Result<ShellOutcome, String>>,
    /// What the agent left was committed and published.
    pub preserved: Option<Result<Option<AgentWork>, String>>,
    /// `verify` was run.
    pub judged: Option<Result<ShellOutcome, String>>,
    /// The checkout was removed.
    pub discarded: Option<Result<(), String>>,
}

/// What is next in a round.
#[derive(Debug, PartialEq, Eq)]
pub enum RoundStep {
    /// Look whether these are there, before anything is made: [`seeds_found`].
    LookForSeeds(Vec<String>),
    /// Put the checkout in place, command by command: [`check_out`].
    CheckOut,
    /// Bring these into the checkout.
    Seed(Vec<SeedCopy>),
    RunAgent(Invocation),
    /// Commit, measure and publish what the agent left, command by command:
    /// [`agent_work_on_branch`].
    Preserve,
    /// Run `verify` in the job's own checkout, after the commit, so it judges
    /// exactly the tree the branch carries.
    Verify(Invocation),
    Discard(GitCall),
    /// Nothing is left to do but to say how the round ended.
    Settle,
}

pub enum RoundStepView {
    LookForSeeds(Seq<Seq<char>>),
    CheckOut,
    Seed(Seq<SeedCopyView>),
    RunAgent(InvocationView),
    Preserve,
    Verify(InvocationView),
    Discard(GitCallView),
    Settle,
}

impl View for RoundStep {
    type V = RoundStepView;

    open spec fn view(&self) -> RoundStepView {
        match self {
            RoundStep::LookForSeeds(sources) => RoundStepView::LookForSeeds(texts(sources@)),
            RoundStep::CheckOut => RoundStepView::CheckOut,
            RoundStep::Seed(copies) => RoundStepView::Seed(views(copies@)),
            RoundStep::RunAgent(run) => RoundStepView::RunAgent(run@),
            RoundStep::Preserve => RoundStepView::Preserve,
            RoundStep::Verify(run) => RoundStepView::Verify(run@),
            RoundStep::Discard(call) => RoundStepView::Discard(call@),
            RoundStep::Settle => RoundStepView::Settle,
        }
    }
}

impl JobPlan {
    /// The agent, in the checkout.
    pub open spec fn agent_run(self) -> InvocationView {
        InvocationView {
            program: self.command.program@,
            args: texts(self.command.args@),
            described_as: self.command.program@,
            dir: self.workspace_path@,
            log_path: self.log_path@,
            timeout: opt_view(self.timeout),
        }
    }

    /// `verify`, in the checkout.
    pub open spec fn verify_run(self) -> InvocationView {
        InvocationView {
            program: "sh"@,
            args: seq!["-c"@, self.verify->0@],
            described_as: self.verify->0@,
            dir: self.workspace_path@,
            log_path: self.log_path@,
            timeout: opt_view(self.timeout),
        }
    }

    /// The removal of the checkout.
    pub open spec fn discarding(self) -> GitCallView {
        git_call(
            self.repo@,
            seq!["worktree"@, "remove"@, "--force"@, self.workspace_path@],
            "worktree remove"@,
        )
    }

    /// The sandbox the plan works in.
    fn workspace(&self) -> (ws: JobWorkspace)
        ensures
            ws.path@ == self.workspace_path@,
            ws.branch@ == self.branch@,
            ws.seeded@ == self.copy_paths@,
    {
        workspace::create(self.workspace_path.as_str(), self.branch.as_str(), &self.copy_paths)
    }
}

/// Whether the `copy` paths were found, told which of them are there.
pub fn seeds_found(plan: &JobPlan, present: &Vec<bool>) -> (found: Result<(), String>)
    requires
        present.len() == plan.copy_paths.len(),
    ensures
        match first_missing(texts(plan.copy_paths@), present@) {
            None => found is Ok,
            Some(missing) => found matches Err(e) && e@ == "copy path '"@ + missing
                + "' does not exist under "@ + plan.seed_from@,
        },
{
    check_seeds(plan.seed_from.as_str(), &plan.copy_paths, present)
}

/// Put the checkout in place, command by command.
pub fn check_out(plan: &JobPlan, checkout: &Checkout) -> (step: CheckoutStep)
    ensures
        step@ == checkout.next(plan.repo@, plan.workspace_path@, plan.branch@, plan.start),
{
    checkout.check_out_branch(
        plan.repo.as_str(),
        plan.workspace_path.as_str(),
        plan.branch.as_str(),
        &plan.start,
    )
}

impl Round {
    /// A round nothing of which has happened.
    pub fn new() -> (round: Round)
        ensures
            round.seeds_found is None,
            round.checked_out is None,
            round.seeded is None,
            round.ran is None,
            round.preserved is None,
            round.judged is None,
            round.discarded is None,
    {
        Round {
            seeds_found: None,
            checked_out: None,
            seeded: None,
            ran: None,
            preserved: None,
            judged: None,
            discarded: None,
        }
    }

    /// Whether `verify` has something to judge: the repository declares one,
    /// and the agent has not already failed.
    pub open spec fn is_judged(self, plan: JobPlan) -> bool {
        &&& plan.verify is Some
        &&& self.ran matches Some(ran)
        &&& agent_failure(ran) is None
    }

    /// What is next, under this plan.
    pub open spec fn step(self, plan: JobPlan) -> RoundStepView {
        match (self.seeds_found, self.checked_out, self.seeded) {
            (None, _, _) => RoundStepView::LookForSeeds(
                seed_paths(plan.seed_from@, texts(plan.copy_paths@)),
            ),
            (Some(Err(_)), _, _) => RoundStepView::Settle,
            (Some(Ok(())), None, _) => RoundStepView::CheckOut,
            (Some(Ok(())), Some(Err(_)), _) => RoundStepView::Settle,
            (Some(Ok(())), Some(Ok(())), None) => RoundStepView::Seed(
                seed_copies(plan.workspace_path@, plan.seed_from@, texts(plan.copy_paths@)),
            ),
            (Some(Ok(())), Some(Ok(())), Some(Err(_))) => self.last_step(plan),
            (Some(Ok(())), Some(Ok(())), Some(Ok(()))) => if self.ran is None {
                RoundStepView::RunAgent(plan.agent_run())
            } else if self.preserved is None {
                RoundStepView::Preserve
            } else if self.is_judged(plan) && self.judged is None {
                RoundStepView::Verify(plan.verify_run())
            } else {
                self.last_step(plan)
            },
        }
    }

    /// What is next once there is no more to be done in the checkout.
    pub open spec fn last_step(self, plan: JobPlan) -> RoundStepView {
        if self.discarded is None {
            RoundStepView::Discard(plan.discarding())
        } else {
            RoundStepView::Settle
        }
    }

    /// What is next in this round.
    ///
    /// The agent's work is committed and published *before* success is
    /// decided: an unrecorded change would be a lost change, and a failure
    /// that produced a diff is exactly the case where the diff is worth
    /// reading.
    pub fn next(&self, plan: &JobPlan) -> (step: RoundStep)
        ensures
            step@ == self.step(*plan),
    {
        match &self.seeds_found {
            None => {
                return RoundStep::LookForSeeds(
                    seed_sources(plan.seed_from.as_str(), &plan.copy_paths),
                );
            },
            Some(Err(_)) => {
                return RoundStep::Settle;
            },
            Some(Ok(())) => {},
        }
        match &self.checked_out {
            None => {
                return RoundStep::CheckOut;
            },
            Some(Err(_)) => {
                return RoundStep::Settle;
            },
            Some(Ok(())) => {},
        }
        match &self.seeded {
            None => {
                return RoundStep::Seed(
                    seed_files(
                        plan.workspace_path.as_str(),
                        plan.seed_from.as_str(),
                        &plan.copy_paths,
                    ),
                );
            },
            Some(Err(_)) => {
                return self.once_done(plan);
            },
            Some(Ok(())) => {},
        }
        let failed = match &self.ran {
            None => {
                return RoundStep::RunAgent(
                    run_command(
                        &plan.command,
                        plan.workspace_path.as_str(),
                        plan.log_path.as_str(),
                        plan.timeout,
                    ),
                );
            },
            Some(ran) => RoundResult::from_command(ran).failure_reason().is_some(),
        };
        if self.preserved.is_none() {
            return RoundStep::Preserve;
        }
        match &plan.verify {
            Some(verify) => {
                if !failed && self.judged.is_none() {
                    return RoundStep::Verify(
                        run_shell(
                            verify.as_str(),
                            plan.workspace_path.as_str(),
                            plan.log_path.as_str(),
                            plan.timeout,
                        ),
                    );
                }
            },
            None => {},
        }
        self.once_done(plan)
    }

    fn once_done(&self, plan: &JobPlan) -> (step: RoundStep)
        ensures
            step@ == self.last_step(*plan),
    {
        if self.discarded.is_none() {
            RoundStep::Discard(workspace::discard(plan.repo.as_str(), &plan.workspace()))
        } else {
            RoundStep::Settle
        }
    }

    /// The verdict on the round: nothing to object when there was nothing to
    /// judge, else what `verify` made of it.
    pub open spec fn verdict(self, plan: JobPlan) -> Result<VerifyVerdictView, Seq<char>> {
        if !self.is_judged(plan) {
            Ok(VerifyVerdictView::NoObjection)
        } else {
            match self.judged->0 {
                Ok(outcome) => Ok(verdict_of(outcome)),
                Err(e) => Err(e@),
            }
        }
    }

    /// How the round ended. An agent failure is the earlier and more
    /// fundamental one, and is why `verify` was never asked; a `verify` killed
    /// before it could judge anything fails the round as itself rather than as
    /// a rejection.
    pub open spec fn result(self, plan: JobPlan) -> Result<RoundResultView, Seq<char>> {
        match (self.seeds_found->0, self.checked_out->0, self.seeded->0) {
            (Err(e), _, _) => Err(e@),
            (Ok(()), Err(e), _) => Err(e@),
            (Ok(()), Ok(()), Err(e)) => Err(e@),
            (Ok(()), Ok(()), Ok(())) => match (self.preserved->0, self.verdict(plan), self.discarded->0) {
                (Err(e), _, _) => Err(e@),
                (Ok(_), Err(e), _) => Err(e),
                (Ok(_), Ok(_), Err(e)) => Err(e@),
                (Ok(work), Ok(verdict), Ok(())) => match (agent_failure(self.ran->0), verdict) {
                    (Some(reason), _) => Ok(
                        RoundResultView::Failed { reason, work: opt_view(work) },
                    ),
                    (None, VerifyVerdictView::Interrupted { reason }) => Ok(
                        RoundResultView::Failed { reason, work: opt_view(work) },
                    ),
                    (None, VerifyVerdictView::Rejected { reason }) => Ok(
                        RoundResultView::VerifyRejected { reason, work: opt_view(work) },
                    ),
                    (None, VerifyVerdictView::NoObjection) => match work {
                        None => Ok(RoundResultView::Succeeded),
                        Some(work) => Ok(RoundResultView::Committed { work: work@ }),
                    },
                },
            },
        }
    }

    /// Whether there never was a checkout because git refused to make one.
    pub open spec fn is_refused(self) -> bool {
        self.seeds_found matches Some(Ok(())) && self.checked_out matches Some(Err(_))
    }

    /// What is made of the round: nothing, for the reason git gave, when git
    /// refused it a checkout. Any other round that could not be seen through
    /// failed, and any partial work is described by the error, not by a branch
    /// that can be named.
    pub open spec fn settlement(self, plan: JobPlan) -> Result<RoundResultView, Seq<char>> {
        match self.result(plan) {
            Ok(result) => Ok(result),
            Err(reason) => if self.is_refused() {
                Err(reason)
            } else {
                Ok(RoundResultView::Failed { reason, work: None })
            },
        }
    }
}

/// What a result over a round's end holds.
pub open spec fn round_view(result: Result<RoundResult, String>) -> Result<
    RoundResultView,
    Seq<char>,
> {
    match result {
        Ok(result) => Ok(result@),
        Err(e) => Err(e@),
    }
}

/// How a round ended, once there is nothing left of it to do. An error means
/// that it could not be seen through.
pub fn round_result(round: Round, plan: &JobPlan) -> (result: Result<RoundResult, String>)
    requires
        round.step(*plan) is Settle,
    ensures
        round_view(result) == round.result(*plan),
{
    match round.seeds_found {
        Some(Err(e)) => {
            return Err(e);
        },
        _ => {},
    }
    match round.checked_out {
        Some(Err(e)) => {
            return Err(e);
        },
        _ => {},
    }
    match round.seeded {
        Some(Err(e)) => {
            return Err(e);
        },
        _ => {},
    }
    let ran = round.ran.unwrap();
    // Taken once, up front: it decides both whether `verify` was worth running
    // and how the round ends, and an agent failure wins over either answer.
    let agent_failure = RoundResult::from_command(&ran).failure_reason();
    let verdict = if plan.verify.is_some() && agent_failure.is_none() {
        match round.judged.unwrap() {
            Ok(outcome) => Ok(verify_verdict(&outcome)),
            Err(e) => Err(e),
        }
    } else {
        Ok(VerifyVerdict::NoObjection)
    };
    let settled = RoundSettlement {
        preserved: round.preserved.unwrap(),
        verdict,
        discarded: round.discarded.unwrap(),
    };
    let (work, verdict) = match settled.work_and_verdict() {
        Ok(settled) => settled,
        Err(e) => {
            return Err(e);
        },
    };
    Ok(
        match (agent_failure, verdict) {
            (Some(reason), _) => RoundResult::Failed { reason, work },
            (None, VerifyVerdict::Interrupted { reason }) => RoundResult::Failed { reason, work },
            (None, VerifyVerdict::Rejected { reason }) => RoundResult::VerifyRejected {
                reason,
                work,
            },
            (None, VerifyVerdict::NoObjection) => match work {
                None => RoundResult::Succeeded,
                Some(work) => RoundResult::Committed { work },
            },
        },
    )
}

/// What is made of a round, once there is nothing left of it to do. An error
/// means that the job could not be administered, because git refused to make a
/// checkout; whatever else went wrong, the round failed.
pub fn settled_round(round: Round, plan: &JobPlan) -> (settled: Result<RoundResult, String>)
    requires
        round.step(*plan) is Settle,
    ensures
        round_view(settled) == round.settlement(*plan),
{
    let refused = match (&round.seeds_found, &round.checked_out) {
        (Some(Ok(())), Some(Err(_))) => true,
        _ => false,
    };
    match round_result(round, plan) {
        Ok(result) => Ok(result),
        Err(reason) => if refused {
            Err(reason)
        } else {
            Ok(RoundResult::Failed { reason, work: None })
        },
    }
}

/// A checkout that was made is removed before a round is told of, whatever
/// else went wrong; and what an agent left in it is preserved by then.
pub proof fn law_the_checkout_never_outlives_the_round(round: Round, plan: JobPlan)
    requires
        round.step(plan) is Settle,
        round.seeds_found matches Some(Ok(())),
        round.checked_out matches Some(Ok(())),
    ensures
        round.discarded is Some,
        round.seeded matches Some(Ok(())) ==> round.preserved is Some,
{
}

/// A `copy` path that is not there costs nothing: no checkout is asked for, so
/// none is left behind.
pub proof fn law_a_missing_seed_makes_no_checkout(round: Round, plan: JobPlan)
    requires
        round.seeds_found matches Some(Err(_)),
    ensures
        round.step(plan) is Settle,
{
}

/// `verify` is never asked about the work of an agent that failed, nor before
/// that work is on the branch.
pub proof fn law_verify_judges_only_preserved_work(round: Round, plan: JobPlan)
    requires
        round.step(plan) is Verify,
    ensures
        plan.verify is Some,
        round.ran matches Some(ran) && agent_failure(ran) is None,
        round.preserved is Some,
{
}

/// What an agent left is told of however the round ended: whenever there is
/// work on the branch and the round was seen through, its result carries
/// that work.
pub proof fn law_no_work_is_lost(round: Round, plan: JobPlan, work: AgentWork)
    requires
        round.step(plan) is Settle,
        round.preserved matches Some(Ok(Some(left))) && left == work,
        round.result(plan) is Ok,
    ensures
        match round.result(plan)->Ok_0 {
            RoundResultView::Succeeded => false,
            RoundResultView::Committed { work: kept } => kept == work@,
            RoundResultView::VerifyRejected { work: kept, .. } => kept == Some(work@),
            RoundResultView::Failed { work: kept, .. } => kept == Some(work@),
        },
{
}

/// A round that was seen through passes on its merits alone: the agent
/// succeeded, and `verify`, where the repository declares one, ran to
/// completion and said yes.
pub proof fn law_a_round_passes_on_its_merits(round: Round, plan: JobPlan)
    requires
        round.step(plan) is Settle,
        round.result(plan) is Ok,
    ensures
        completion_outcome(round.result(plan)->Ok_0) == JobOutcome::Passed <==> {
            &&& round.ran == Some(Ok::<ShellOutcome, String>(ShellOutcome::Exited(0)))
            &&& plan.verify is Some ==> round.judged == Some(
                Ok::<ShellOutcome, String>(ShellOutcome::Exited(0)),
            )
        },
{
}

/// The remote a branch reached, and what to warn of.
#[derive(Debug, PartialEq, Eq)]
pub struct Reached {
    pub remote: Option<String>,
    pub warning: Option<String>,
}

/// The remote the branch reached, or `None` for a repository that has no such
/// remote *and* for a push the remote refused.
///
/// Neither is worth losing the record over. The branch is a local ref holding
/// the agent's work either way, and the branch is the job's whole durable
/// output.
pub fn remote_the_branch_reached(
    branch: &str,
    remote: &str,
    published: Result<Option<String>, String>,
) -> (reached: Reached)
    ensures
        match published {
            Ok(found) => reached.remote == found && reached.warning is None,
            Err(e) => {
                &&& reached.remote is None
                &&& reached.warning matches Some(warning)
                &&& warning@ == stays_local(branch@, remote@, e@)
            },
        },
{
    match published {
        Ok(found) => Reached { remote: found, warning: None },
        Err(e) => {
            let mut warning = String::from_str("'");
            warning.append(branch);
            warning.append("' branch stays local: publishing to '");
            warning.append(remote);
            warning.append("' failed: ");
            warning.append(e.as_str());
            Reached { remote: None, warning: Some(warning) }
        },
    }
}

/// What a publishing that failed is warned of with.
pub open spec fn stays_local(branch: Seq<char>, remote: Seq<char>, e: Seq<char>) -> Seq<char> {
    "'"@ + branch + "' branch stays local: publishing to '"@ + remote + "' failed: "@ + e
}

/// How far keeping what the agent left has come: what each command asked for so
/// far printed.
#[derive(Debug, PartialEq, Eq)]
pub struct Preserving {
    pub committed: Vec<GitOutput>,
    pub measured: Option<GitOutput>,
    pub listed: Option<GitOutput>,
    pub pushed: Option<GitOutput>,
    /// Why the command asked for last could not be run at all.
    pub unrun: Option<String>,
}

/// What the commands that keep an agent's work are for.
#[derive(Debug, Clone, Copy, PartialEq, Eq, Structural)]
pub enum PreserveCall {
    Commit,
    Measure,
    Publish,
}

/// What the agent left on the job's branch, or `None` when it changed nothing,
/// and what to warn of.
#[derive(Debug, PartialEq, Eq)]
pub struct Preserved {
    pub left: Result<Option<AgentWork>, String>,
    pub warning: Option<String>,
}

/// What is next when an agent's work is kept, or what came of it.
#[derive(Debug, PartialEq, Eq)]
pub enum PreserveStep {
    Run(PreserveCall, GitCall),
    Done(Preserved),
}

pub enum PreserveStepView {
    Run(PreserveCall, GitCallView),
    Done(Result<Option<AgentWorkView>, Seq<char>>, Option<Seq<char>>),
}

impl View for PreserveStep {
    type V = PreserveStepView;

    open spec fn view(&self) -> PreserveStepView {
        match self {
            PreserveStep::Run(which, call) => PreserveStepView::Run(*which, call@),
            PreserveStep::Done(kept) => PreserveStepView::Done(
                match kept.left {
                    Ok(work) => Ok(opt_view(work)),
                    Err(e) => Err(e@),
                },
                opt_view(kept.warning),
            ),
        }
    }
}

impl JobPlan {
    /// The command that measures a round's work: against where the round
    /// started, which for a revise round is where the last one ended.
    pub open spec fn measuring(self) -> GitCallView {
        git_call(
            self.workspace_path@,
            seq!["diff"@, "--numstat"@, self.start.commit() + "..HEAD"@],
            "diff --numstat"@,
        )
    }
}

/// The counts as they are held.
pub open spec fn held(stat: StatView) -> DiffStat {
    DiffStat {
        files: stat.files as usize,
        insertions: stat.insertions as usize,
        deletions: stat.deletions as usize,
    }
}

impl Preserving {
    /// Nothing done yet.
    pub fn new() -> (so_far: Preserving)
        ensures
            so_far.committed@.len() == 0,
            so_far.measured is None,
            so_far.listed is None,
            so_far.pushed is None,
            so_far.unrun is None,
    {
        Preserving {
            committed: Vec::new(),
            measured: None,
            listed: None,
            pushed: None,
            unrun: None,
        }
    }

    /// Whether the counts that were asked for, if they came, can be held.
    pub open spec fn is_measurable(self) -> bool {
        self.measured matches Some(output) ==> output@.is_measurable()
    }

    /// What committing came to, once it came to something.
    pub open spec fn commit(self, plan: JobPlan) -> Option<
        Result<Option<Seq<char>>, Seq<char>>,
    > {
        commit_outcome(texts(plan.copy_paths@), views(self.committed@))
    }

    /// A command to run, unless the last one could not be.
    pub open spec fn ask(self, which: PreserveCall, call: GitCallView) -> PreserveStepView {
        match self.unrun {
            None => PreserveStepView::Run(which, call),
            Some(e) => PreserveStepView::Done(Err(e@), None),
        }
    }

    /// What is next, once the work is committed and measured.
    pub open spec fn next_to_publish(
        self,
        plan: JobPlan,
        sha: Seq<char>,
        stat: DiffStat,
    ) -> PreserveStepView {
        let work = |pushed_to: Option<Seq<char>>|
            Ok(Some(AgentWorkView { branch: plan.branch@, sha, stat, pushed_to }));
        match publish_next(plan.repo@, plan.branch@, plan.remote@, self.listed, self.pushed) {
            PublishStepView::Run(call) => match self.unrun {
                None => PreserveStepView::Run(PreserveCall::Publish, call),
                Some(e) => PreserveStepView::Done(
                    work(None),
                    Some(stays_local(plan.branch@, plan.remote@, e@)),
                ),
            },
            PublishStepView::Done(Ok(reached)) => PreserveStepView::Done(work(reached), None),
            PublishStepView::Done(Err(e)) => PreserveStepView::Done(
                work(None),
                Some(stays_local(plan.branch@, plan.remote@, e)),
            ),
        }
    }

    /// What is next: the work is committed, then measured against where the
    /// round started, then published.
    pub open spec fn next(self, plan: JobPlan) -> PreserveStepView {
        match self.commit(plan) {
            None => self.ask(
                PreserveCall::Commit,
                commit_calls(plan.workspace_path@, plan.commit_message@, texts(plan.copy_paths@))[
                    self.committed@.len() as int
                ],
            ),
            Some(Err(e)) => PreserveStepView::Done(Err(e), None),
            Some(Ok(None)) => PreserveStepView::Done(Ok(None), None),
            Some(Ok(Some(sha))) => match self.measured {
                None => self.ask(PreserveCall::Measure, plan.measuring()),
                Some(output) => match output@.answer("diff --numstat"@) {
                    Err(e) => PreserveStepView::Done(Err(e), None),
                    Ok(numstat) => self.next_to_publish(
                        plan,
                        sha,
                        held(stat_of(lines(numstat))),
                    ),
                },
            },
        }
    }

    /// How far it has come once a command was asked for; an error means that it
    /// could not be run at all.
    pub open spec fn once_run(
        self,
        which: PreserveCall,
        reply: Result<GitOutput, String>,
        so_far: Preserving,
    ) -> bool {
        match reply {
            Err(e) => so_far == (Preserving { unrun: Some(e), ..self }),
            Ok(output) => match which {
                PreserveCall::Commit => {
                    &&& so_far.committed@ == self.committed@.push(output)
                    &&& so_far == (Preserving { committed: so_far.committed, ..self })
                },
                PreserveCall::Measure => so_far == (Preserving { measured: Some(output), ..self }),
                PreserveCall::Publish => if self.listed is None {
                    so_far == (Preserving { listed: Some(output), ..self })
                } else {
                    so_far == (Preserving { pushed: Some(output), ..self })
                },
            },
        }
    }

    /// How far it has come once a command was asked for; an error means that it
    /// could not be run at all.
    pub fn after(self, which: PreserveCall, reply: Result<GitOutput, String>) -> (so_far:
        Preserving)
        ensures
            self.once_run(which, reply, so_far),
    {
        let output = match reply {
            Err(e) => {
                return Preserving { unrun: Some(e), ..self };
            },
            Ok(output) => output,
        };
        match which {
            PreserveCall::Commit => {
                let mut committed = self.committed;
                committed.push(output);
                Preserving {
                    committed,
                    measured: self.measured,
                    listed: self.listed,
                    pushed: self.pushed,
                    unrun: self.unrun,
                }
            },
            PreserveCall::Measure => Preserving { measured: Some(output), ..self },
            PreserveCall::Publish => if self.listed.is_none() {
                Preserving { listed: Some(output), ..self }
            } else {
                Preserving { pushed: Some(output), ..self }
            },
        }
    }

    fn run_or_fail(&self, which: PreserveCall, call: GitCall) -> (step: PreserveStep)
        ensures
            step@ == self.ask(which, call@),
    {
        match &self.unrun {
            None => PreserveStep::Run(which, call),
            Some(e) => PreserveStep::Done(Preserved { left: Err(e.clone()), warning: None }),
        }
    }
}

/// Keep what the agent left on the job's branch, command by command: commit it,
/// measure it against where the round started, and publish it. `None` when it
/// changed nothing.
pub fn agent_work_on_branch(plan: &JobPlan, so_far: &Preserving) -> (step: PreserveStep)
    requires
        so_far.is_measurable(),
    ensures
        step@ == so_far.next(*plan),
{
    let ws = plan.workspace();
    let sha = match workspace::commit(&ws, plan.commit_message.as_str(), &so_far.committed) {
        CommitStep::Run(call) => {
            return so_far.run_or_fail(PreserveCall::Commit, call);
        },
        CommitStep::Done(Err(e)) => {
            return PreserveStep::Done(Preserved { left: Err(e), warning: None });
        },
        CommitStep::Done(Ok(None)) => {
            return PreserveStep::Done(Preserved { left: Ok(None), warning: None });
        },
        CommitStep::Done(Ok(Some(sha))) => sha,
    };
    let stat = match &so_far.measured {
        None => {
            return so_far.run_or_fail(
                PreserveCall::Measure,
                git::diff_stat_against(ws.path.as_str(), plan.start.start_commit()),
            );
        },
        Some(output) => match git::diff_stat(output) {
            Ok(stat) => stat,
            Err(e) => {
                return PreserveStep::Done(Preserved { left: Err(e), warning: None });
            },
        },
    };
    let published = match workspace::publish(
        plan.repo.as_str(),
        ws.branch.as_str(),
        plan.remote.as_str(),
        &so_far.listed,
        &so_far.pushed,
    ) {
        PublishStep::Run(call) => match &so_far.unrun {
            None => {
                return PreserveStep::Run(PreserveCall::Publish, call);
            },
            Some(e) => Err(e.clone()),
        },
        PublishStep::Done(published) => published,
    };
    let reached = remote_the_branch_reached(ws.branch.as_str(), plan.remote.as_str(), published);
    let work = AgentWork { branch: ws.branch, sha, stat, pushed_to: reached.remote };
    PreserveStep::Done(Preserved { left: Ok(Some(work)), warning: reached.warning })
}

/// A round's work is kept in order: it is measured only once it is committed,
/// against where the round started, and published only once it is measured.
pub proof fn law_work_is_measured_before_it_is_published(so_far: Preserving, plan: JobPlan)
    ensures
        so_far.next(plan) matches PreserveStepView::Run(which, call) ==> match which {
            PreserveCall::Commit => so_far.commit(plan) is None,
            PreserveCall::Measure => {
                &&& so_far.commit(plan) matches Some(Ok(Some(_)))
                &&& call == plan.measuring()
            },
            PreserveCall::Publish => {
                &&& so_far.commit(plan) matches Some(Ok(Some(_)))
                &&& so_far.measured matches Some(output) && output@.ok()
            },
        },
{
}

/// Work that was committed and measured is not lost to a remote: whatever
/// publishing came to, the branch and the commit are reported.
pub proof fn law_a_refused_push_loses_no_work(so_far: Preserving, plan: JobPlan, sha: Seq<char>)
    requires
        so_far.commit(plan) == Some(Ok::<Option<Seq<char>>, Seq<char>>(Some(sha))),
        so_far.measured matches Some(output) && output@.ok(),
    ensures
        so_far.next(plan) matches PreserveStepView::Done(left, warning) ==> {
            &&& left matches Ok(Some(work))
            &&& work.branch == plan.branch@
            &&& work.sha == sha
            &&& warning is Some ==> work.pushed_to is None
        },
{
}

/// The agent and `verify` run in the round's own checkout, and so does every
/// command that stages, unstages, commits or measures.
pub proof fn law_a_round_works_in_its_own_checkout(
    round: Round,
    plan: JobPlan,
    so_far: Preserving,
)
    ensures
        round.step(plan) matches RoundStepView::RunAgent(run) ==> run.dir == plan.workspace_path@,
        round.step(plan) matches RoundStepView::Verify(run) ==> run.dir == plan.workspace_path@,
        so_far.next(plan) matches PreserveStepView::Run(which, call) ==> which
            == PreserveCall::Publish || call.dir == plan.workspace_path@,
{
    let paths = texts(plan.copy_paths@);
    let calls = commit_calls(plan.workspace_path@, plan.commit_message@, paths);
    if so_far.commit(plan) is None {
        let at = so_far.committed@.len() as int;
        assert(views(so_far.committed@).len() == at);
        assert(0 <= at < calls.len());
        assert(calls[at].dir == plan.workspace_path@);
    }
}

/// Whether a command leaves the files of the directory it is run in alone: it
/// deals with branches, remotes and worktrees made elsewhere.
pub open spec fn leaves_files_alone(args: Seq<Seq<char>>) -> bool {
    args.len() > 0 && (args[0] == "worktree"@ || args[0] == "show-ref"@ || args[0] == "branch"@
        || args[0] == "remote"@ || args[0] == "push"@)
}

/// The user's working tree is never touched: what a round does not run in its
/// own checkout it runs in the repository, and only to deal with branches,
/// remotes and worktrees.
pub proof fn law_the_users_working_tree_is_never_touched(
    round: Round,
    plan: JobPlan,
    checkout: Checkout,
    so_far: Preserving,
)
    ensures
        round.step(plan) matches RoundStepView::Discard(call) ==> call.dir == plan.repo@
            && leaves_files_alone(call.args),
        checkout.next(
            plan.repo@,
            plan.workspace_path@,
            plan.branch@,
            plan.start,
        ) matches CheckoutStepView::Run(_, call) ==> call.dir == plan.repo@ && leaves_files_alone(
            call.args,
        ),
        so_far.next(plan) matches PreserveStepView::Run(which, call) ==> which
            != PreserveCall::Publish || (call.dir == plan.repo@ && leaves_files_alone(call.args)),
{
}

/// A repository's `verify` judges every round, first and revise round alike: a
/// job passes only if the agent exited 0 and, where the repository declares a
/// `verify`, that very command was run in the round's checkout and exited 0.
pub proof fn law_nothing_passes_unjudged(
    round: Round,
    plan: JobPlan,
    config: RepoConfig,
    spec: JobSpec<'_>,
    paths: JobPaths,
    opts: RunOpts,
    worktrees_root: Seq<char>,
    start_sha: Seq<char>,
    timeout: Option<Span>,
)
    requires
        is_plan_for(plan, config, spec, paths, opts, worktrees_root, start_sha, timeout),
        round.step(plan) is Settle,
        round.settlement(plan) matches Ok(result) && completion_outcome(result)
            == JobOutcome::Passed,
    ensures
        round.ran == Some(Ok::<ShellOutcome, String>(ShellOutcome::Exited(0))),
        round.preserved matches Some(Ok(_)),
        round.discarded matches Some(Ok(())),
        config.verify matches Some(verify) ==> {
            &&& round.judged == Some(Ok::<ShellOutcome, String>(ShellOutcome::Exited(0)))
            &&& (Round { judged: None, discarded: None, ..round }).step(plan)
                matches RoundStepView::Verify(run)
            &&& run.program == "sh"@ && run.args.len() == 2 && run.args[1] == verify@
            &&& run.dir == plan.workspace_path@
        },
{
}

/// A round whose agent and, where there is one, `verify` both exited 0 and of
/// which nothing went wrong passes; so a job fails only for a reason.
pub proof fn law_good_work_passes(round: Round, plan: JobPlan)
    requires
        round.step(plan) is Settle,
        round.seeds_found matches Some(Ok(())),
        round.checked_out matches Some(Ok(())),
        round.seeded matches Some(Ok(())),
        round.ran == Some(Ok::<ShellOutcome, String>(ShellOutcome::Exited(0))),
        round.preserved matches Some(Ok(_)),
        plan.verify is Some ==> round.judged == Some(
            Ok::<ShellOutcome, String>(ShellOutcome::Exited(0)),
        ),
        round.discarded matches Some(Ok(())),
    ensures
        round.settlement(plan) matches Ok(result) && completion_outcome(result)
            == JobOutcome::Passed && work_of(result) == opt_view(round.preserved->0->Ok_0),
{
}

/// What a failed round tells is what went wrong first: a seed that is missing,
/// a checkout that was refused, seeding, keeping the work, `verify` not being
/// run, the checkout not going, and only then what the agent or `verify` said.
pub proof fn law_a_failed_round_tells_what_went_wrong_first(round: Round, plan: JobPlan, e: String)
    requires
        round.step(plan) is Settle,
    ensures
        round.seeds_found == Some(Err::<(), String>(e)) ==> round.settlement(plan) == Ok::<
            RoundResultView,
            Seq<char>,
        >(RoundResultView::Failed { reason: e@, work: None }),
        round.seeds_found == Some(Ok::<(), String>(())) && round.checked_out == Some(
            Err::<(), String>(e),
        ) ==> round.settlement(plan) == Err::<RoundResultView, Seq<char>>(e@),
        ({
            let made = round.seeds_found == Some(Ok::<(), String>(())) && round.checked_out == Some(
                Ok::<(), String>(()),
            );
            let failed = Ok::<RoundResultView, Seq<char>>(
                RoundResultView::Failed { reason: e@, work: None },
            );
            &&& made && round.seeded == Some(Err::<(), String>(e)) ==> round.settlement(plan)
                == failed
            &&& made && round.seeded == Some(Ok::<(), String>(())) && round.preserved == Some(
                Err::<Option<AgentWork>, String>(e),
            ) ==> round.settlement(plan) == failed
            &&& made && round.seeded == Some(Ok::<(), String>(())) && (
            round.preserved matches Some(Ok(_))) && round.ran == Some(
                Ok::<ShellOutcome, String>(ShellOutcome::Exited(0)),
            ) && plan.verify is Some && round.judged == Some(Err::<ShellOutcome, String>(e))
                ==> round.settlement(plan) == failed
            &&& made && round.seeded == Some(Ok::<(), String>(())) && (
            round.preserved matches Some(Ok(_))) && (plan.verify is None || (
            round.judged matches Some(Ok(_)))) && round.discarded == Some(Err::<(), String>(e))
                ==> round.settlement(plan) == failed
            &&& made && round.seeded == Some(Ok::<(), String>(())) && (round.preserved matches Some(
                Ok(work),
            ) && round.discarded == Some(Ok::<(), String>(())) && round.ran == Some(
                Err::<ShellOutcome, String>(e),
            )) ==> round.settlement(plan) == Ok::<RoundResultView, Seq<char>>(
                RoundResultView::Failed {
                    reason: e@,
                    work: opt_view(round.preserved->0->Ok_0),
                },
            )
        }),
{
}

/// What is recorded of an agent's work: the commit, then where its branch
/// went.
pub open spec fn work_events(work: Option<AgentWorkView>) -> Seq<EventKindView> {
    match work {
        None => seq![],
        Some(work) => seq![
            EventKindView::JobCommitted {
                sha: work.sha,
                files: work.stat.files,
                insertions: work.stat.insertions,
                deletions: work.stat.deletions,
            },
            EventKindView::JobBranchPublished { branch: work.branch, pushed_to: work.pushed_to },
        ],
    }
}

/// The work a round left, however it ended.
pub open spec fn work_of(result: RoundResultView) -> Option<AgentWorkView> {
    match result {
        RoundResultView::Succeeded => None,
        RoundResultView::Committed { work } => Some(work),
        RoundResultView::VerifyRejected { work, .. } => work,
        RoundResultView::Failed { work, .. } => work,
    }
}

/// What is recorded of how a round ended.
pub open spec fn verdict_events(result: RoundResultView) -> Seq<EventKindView> {
    match result {
        RoundResultView::Succeeded => seq![EventKindView::JobFinished { exit_code: 0 }],
        RoundResultView::Committed { .. } => seq![EventKindView::JobFinished { exit_code: 0 }],
        RoundResultView::VerifyRejected { reason, .. } => seq![
            EventKindView::JobVerifyFailed { reason },
            EventKindView::JobFailed { reason: rejection(reason) },
        ],
        RoundResultView::Failed { reason, .. } => seq![EventKindView::JobFailed { reason }],
    }
}

/// The events a round's end implies: the work, then the verdict that judges
/// it.
pub open spec fn completion_events(result: RoundResultView) -> Seq<EventKindView> {
    work_events(work_of(result)) + verdict_events(result)
}

/// What a round's end adds up to.
pub open spec fn completion_outcome(result: RoundResultView) -> JobOutcome {
    match result {
        RoundResultView::Succeeded => JobOutcome::Passed,
        RoundResultView::Committed { .. } => JobOutcome::Passed,
        RoundResultView::VerifyRejected { .. } => JobOutcome::Failed,
        RoundResultView::Failed { .. } => JobOutcome::Failed,
    }
}

/// Recording what an agent left: the commit, then where its branch went.
///
/// Empty for an agent that correctly changed nothing.
fn work_recorded(work: &Option<AgentWork>) -> (events: Vec<EventKind>)
    ensures
        views(events@) == work_events(opt_view(*work)),
{
    let mut events: Vec<EventKind> = Vec::new();
    if let Some(work) = work {
        events.push(
            EventKind::JobCommitted {
                sha: work.sha.clone(),
                files: work.stat.files,
                insertions: work.stat.insertions,
                deletions: work.stat.deletions,
            },
        );
        events.push(
            EventKind::JobBranchPublished {
                branch: work.branch.clone(),
                pushed_to: work.pushed_to.clone(),
            },
        );
    }
    assert(views(events@) =~= work_events(opt_view(*work)));
    events
}

/// The events a completion implies, in the order things settled, paired with
/// the outcome they add up to.
///
/// Work is recorded before the verdict that judges it.
pub fn events_for_completion(result: RoundResult) -> (completion: (Vec<EventKind>, JobOutcome))
    ensures
        views(completion.0@) == completion_events(result@),
        completion.1 == completion_outcome(result@),
{
    let ghost whole = result@;
    match result {
        RoundResult::Succeeded => {
            let mut events: Vec<EventKind> = Vec::new();
            events.push(EventKind::JobFinished { exit_code: 0 });
            assert(views(events@) =~= completion_events(whole));
            (events, JobOutcome::Passed)
        },
        RoundResult::Failed { reason, work } => {
            let mut events = work_recorded(&work);
            let ghost before = events@;
            events.push(EventKind::JobFailed { reason });
            assert(views(events@) =~= views(before) + verdict_events(whole));
            (events, JobOutcome::Failed)
        },
        RoundResult::VerifyRejected { reason, work } => {
            let mut events = work_recorded(&work);
            let ghost before = events@;
            let mut told = String::from_str("verify rejected the work: ");
            told.append(reason.as_str());
            events.push(EventKind::JobVerifyFailed { reason });
            events.push(EventKind::JobFailed { reason: told });
            assert(views(events@) =~= views(before) + verdict_events(whole));
            (events, JobOutcome::Failed)
        },
        RoundResult::Committed { work } => {
            let mut events = work_recorded(&Some(work));
            let ghost before = events@;
            events.push(EventKind::JobFinished { exit_code: 0 });
            assert(views(events@) =~= views(before) + verdict_events(whole));
            (events, JobOutcome::Passed)
        },
    }
}

/// What happened in each of the events.
pub open spec fn kinds_of(events: Seq<EventView>) -> Seq<EventKindView> {
    Seq::new(events.len(), |i: int| events[i].kind)
}

/// The log of a finished round replays to how the round ended: a job whose
/// work was accepted as succeeded, every other as failed — whatever was in the
/// log before, and whenever the events were written.
pub proof fn law_a_finished_round_replays_to_its_outcome(
    before: JobState,
    result: RoundResultView,
    events: Seq<EventView>,
)
    requires
        kinds_of(events) == completion_events(result),
    ensures
        replayed(before, events) == (if completion_outcome(result) == JobOutcome::Passed {
            JobState::Succeeded
        } else {
            JobState::Failed
        }),
{
    let kinds = completion_events(result);
    assert(kinds_of(events).last() == kinds.last());
    assert(events.last().kind == kinds.last());
}

/// Work is recorded before the verdict that judges it, and whenever there is
/// work its branch is in the record, whatever the verdict.
pub proof fn law_work_is_recorded_before_the_verdict(result: RoundResultView, work: AgentWorkView)
    requires
        work_of(result) == Some(work),
    ensures
        completion_events(result).len() > 2,
        completion_events(result)[0] matches EventKindView::JobCommitted { sha, .. } && sha
            == work.sha,
        completion_events(result)[1] == (EventKindView::JobBranchPublished {
            branch: work.branch,
            pushed_to: work.pushed_to,
        }),
{
}

/// A rejection is written only for a round that `verify` rejected, and right
/// before the failure it causes; so a reader can tell a rejected job from one
/// whose agent crashed.
pub proof fn law_a_rejection_is_followed_by_its_failure(result: RoundResultView, at: int)
    requires
        0 <= at < completion_events(result).len(),
        completion_events(result)[at] is JobVerifyFailed,
    ensures
        result is VerifyRejected,
        at == completion_events(result).len() - 2,
        completion_events(result)[at + 1] == (EventKindView::JobFailed {
            reason: rejection(result->VerifyRejected_reason),
        }),
{
}

/// A round's record holds one event that moves the job, and it is the last.
pub proof fn law_only_the_last_event_of_a_round_decides(result: RoundResultView, at: int)
    requires
        0 <= at < completion_events(result).len(),
    ensures
        crate::state::is_transition(completion_events(result)[at]) <==> at
            == completion_events(result).len() - 1,
{
}

/// What the log of a finished round reports: how it ended and why, what it
/// committed, and the branch its work is on — whatever the job's earlier rounds
/// had to report.
pub proof fn law_the_log_of_a_round_reports_it(
    before: Seq<EventView>,
    round: u32,
    result: RoundResultView,
    log: Seq<EventView>,
)
    requires
        kinds_of(log) == seq![EventKindView::JobStarted { round }] + completion_events(result),
    ensures
        ({
            let progress = progress_of(before + log);
            &&& progress.state == (if completion_outcome(result) == JobOutcome::Passed {
                JobState::Succeeded
            } else {
                JobState::Failed
            })
            &&& progress.detail == (match result {
                RoundResultView::Failed { reason, .. } => Some(reason),
                RoundResultView::VerifyRejected { reason, .. } => Some(rejection(reason)),
                _ => None,
            })
            &&& progress.committed_diff == (match work_of(result) {
                Some(work) => Some(
                    DiffSummary {
                        files: work.stat.files,
                        insertions: work.stat.insertions,
                        deletions: work.stat.deletions,
                    },
                ),
                None => None,
            })
            &&& work_of(result) matches Some(work) ==> progress.branch == Some(work.branch)
            &&& work_of(result) is None ==> progress.branch == progress_of(before).branch
        }),
{
    let kinds = kinds_of(log);
    assert(log.len() == kinds.len());
    assert(before + log.take(0) =~= before);
    assert(log[0].kind == kinds[0] && log[1].kind == kinds[1]);
    lemma_one_more_event(before, log, 0);
    lemma_one_more_event(before, log, 1);
    if log.len() > 2 {
        assert(log[2].kind == kinds[2]);
        lemma_one_more_event(before, log, 2);
    }
    if log.len() > 3 {
        assert(log[3].kind == kinds[3]);
        lemma_one_more_event(before, log, 3);
    }
    if log.len() > 4 {
        assert(log[4].kind == kinds[4]);
        lemma_one_more_event(before, log, 4);
    }
    assert(log.take(log.len() as int) =~= log);
}

proof fn lemma_one_more_event(before: Seq<EventView>, log: Seq<EventView>, at: int)
    requires
        0 <= at < log.len(),
    ensures
        progress_of(before + log.take(at + 1)) == progress_of(before + log.take(at)).after_event(
            log[at],
        ),
{
    assert((before + log.take(at + 1)).drop_last() =~= before + log.take(at));
    assert((before + log.take(at + 1)).last() == log[at]);
}

/// What is next when a job is run.
#[derive(Debug, Clone, PartialEq, Eq)]
pub enum RunStep {
    /// Read the wall-clock cap: [`wall_clock_limit`].
    ReadLimit,
    /// Look whether there is anything to branch from: [`ensure_commits`].
    LookForCommits(GitCall),
    /// Record which repository these worktrees belong to, so `gc` can collect
    /// them without being run from the repository itself.
    RecordRepository(Recorded),
    /// Ask git where the checkout starts.
    FindStart(GitCall),
    /// Resolve the job: [`job_plan`].
    Plan,
    /// Append this to the log.
    Announce(EventKind),
    /// Run the round, and settle it: [`settled_round`]. A round that fails is
    /// not an error; one that git refuses a checkout is.
    RunRound,
    /// Append [`events_for_completion`] to the log.
    Record,
    /// Nothing is left to do.
    Done,
    /// The job could not be administered, for this reason.
    Refuse(String),
}

pub enum RunStepView {
    ReadLimit,
    LookForCommits(GitCallView),
    RecordRepository(RecordedView),
    FindStart(GitCallView),
    Plan,
    Announce(EventKindView),
    RunRound,
    Record,
    Done,
    Refuse(Seq<char>),
}

impl View for RunStep {
    type V = RunStepView;

    open spec fn view(&self) -> RunStepView {
        match self {
            RunStep::ReadLimit => RunStepView::ReadLimit,
            RunStep::LookForCommits(call) => RunStepView::LookForCommits(call@),
            RunStep::RecordRepository(record) => RunStepView::RecordRepository(record@),
            RunStep::FindStart(call) => RunStepView::FindStart(call@),
            RunStep::Plan => RunStepView::Plan,
            RunStep::Announce(kind) => RunStepView::Announce(kind@),
            RunStep::RunRound => RunStepView::RunRound,
            RunStep::Record => RunStepView::Record,
            RunStep::Done => RunStepView::Done,
            RunStep::Refuse(e) => RunStepView::Refuse(e@),
        }
    }
}

/// The command that finds where a round's checkout starts: the ref the job was
/// cut from for a first attempt, the job's own branch tip for a revise round.
pub open spec fn finding_start(
    repo: Seq<char>,
    branch: Seq<char>,
    spec: JobSpec<'_>,
) -> GitCallView {
    if spec.round > 1 {
        git_call(repo, seq!["rev-parse"@, "refs/heads/"@ + branch], "rev-parse "@ + branch)
    } else {
        git_call(
            repo,
            seq!["rev-parse"@, spec.base_ref@ + "^{commit}"@],
            "rev-parse "@ + spec.base_ref@,
        )
    }
}

/// What running a job takes, in order, as long as there is somewhere for its
/// worktrees. Everything a round needs is resolved before anything is logged,
/// and logged before the agent runs.
pub open spec fn run_order(
    spec: JobSpec<'_>,
    job_id: nat,
    repo: Seq<char>,
    worktrees_root: Option<Seq<char>>,
) -> Seq<RunStepView> {
    seq![
        RunStepView::ReadLimit,
        RunStepView::LookForCommits(
            git_call(
                repo,
                seq!["rev-parse"@, "--verify"@, "HEAD"@],
                "rev-parse --verify HEAD"@,
            ),
        ),
        match worktrees_root {
            Some(root) => RunStepView::RecordRepository(recorded(root, repo)),
            None => RunStepView::Refuse(nowhere_to_record()),
        },
        RunStepView::FindStart(finding_start(repo, branch_of(job_id), spec)),
        RunStepView::Plan,
        RunStepView::Announce(EventKindView::JobStarted { round: spec.round }),
        RunStepView::RunRound,
        RunStepView::Record,
    ]
}

/// The first thing that went wrong.
pub open spec fn first_failure(done: Seq<Result<(), String>>) -> Option<Seq<char>>
    decreases done.len(),
{
    if done.len() == 0 {
        None
    } else {
        match done[0] {
            Err(e) => Some(e@),
            Ok(()) => first_failure(done.skip(1)),
        }
    }
}

/// What is next, from what the steps so far came to.
pub open spec fn run_next(
    order: Seq<RunStepView>,
    done: Seq<Result<(), String>>,
) -> RunStepView {
    match first_failure(done) {
        Some(e) => RunStepView::Refuse(e),
        None => if done.len() < order.len() {
            order[done.len() as int]
        } else {
            RunStepView::Done
        },
    }
}

/// Run one job end to end, step by step: `done` holds what each step so far
/// came to.
///
/// Refused only if the job cannot be *administered* — the event log cannot be
/// appended to, `max_duration` is not a duration, the repository does not
/// declare the provider, or git refused to make a checkout. An agent that runs
/// and fails is not that: it is [`JobOutcome::Failed`].
pub fn run_job(
    spec: &JobSpec<'_>,
    paths: &JobPaths,
    opts: &RunOpts,
    done: &Vec<Result<(), String>>,
) -> (step: RunStep)
    ensures
        step@ == run_next(
            run_order(*spec, paths.id as nat, opts.repo@, opt_view(opts.worktrees_root)),
            done@,
        ),
{
    let mut at: usize = 0;
    assert(done@.skip(0) =~= done@);
    while at < done.len()
        invariant
            at <= done.len(),
            first_failure(done@) == first_failure(done@.skip(at as int)),
        decreases done.len() - at,
    {
        assert(done@.skip(at as int)[0] == done@[at as int]);
        match &done[at] {
            Err(e) => {
                return RunStep::Refuse(e.clone());
            },
            Ok(()) => {},
        }
        assert(done@.skip(at as int).skip(1) =~= done@.skip(at + 1));
        at = at + 1;
    }
    let repo = opts.repo.as_str();
    match done.len() {
        0 => RunStep::ReadLimit,
        1 => RunStep::LookForCommits(git::has_commits(repo)),
        2 => {
            let root = match &opts.worktrees_root {
                Some(root) => Some(root.as_str()),
                None => None,
            };
            match record_repository_for_worktrees(root, repo) {
                Ok(record) => RunStep::RecordRepository(record),
                Err(e) => RunStep::Refuse(e),
            }
        },
        3 => RunStep::FindStart(
            start_commit_for_round(repo, job_branch_name(paths.id).as_str(), spec),
        ),
        4 => RunStep::Plan,
        5 => RunStep::Announce(opening_event(spec)),
        6 => RunStep::RunRound,
        7 => RunStep::Record,
        _ => RunStep::Done,
    }
}

/// The event that a round begins with.
fn opening_event(spec: &JobSpec<'_>) -> (kind: EventKind)
    ensures
        kind@ == (EventKindView::JobStarted { round: spec.round }),
{
    EventKind::JobStarted { round: spec.round }
}

/// A revise round is measured against the round before it: it starts at the
/// tip of the job's own branch, and its work is measured against where it
/// started.
pub proof fn law_a_revise_round_is_measured_against_the_last(
    plan: JobPlan,
    config: RepoConfig,
    spec: JobSpec<'_>,
    paths: JobPaths,
    opts: RunOpts,
    worktrees_root: Seq<char>,
    tip: Seq<char>,
    timeout: Option<Span>,
)
    requires
        spec.round > 1,
        is_plan_for(plan, config, spec, paths, opts, worktrees_root, tip, timeout),
    ensures
        finding_start(plan.repo@, plan.branch@, spec).args == seq![
            "rev-parse"@,
            "refs/heads/"@ + plan.branch@,
        ],
        plan.measuring().args == seq!["diff"@, "--numstat"@, tip + "..HEAD"@],
        plan.measuring().dir == plan.workspace_path@,
{
}

/// A job that git refuses a checkout is refused for the reason git gave, and
/// is not one that failed; no other round refuses its job.
pub proof fn law_only_a_refused_checkout_refuses_the_job(
    spec: JobSpec<'_>,
    paths: JobPaths,
    opts: RunOpts,
    done: Seq<Result<(), String>>,
    round: Round,
    plan: JobPlan,
    went: Result<(), String>,
)
    requires
        run_next(
            run_order(spec, paths.id as nat, opts.repo@, opt_view(opts.worktrees_root)),
            done,
        ) is RunRound,
        round.step(plan) is Settle,
        match went {
            Ok(()) => round.settlement(plan) is Ok,
            Err(e) => round.settlement(plan) == Err::<RoundResultView, Seq<char>>(e@),
        },
    ensures
        ({
            let order = run_order(spec, paths.id as nat, opts.repo@, opt_view(opts.worktrees_root));
            match (round.seeds_found, round.checked_out) {
                (Some(Ok(())), Some(Err(e))) => run_next(order, done.push(went))
                    == RunStepView::Refuse(e@),
                _ => run_next(order, done.push(went)) is Record,
            }
        }),
{
    lemma_first_failure_of_longer(done, went);
    assert(done.len() == 6);
}

proof fn lemma_first_failure_of_longer(done: Seq<Result<(), String>>, went: Result<(), String>)
    requires
        first_failure(done) is None,
    ensures
        first_failure(done.push(went)) == (match went {
            Ok(()) => None,
            Err(e) => Some(e@),
        }),
    decreases done.len(),
{
    let longer = done.push(went);
    if done.len() > 0 {
        lemma_first_failure_of_longer(done.skip(1), went);
        assert(longer.skip(1) =~= done.skip(1).push(went));
    } else {
        assert(longer.skip(1) =~= done);
        assert(first_failure(longer.skip(1)) is None);
    }
}

/// A step is taken only once every step before it went well, so nothing is
/// logged for a job that cannot be resolved and no agent runs unannounced; and
/// whoever is refused is told of the first thing that went wrong.
pub proof fn law_a_job_is_run_in_order(order: Seq<RunStepView>, done: Seq<Result<(), String>>)
    ensures
        (forall|i: int| 0 <= i < done.len() ==> #[trigger] done[i] is Ok) ==> run_next(order, done)
            == (if done.len() < order.len() {
            order[done.len() as int]
        } else {
            RunStepView::Done
        }),
        !(forall|i: int| 0 <= i < done.len() ==> #[trigger] done[i] is Ok) ==> exists|i: int|
            #![trigger done[i]]
            0 <= i < done.len() && done[i] is Err && run_next(order, done) == RunStepView::Refuse(
                done[i]->Err_0@,
            ) && forall|j: int| 0 <= j < i ==> #[trigger] done[j] is Ok,
{
    lemma_first_failure(done);
}

proof fn lemma_first_failure(done: Seq<Result<(), String>>)
    ensures
        first_failure(done) is None <==> forall|i: int|
            0 <= i < done.len() ==> #[trigger] done[i] is Ok,
        first_failure(done) is Some ==> exists|i: int|
            #![trigger done[i]]
            0 <= i < done.len() && done[i] is Err && first_failure(done) == Some(done[i]->Err_0@)
                && forall|j: int| 0 <= j < i ==> #[trigger] done[j] is Ok,
    decreases done.len(),
{
    if done.len() > 0 {
        let rest = done.skip(1);
        lemma_first_failure(rest);
        if done[0] is Ok {
            if first_failure(done) is Some {
                let i = choose|i: int|
                    #![trigger rest[i]]
                    0 <= i < rest.len() && rest[i] is Err && first_failure(rest) == Some(
                        rest[i]->Err_0@,
                    ) && forall|j: int| 0 <= j < i ==> #[trigger] rest[j] is Ok;
                assert(done[i + 1] == rest[i]);
                assert forall|j: int| 0 <= j < i + 1 implies #[trigger] done[j] is Ok by {
                    if j > 0 {
                        assert(done[j] == rest[j - 1]);
                    }
                }
            } else {
                assert forall|j: int| 0 <= j < done.len() implies #[trigger] done[j] is Ok by {
                    if j > 0 {
                        assert(done[j] == rest[j - 1]);
                    }
                }
            }
        } else {
            assert(done[0] is Err);
        }
    }
}

/// The agent and `verify` are run as the plan says, in the checkout, with all
/// they print kept in the job's log and under the same limit, if there is one.
pub proof fn law_commands_run_under_the_plans_limit(plan: JobPlan)
    ensures
        plan.agent_run().program == plan.command.program@,
        plan.agent_run().args.len() == plan.command.args@.len(),
        forall|i: int|
            0 <= i < plan.command.args@.len() ==> #[trigger] plan.agent_run().args[i]
                == plan.command.args@[i]@,
        plan.agent_run().dir == plan.workspace_path@ && plan.verify_run().dir
            == plan.workspace_path@,
        plan.agent_run().log_path == plan.log_path@ && plan.verify_run().log_path == plan.log_path@,
        plan.timeout is None ==> plan.agent_run().timeout is None && plan.verify_run().timeout
            is None,
        plan.timeout matches Some(limit) ==> plan.agent_run().timeout == Some(limit@)
            && plan.verify_run().timeout == Some(limit@),
        plan.verify matches Some(line) ==> plan.verify_run().program == "sh"@
            && plan.verify_run().args == seq!["-c"@, line@],
{
}

/// A round goes on step by step, each once the one before it went well: seeds
/// looked for, a checkout made and seeded, the agent run, its work kept, and
/// `verify` asked where there is one and the agent succeeded; and the checkout
/// is taken away however far it came.
pub proof fn law_a_round_goes_step_by_step(round: Round, plan: JobPlan)
    ensures
        round.seeds_found is None ==> round.step(plan) is LookForSeeds,
        (round.seeds_found matches Some(Ok(()))) ==> {
            &&& round.checked_out is None ==> round.step(plan) is CheckOut
            &&& (round.checked_out matches Some(Ok(()))) ==> {
                &&& round.seeded is None ==> round.step(plan) is Seed
                &&& (round.seeded matches Some(Err(_))) ==> round.step(plan) is Discard
                    || round.discarded is Some
                &&& (round.seeded matches Some(Ok(()))) ==> {
                    &&& round.ran is None ==> round.step(plan) == RoundStepView::RunAgent(
                        plan.agent_run(),
                    )
                    &&& round.ran is Some && round.preserved is None ==> round.step(plan)
                        is Preserve
                    &&& round.ran == Some(Ok::<ShellOutcome, String>(ShellOutcome::Exited(0)))
                        && round.preserved is Some && plan.verify is Some && round.judged is None
                        ==> round.step(plan) == RoundStepView::Verify(plan.verify_run())
                    &&& round.ran is Some && round.preserved is Some && (plan.verify is None
                        || round.judged is Some || round.ran != Some(
                        Ok::<ShellOutcome, String>(ShellOutcome::Exited(0)),
                    )) && round.discarded is None ==> round.step(plan) is Discard
                }
            }
        },
{
}

/// A commit is named by its job and by the first line that was asked, white
/// space around it aside; blank lines before it do not count, and only a prompt
/// of nothing but white space is not quoted.
pub proof fn law_a_commit_says_what_was_asked(job_id: nat, prompt: Seq<char>, at: int)
    requires
        0 <= at < lines(prompt).len(),
        !is_blank(lines(prompt)[at]),
        forall|i: int| 0 <= i < at ==> is_blank(#[trigger] lines(prompt)[i]),
    ensures
        trimmed(lines(prompt)[at]).is_suffix_of(commit_subject(job_id, prompt)),
        exists|a: Seq<char>, b: Seq<char>|
            commit_subject(job_id, prompt) == #[trigger] (a + decimal(job_id) + b + trimmed(
                lines(prompt)[at],
            )),
{
    lemma_first_said(lines(prompt), at);
    let said = trimmed(lines(prompt)[at]);
    let subject = commit_subject(job_id, prompt);
    assert(subject =~= "job "@ + decimal(job_id) + ": "@ + said);
    assert(subject.skip(subject.len() - said.len()) =~= said);
}

proof fn lemma_first_said(all: Seq<Seq<char>>, at: int)
    requires
        0 <= at < all.len(),
        !is_blank(all[at]),
        forall|i: int| 0 <= i < at ==> is_blank(#[trigger] all[i]),
    ensures
        nonblank(all).len() > 0,
        nonblank(all)[0] == all[at],
    decreases all.len(),
{
    let rest = all.drop_last();
    if at < rest.len() {
        assert forall|i: int| 0 <= i < at implies is_blank(#[trigger] rest[i]) by {
            assert(rest[i] == all[i]);
        }
        lemma_first_said(rest, at);
    } else {
        lemma_nothing_said(rest);
    }
}

proof fn lemma_nothing_said(all: Seq<Seq<char>>)
    requires
        forall|i: int| 0 <= i < all.len() ==> is_blank(#[trigger] all[i]),
    ensures
        nonblank(all).len() == 0,
    decreases all.len(),
{
    if all.len() > 0 {
        let rest = all.drop_last();
        assert forall|i: int| 0 <= i < rest.len() implies is_blank(#[trigger] rest[i]) by {
            assert(rest[i] == all[i]);
        }
        assert(is_blank(all[all.len() - 1]));
        lemma_nothing_said(rest);
    }
}

/// Work is told of as git told of it: by the job's branch, the commit that was
/// made, the counts that were measured and the remote that took it; and it is
/// told of whether or not a remote did.
pub proof fn law_work_is_told_of_as_git_told_it(
    so_far: Preserving,
    plan: JobPlan,
    sha: Seq<char>,
    measured: GitOutput,
)
    requires
        so_far.commit(plan) == Some(Ok::<Option<Seq<char>>, Seq<char>>(Some(sha))),
        so_far.measured == Some(measured),
        measured.exit_code == 0,
        measured@.is_measurable(),
        !(so_far.next(plan) is Run),
    ensures
        so_far.next(plan) matches PreserveStepView::Done(Ok(Some(work)), warning) && {
            let counted = stat_of(lines(trimmed(measured.stdout@)));
            let reached = publish_next(
                plan.repo@,
                plan.branch@,
                plan.remote@,
                so_far.listed,
                so_far.pushed,
            );
            &&& work.branch == plan.branch@
            &&& work.sha == sha
            &&& work.stat.files == counted.files
            &&& work.stat.insertions == counted.insertions
            &&& work.stat.deletions == counted.deletions
            &&& work.pushed_to == (match reached {
                PublishStepView::Done(Ok(remote)) => remote,
                _ => None,
            })
            &&& warning is None <==> (reached matches PublishStepView::Done(Ok(_)))
        },
{
    assert(measured@.answer("diff --numstat"@) == Ok::<Seq<char>, Seq<char>>(
        trimmed(measured.stdout@),
    ));
}

/// What `verify` made of the work is told by how it stopped: it accepts by
/// exiting 0 and in no other way, rejects by the code it exits with, and judges
/// nothing when it is stopped.
pub proof fn law_verify_accepts_by_exiting_zero(outcome: ShellOutcome)
    ensures
        verdict_of(outcome) is NoObjection <==> outcome == ShellOutcome::Exited(0),
        outcome matches ShellOutcome::Exited(code) ==> (code != 0 ==> (
        verdict_of(outcome) matches VerifyVerdictView::Rejected { reason } && signed_decimal(
            code as int,
        ).is_suffix_of(reason))),
        outcome is TimedOut || outcome is Cancelled ==> verdict_of(outcome) is Interrupted,
        verdict_of(ShellOutcome::TimedOut) != verdict_of(ShellOutcome::Cancelled),
{
    if let ShellOutcome::Exited(code) = outcome {
        let told = signed_decimal(code as int);
        let why = "exit "@ + told;
        assert(why.skip(why.len() - told.len()) =~= told);
    }
    reveal_strlit("verify timed out");
    reveal_strlit("verify cancelled");
    assert("verify timed out"@[7] == 't');
    assert("verify cancelled"@[7] == 'c');
}

/// What a round needs is found out before the round is logged, the round is
/// logged under its own number before the agent runs, and what came of it is
/// recorded last; none of this is left out or done twice, and without a place
/// for worktrees nothing is logged at all.
pub proof fn law_a_round_is_logged_before_it_runs(
    spec: JobSpec<'_>,
    job_id: nat,
    repo: Seq<char>,
    root: Seq<char>,
    i: int,
    j: int,
)
    ensures
        ({
            let order = run_order(spec, job_id, repo, Some(root));
            let logged = RunStepView::Announce(EventKindView::JobStarted { round: spec.round });
            let within = 0 <= i < order.len() && 0 <= j < order.len();
            &&& order.contains(RunStepView::ReadLimit) && order.contains(RunStepView::Plan)
                && order.contains(logged) && order.contains(RunStepView::RunRound)
                && order.contains(RunStepView::RecordRepository(recorded(root, repo)))
            &&& order.last() is Record
            &&& within && order[i] is Announce && order[j] is RunRound ==> i < j
            &&& within && order[i] is Announce && (order[j] is ReadLimit
                || order[j] is LookForCommits || order[j] is RecordRepository
                || order[j] is FindStart || order[j] is Plan) ==> j < i
            &&& within && order[i] is FindStart && order[j] is Plan ==> i < j
            &&& within && order[i] == order[j] ==> i == j
            &&& forall|k: int|
                0 <= k < order.len() ==> !(#[trigger] order[k] is Refuse) && !(order[k] is Done)
        }),
        exists|k: int|
            0 <= k < run_order(spec, job_id, repo, None).len() && (
            #[trigger] run_order(spec, job_id, repo, None)[k]) is Refuse && forall|l: int|
                0 <= l < k ==> !((#[trigger] run_order(spec, job_id, repo, None)[l]) is Announce),
{
    let order = run_order(spec, job_id, repo, Some(root));
    assert(order[0] is ReadLimit && order[1] is LookForCommits);
    assert(order[2] == RunStepView::RecordRepository(recorded(root, repo)));
    assert(order[3] is FindStart && order[4] is Plan);
    assert(order[5] == RunStepView::Announce(EventKindView::JobStarted { round: spec.round }));
    assert(order[6] is RunRound && order[7] is Record);
    let without = run_order(spec, job_id, repo, None);
    assert(without[0] is ReadLimit && without[1] is LookForCommits);
    assert(without[2] is Refuse);
}

} // verus!
