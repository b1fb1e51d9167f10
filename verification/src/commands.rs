//! What each command decides and says, around the work it has done for it.

use crate::config::{duration_error, duration_problems, parse_duration, provider_problems,
    ConfigErrorView, Delivery, DeliveryMode, RepoConfig, Warning, REPO_CONFIG_PATH};
use crate::event::{Event, EventKind, EventView};
use crate::gc::{stale_count, total, Removed, RepositoryLeftovers, StaleWorktree};
use crate::git;
use crate::git::{args_of, git_call, GitCall, GitCallView, GitOutput};
use crate::job::{prompt_with_feedback, revise_job, JobOutcome, RevisedJob, Revision, RunOpts};
use crate::number::{decimal, decimal_of};
use crate::paths::{JobMeta, JobPaths};
use crate::provider::CommandSpec;
use crate::report::JobReport;
use crate::text::{debug_text, opt_view, same_text, texts, views};
use crate::time::{humantime_parsed, is_countable, Span, NANOS_PER_SEC};
use crate::workspace::DEFAULT_REMOTE;
use vstd::prelude::*;

verus! {

/// Reserved for the user's mistake — a repository that has not opted in, a
/// missing job, a wrong directory. A job that runs and fails exits with
/// [`EXIT_JOB_FAILED`] instead.
pub const EXIT_USAGE: u8 = 2;

pub const EXIT_JOB_FAILED: u8 = 1;

pub const EXIT_SUCCESS: u8 = 0;

/// The exit code of a command that ran a job.
pub fn exit_code_for(outcome: JobOutcome) -> (code: u8)
    ensures
        code == (match outcome {
            JobOutcome::Failed => EXIT_JOB_FAILED,
            JobOutcome::Passed => EXIT_SUCCESS,
        }),
{
    match outcome {
        JobOutcome::Failed => EXIT_JOB_FAILED,
        JobOutcome::Passed => EXIT_SUCCESS,
    }
}

/// Which repository a command acts on: whatever `--repo` named, else the one
/// the user is standing in.
///
/// Every command resolves it the same way, so a job started with `--repo` is
/// findable by `status`, `logs` and `revise` with the same `--repo`.
pub fn repository_named_or_enclosing(named: Option<String>, enclosing: Option<String>) -> (repo:
    Result<String, String>)
    ensures
        match (named, enclosing) {
            (Some(named), _) => repo == Ok::<String, String>(named),
            (None, Some(enclosing)) => repo == Ok::<String, String>(enclosing),
            (None, None) => repo matches Err(e) && e@
                == "not inside a git repository — assembly stores job state at <git-root>/.assembly"@,
        },
{
    match named {
        Some(named) => Ok(named),
        None => match enclosing {
            Some(enclosing) => Ok(enclosing),
            None => Err(
                String::from_str(
                    "not inside a git repository — assembly stores job state at <git-root>/.assembly",
                ),
            ),
        },
    }
}

/// A file the user named, and what reading it gave.
#[derive(Debug, PartialEq, Eq)]
pub struct ReadFile {
    pub path: String,
    pub body: Result<String, String>,
}

/// What a job is asked: the text given, else what the file given holds.
pub fn prompt_text(prompt: Option<String>, prompt_file: Option<ReadFile>) -> (text: Result<
    String,
    String,
>)
    ensures
        match (prompt, prompt_file) {
            (Some(given), _) => text == Ok::<String, String>(given),
            (None, Some(file)) => match file.body {
                Ok(body) => text == Ok::<String, String>(body),
                Err(e) => text matches Err(message) && message@ == "reading "@ + file.path@ + ": "@
                    + e@,
            },
            (None, None) => text matches Err(message) && message@
                == "a job needs --prompt or --prompt-file"@,
        },
{
    match prompt {
        Some(given) => Ok(given),
        None => match prompt_file {
            Some(file) => match file.body {
                Ok(body) => Ok(body),
                Err(e) => {
                    let mut message = String::from_str("reading ");
                    message.append(file.path.as_str());
                    message.append(": ");
                    message.append(e.as_str());
                    Err(message)
                },
            },
            None => Err(String::from_str("a job needs --prompt or --prompt-file")),
        },
    }
}

/// What a job is cut from when the command line does not say: whatever the
/// repository has checked out, never an assumed `main`.
pub fn default_base_ref(checked_out: Option<String>) -> (git_ref: String)
    ensures
        match checked_out {
            Some(branch) => git_ref == branch,
            None => git_ref@ == "HEAD"@,
        },
{
    match checked_out {
        Some(branch) => branch,
        None => String::from_str("HEAD"),
    }
}

/// What a job is cut from: the ref the command line names, else the one that
/// [`default_base_ref`] gives of what [`git::current_branch`] came to.
pub fn base_ref_named_or_checked_out(
    named: Option<String>,
    asked: Option<Result<GitOutput, String>>,
) -> (git_ref: Result<String, String>)
    requires
        named is None ==> asked is Some,
    ensures
        match (named, asked) {
            (Some(named), _) => git_ref == Ok::<String, String>(named),
            (None, Some(Err(e))) => git_ref == Err::<String, String>(e),
            (None, Some(Ok(output))) => match output@.answer("branch --show-current"@) {
                Err(e) => git_ref matches Err(message) && message@ == e,
                Ok(name) => git_ref matches Ok(git_ref) && git_ref@ == (if name.len() > 0 {
                    name
                } else {
                    "HEAD"@
                }),
            },
            (None, None) => true,
        },
{
    match named {
        Some(named) => Ok(named),
        None => match asked.unwrap() {
            Err(e) => Err(e),
            Ok(output) => match git::branch_checked_out(&output) {
                Ok(checked_out) => Ok(default_base_ref(checked_out)),
                Err(e) => Err(e),
            },
        },
    }
}

/// The provider a job uses: the command line's choice, else the repository's
/// own, else none.
pub open spec fn provider_chosen(chosen: Option<Seq<char>>, declared: Option<Seq<char>>) -> Seq<
    char,
> {
    match (chosen, declared) {
        (Some(name), _) => name,
        (None, Some(name)) => name,
        (None, None) => Seq::empty(),
    }
}

/// Whether a repository can run a job, and what to print about it.
#[derive(Debug, PartialEq, Eq)]
pub struct Runnable {
    /// One line for each setting worth flagging.
    pub warnings: Vec<String>,
    /// One line for each reason it cannot run.
    pub errors: Vec<String>,
    /// The provider the job will use, or what the command fails with.
    pub provider: Result<String, String>,
}

/// The line printed for each problem.
pub open spec fn error_lines(problems: Seq<ConfigErrorView>) -> Seq<Seq<char>> {
    Seq::new(problems.len(), |i: int| "error: "@ + problems[i].message())
}

/// The line printed for each warning.
pub open spec fn warning_lines(warnings: Seq<Warning>) -> Seq<Seq<char>> {
    Seq::new(warnings.len(), |i: int| "warn: "@ + warnings[i].text())
}

/// What a repository that cannot run a job is refused with.
pub open spec fn not_runnable() -> Seq<char> {
    REPO_CONFIG_PATH@ + " is not runnable"@
}

/// Whether this says what there is to say of a repository with this
/// configuration: all of its problems at once, and the provider only when
/// there are none.
pub open spec fn says_runnable(
    runnable: Runnable,
    config: RepoConfig,
    chosen: Option<Seq<char>>,
    is_duration: bool,
) -> bool {
    let provider = provider_chosen(chosen, opt_view(config.provider));
    let problems = provider_problems(config.providers@, provider) + duration_problems(
        opt_view(config.max_duration),
        is_duration,
    );
    &&& texts(runnable.errors@) == error_lines(problems)
    &&& texts(runnable.warnings@) == warning_lines(
        if config.verify is None {
            seq![Warning::NoVerify]
        } else {
            seq![]
        },
    )
    &&& match runnable.provider {
        Ok(name) => problems.len() == 0 && name@ == provider,
        Err(e) => problems.len() > 0 && e@ == not_runnable(),
    }
}

/// The provider a job will use, once the repository's settings and it are
/// known to work together, and everything there is to print about them.
pub fn runnable_config_and_provider(config: &RepoConfig, chosen: &Option<String>) -> (runnable:
    Runnable)
    requires
        config.cap_is_countable(),
    ensures
        says_runnable(runnable, *config, opt_view(*chosen), config.cap_is_duration()),
{
    runnable_given(config, chosen, config.cap_parses())
}

/// [`runnable_config_and_provider`], told whether the wall-clock cap is a
/// duration.
pub fn runnable_given(config: &RepoConfig, chosen: &Option<String>, is_duration: bool) -> (runnable:
    Runnable)
    ensures
        says_runnable(runnable, *config, opt_view(*chosen), is_duration),
{
    let provider = choose_provider(config, chosen);
    let problems = config.problems_given(provider.as_str(), is_duration);
    refuse_or_run(config, provider, problems)
}

fn choose_provider(config: &RepoConfig, chosen: &Option<String>) -> (provider: String)
    ensures
        provider@ == provider_chosen(opt_view(*chosen), opt_view(config.provider)),
{
    match chosen {
        Some(name) => name.clone(),
        None => match &config.provider {
            Some(name) => name.clone(),
            None => {
                let none = String::new();
                assert(none@ =~= Seq::empty());
                none
            },
        },
    }
}

fn refuse_or_run(
    config: &RepoConfig,
    provider: String,
    problems: Vec<crate::config::ConfigError>,
) -> (runnable: Runnable)
    ensures
        texts(runnable.errors@) == error_lines(views(problems@)),
        texts(runnable.warnings@) == warning_lines(
            if config.verify is None {
                seq![Warning::NoVerify]
            } else {
                seq![]
            },
        ),
        match runnable.provider {
            Ok(name) => problems@.len() == 0 && name == provider,
            Err(e) => problems@.len() > 0 && e@ == not_runnable(),
        },
{
    let flagged = config.warnings();
    let mut warnings: Vec<String> = Vec::new();
    let mut at: usize = 0;
    while at < flagged.len()
        invariant
            at <= flagged.len(),
            warnings.len() == at,
            forall|i: int|
                0 <= i < at ==> (#[trigger] warnings@[i])@ == warning_lines(flagged@)[i],
        decreases flagged.len() - at,
    {
        let mut line = String::from_str("warn: ");
        line.append(flagged[at].message().as_str());
        warnings.push(line);
        at = at + 1;
    }
    assert(texts(warnings@) =~= warning_lines(flagged@));
    let mut errors: Vec<String> = Vec::new();
    let mut at: usize = 0;
    while at < problems.len()
        invariant
            at <= problems.len(),
            errors.len() == at,
            forall|i: int|
                0 <= i < at ==> (#[trigger] errors@[i])@ == error_lines(views(problems@))[i],
        decreases problems.len() - at,
    {
        let mut line = String::from_str("error: ");
        line.append(problems[at].message().as_str());
        errors.push(line);
        at = at + 1;
    }
    assert(texts(errors@) =~= error_lines(views(problems@)));
    let provider = if problems.len() == 0 {
        Ok(provider)
    } else {
        let mut message = String::from_str(REPO_CONFIG_PATH);
        message.append(" is not runnable");
        Err(message)
    };
    Runnable { warnings, errors, provider }
}

/// Everything a job needs before a directory is allocated for it, so a mistake
/// costs nothing.
#[derive(Debug, PartialEq, Eq)]
pub struct PreparedJob {
    pub repo: String,
    pub base_ref: String,
    pub prompt: String,
    pub provider: String,
    pub config: RepoConfig,
}

/// How far preparing a job has come: what was found out so far.
#[derive(Debug, PartialEq, Eq)]
pub struct Preparation {
    pub prompt: Option<Result<String, String>>,
    pub repo: Option<Result<String, String>>,
    pub base_ref: Option<Result<String, String>>,
    pub declared: Option<Result<RepoConfig, String>>,
}

/// What is next when a job is prepared.
#[derive(Debug, Clone, PartialEq, Eq)]
pub enum PrepareStep {
    ReadPrompt,
    FindRepository,
    /// Name the ref the job is cut from: [`base_ref_named_or_checked_out`], by
    /// this command where the command line does not name one.
    NameBaseRef(GitCall),
    /// Read the settings that the repository declares at this ref:
    /// [`RepoConfig::from_ref`].
    ReadConfig { repo: String, git_ref: String },
    /// Nothing is left to find out.
    Decide,
}

pub enum PrepareStepView {
    ReadPrompt,
    FindRepository,
    NameBaseRef(GitCallView),
    ReadConfig { repo: Seq<char>, git_ref: Seq<char> },
    Decide,
}

impl View for PrepareStep {
    type V = PrepareStepView;

    open spec fn view(&self) -> PrepareStepView {
        match self {
            PrepareStep::ReadPrompt => PrepareStepView::ReadPrompt,
            PrepareStep::FindRepository => PrepareStepView::FindRepository,
            PrepareStep::NameBaseRef(call) => PrepareStepView::NameBaseRef(call@),
            PrepareStep::ReadConfig { repo, git_ref } => PrepareStepView::ReadConfig {
                repo: repo@,
                git_ref: git_ref@,
            },
            PrepareStep::Decide => PrepareStepView::Decide,
        }
    }
}

impl Preparation {
    /// Nothing found out yet.
    pub fn new() -> (preparation: Preparation)
        ensures
            preparation.prompt is None,
            preparation.repo is None,
            preparation.base_ref is None,
            preparation.declared is None,
    {
        Preparation { prompt: None, repo: None, base_ref: None, declared: None }
    }

    /// What is next: one thing after the other, and nothing more once one of
    /// them failed.
    pub open spec fn step(self) -> PrepareStepView {
        match self.prompt {
            None => PrepareStepView::ReadPrompt,
            Some(Err(_)) => PrepareStepView::Decide,
            Some(Ok(_)) => match self.repo {
                None => PrepareStepView::FindRepository,
                Some(Err(_)) => PrepareStepView::Decide,
                Some(Ok(repo)) => match self.base_ref {
                    None => PrepareStepView::NameBaseRef(
                        git_call(
                            repo@,
                            seq!["branch"@, "--show-current"@],
                            "branch --show-current"@,
                        ),
                    ),
                    Some(Err(_)) => PrepareStepView::Decide,
                    Some(Ok(base_ref)) => match self.declared {
                        None => PrepareStepView::ReadConfig { repo: repo@, git_ref: base_ref@ },
                        Some(_) => PrepareStepView::Decide,
                    },
                },
            },
        }
    }

    /// What is next.
    pub fn next(&self) -> (step: PrepareStep)
        ensures
            step@ == self.step(),
    {
        match &self.prompt {
            None => PrepareStep::ReadPrompt,
            Some(Err(_)) => PrepareStep::Decide,
            Some(Ok(_)) => match &self.repo {
                None => PrepareStep::FindRepository,
                Some(Err(_)) => PrepareStep::Decide,
                Some(Ok(repo)) => match &self.base_ref {
                    None => PrepareStep::NameBaseRef(git::current_branch(repo.as_str())),
                    Some(Err(_)) => PrepareStep::Decide,
                    Some(Ok(base_ref)) => match &self.declared {
                        None => PrepareStep::ReadConfig {
                            repo: repo.clone(),
                            git_ref: base_ref.clone(),
                        },
                        Some(_) => PrepareStep::Decide,
                    },
                },
            },
        }
    }

    /// The first thing that failed.
    pub open spec fn failure(self) -> Option<Seq<char>> {
        match (self.prompt, self.repo, self.base_ref, self.declared) {
            (Some(Err(e)), _, _, _) => Some(e@),
            (_, Some(Err(e)), _, _) => Some(e@),
            (_, _, Some(Err(e)), _) => Some(e@),
            (_, _, _, Some(Err(e))) => Some(e@),
            _ => None,
        }
    }

    /// Whether the wall-clock cap that was declared, if there is one, can be
    /// read at all.
    pub open spec fn cap_is_countable(self) -> bool {
        self.declared matches Some(Ok(config)) ==> config.cap_is_countable()
    }

    /// Whether the wall-clock cap that was declared, if there is one, is a
    /// duration.
    pub open spec fn cap_is_duration(self) -> bool {
        self.declared matches Some(Ok(config)) ==> config.cap_is_duration()
    }
}

/// A job that is ready to be allocated, or why there is none, and everything
/// there is to print about it.
#[derive(Debug, PartialEq, Eq)]
pub struct Prepared {
    pub warnings: Vec<String>,
    pub errors: Vec<String>,
    pub job: Result<PreparedJob, String>,
}

/// Whether this is what there is to say of a job of which that much was found
/// out: the first thing that failed, else whether its repository can run it.
pub open spec fn says_prepared(
    prepared: Prepared,
    found: Preparation,
    chosen: Option<Seq<char>>,
    is_duration: bool,
) -> bool {
    match found.failure() {
        Some(e) => {
            &&& prepared.job matches Err(message)
            &&& message@ == e
            &&& prepared.warnings@.len() == 0
            &&& prepared.errors@.len() == 0
        },
        None => {
            let config = found.declared->0->Ok_0;
            let runnable = Runnable {
                warnings: prepared.warnings,
                errors: prepared.errors,
                provider: match prepared.job {
                    Ok(job) => Ok(job.provider),
                    Err(e) => Err(e),
                },
            };
            &&& says_runnable(runnable, config, chosen, is_duration)
            &&& prepared.job matches Ok(job) ==> job.repo == found.repo->0->Ok_0 && job.base_ref
                == found.base_ref->0->Ok_0 && job.prompt == found.prompt->0->Ok_0 && job.config
                == config
        },
    }
}

/// The job, once everything it needs is known.
///
/// A directory is allocated only for a job that is ready, so a repository that
/// has not opted in leaves no litter.
pub fn prepare_job(found: Preparation, chosen: &Option<String>) -> (prepared: Prepared)
    requires
        found.step() is Decide,
        found.cap_is_countable(),
    ensures
        says_prepared(prepared, found, opt_view(*chosen), found.cap_is_duration()),
{
    let is_duration = match &found.declared {
        Some(Ok(config)) => config.cap_parses(),
        _ => true,
    };
    prepare_given(found, chosen, is_duration)
}

/// [`prepare_job`], told whether the wall-clock cap is a duration.
pub fn prepare_given(found: Preparation, chosen: &Option<String>, is_duration: bool) -> (prepared:
    Prepared)
    requires
        found.step() is Decide,
    ensures
        says_prepared(prepared, found, opt_view(*chosen), is_duration),
{
    let prompt = match found.prompt.unwrap() {
        Ok(prompt) => prompt,
        Err(e) => {
            return refused(e);
        },
    };
    let repo = match found.repo.unwrap() {
        Ok(repo) => repo,
        Err(e) => {
            return refused(e);
        },
    };
    let base_ref = match found.base_ref.unwrap() {
        Ok(base_ref) => base_ref,
        Err(e) => {
            return refused(e);
        },
    };
    let config = match found.declared.unwrap() {
        Ok(config) => config,
        Err(e) => {
            return refused(e);
        },
    };
    let runnable = runnable_given(&config, chosen, is_duration);
    let job = match runnable.provider {
        Ok(provider) => Ok(PreparedJob { repo, base_ref, prompt, provider, config }),
        Err(e) => Err(e),
    };
    Prepared { warnings: runnable.warnings, errors: runnable.errors, job }
}

fn refused(e: String) -> (prepared: Prepared)
    ensures
        prepared.job == Err::<PreparedJob, String>(e),
        prepared.warnings@.len() == 0,
        prepared.errors@.len() == 0,
{
    Prepared { warnings: Vec::new(), errors: Vec::new(), job: Err(e) }
}

impl PreparedJob {
    /// What is kept of the job, enough to revise it later.
    pub fn meta(&self) -> (meta: JobMeta)
        ensures
            meta.repo == self.repo,
            meta.base_ref == self.base_ref,
            meta.prompt == self.prompt,
            meta.provider == self.provider,
    {
        JobMeta {
            repo: self.repo.clone(),
            base_ref: self.base_ref.clone(),
            prompt: self.prompt.clone(),
            provider: self.provider.clone(),
        }
    }

    /// The job's first round.
    pub fn first_round<'a>(&'a self) -> (spec: crate::job::JobSpec<'a>)
        ensures
            spec.prompt@ == self.prompt@,
            spec.provider@ == self.provider@,
            spec.base_ref@ == self.base_ref@,
            spec.round == 1,
    {
        crate::job::JobSpec {
            prompt: self.prompt.as_str(),
            provider: self.provider.as_str(),
            base_ref: self.base_ref.as_str(),
            round: 1,
        }
    }
}

/// How far finding out what a revise round needs has come.
#[derive(Debug, PartialEq, Eq)]
pub struct Revising {
    /// What was kept of the job.
    pub meta: Option<Result<JobMeta, String>>,
    /// What its log holds.
    pub events: Option<Result<Vec<Event>, String>>,
    pub declared: Option<Result<RepoConfig, String>>,
}

/// What is next when a job is to be revised.
#[derive(Debug, Clone, PartialEq, Eq)]
pub enum ReviseStep {
    FindJob,
    ReadEvents,
    /// Read the settings that the repository declares at this ref:
    /// [`RepoConfig::from_ref`].
    ReadConfig { repo: String, git_ref: String },
    /// Nothing is left to find out.
    Decide,
}

pub enum ReviseStepView {
    FindJob,
    ReadEvents,
    ReadConfig { repo: Seq<char>, git_ref: Seq<char> },
    Decide,
}

impl View for ReviseStep {
    type V = ReviseStepView;

    open spec fn view(&self) -> ReviseStepView {
        match self {
            ReviseStep::FindJob => ReviseStepView::FindJob,
            ReviseStep::ReadEvents => ReviseStepView::ReadEvents,
            ReviseStep::ReadConfig { repo, git_ref } => ReviseStepView::ReadConfig {
                repo: repo@,
                git_ref: git_ref@,
            },
            ReviseStep::Decide => ReviseStepView::Decide,
        }
    }
}

impl Revising {
    /// Nothing found out yet.
    pub fn new() -> (revising: Revising)
        ensures
            revising.meta is None,
            revising.events is None,
            revising.declared is None,
    {
        Revising { meta: None, events: None, declared: None }
    }

    /// What is next: one thing after the other, and nothing more once one of
    /// them failed.
    pub open spec fn step(self) -> ReviseStepView {
        match (self.meta, self.events, self.declared) {
            (None, _, _) => ReviseStepView::FindJob,
            (Some(Err(_)), _, _) => ReviseStepView::Decide,
            (Some(Ok(_)), None, _) => ReviseStepView::ReadEvents,
            (Some(Ok(_)), Some(Err(_)), _) => ReviseStepView::Decide,
            (Some(Ok(meta)), Some(Ok(_)), None) => ReviseStepView::ReadConfig {
                repo: meta.repo@,
                git_ref: meta.base_ref@,
            },
            (Some(Ok(_)), Some(Ok(_)), Some(_)) => ReviseStepView::Decide,
        }
    }

    /// What is next.
    ///
    /// The settings are read at the ref the job was cut from, not at the job's
    /// own branch: the previous round is not allowed to have changed the
    /// settings that govern this one.
    pub fn next(&self) -> (step: ReviseStep)
        ensures
            step@ == self.step(),
    {
        let meta = match &self.meta {
            None => {
                return ReviseStep::FindJob;
            },
            Some(Err(_)) => {
                return ReviseStep::Decide;
            },
            Some(Ok(meta)) => meta,
        };
        match &self.events {
            None => {
                return ReviseStep::ReadEvents;
            },
            Some(Err(_)) => {
                return ReviseStep::Decide;
            },
            Some(Ok(_)) => {},
        }
        match &self.declared {
            None => ReviseStep::ReadConfig {
                repo: meta.repo.clone(),
                git_ref: meta.base_ref.clone(),
            },
            Some(_) => ReviseStep::Decide,
        }
    }

    /// The first thing that failed.
    pub open spec fn failure(self) -> Option<Seq<char>> {
        match (self.meta, self.events, self.declared) {
            (Some(Err(e)), _, _) => Some(e@),
            (_, Some(Err(e)), _) => Some(e@),
            (_, _, Some(Err(e))) => Some(e@),
            _ => None,
        }
    }

    /// Whether the wall-clock cap that was declared, if there is one, can be
    /// read at all.
    pub open spec fn cap_is_countable(self) -> bool {
        self.declared matches Some(Ok(config)) ==> config.cap_is_countable()
    }

    /// Whether the wall-clock cap that was declared, if there is one, is a
    /// duration.
    pub open spec fn cap_is_duration(self) -> bool {
        self.declared matches Some(Ok(config)) ==> config.cap_is_duration()
    }

    /// Whether the round that comes next can be numbered.
    pub open spec fn can_be_numbered(self) -> bool {
        self.events matches Some(Ok(events)) ==> rounds_started(views(events@)) < u32::MAX
    }
}

/// A job that is ready for another round.
#[derive(Debug, PartialEq, Eq)]
pub struct ReadyRevision {
    pub meta: JobMeta,
    pub config: RepoConfig,
    pub round: u32,
}

impl ReadyRevision {
    /// The round, with feedback folded into the prompt.
    pub fn revised(&self, feedback: &str) -> (job: RevisedJob)
        ensures
            job.prompt@ == prompt_with_feedback(self.meta.prompt@, feedback@),
            job.provider@ == self.meta.provider@,
            job.base_ref@ == self.meta.base_ref@,
            job.round == self.round,
    {
        revise_job(&self.meta, &Revision { feedback, round: self.round })
    }
}

/// A job that is ready for another round, or why there is none, and everything
/// there is to print about it.
#[derive(Debug, PartialEq, Eq)]
pub struct Revisable {
    pub warnings: Vec<String>,
    pub errors: Vec<String>,
    pub job: Result<ReadyRevision, String>,
}

/// Whether this is what there is to say of a job of which that much was found
/// out: the first thing that failed, else whether its repository can still run
/// it with the provider it was started with.
pub open spec fn says_revisable(revisable: Revisable, found: Revising, is_duration: bool) -> bool {
    match found.failure() {
        Some(e) => {
            &&& revisable.job matches Err(message)
            &&& message@ == e
            &&& revisable.warnings@.len() == 0
            &&& revisable.errors@.len() == 0
        },
        None => {
            let meta = found.meta->0->Ok_0;
            let config = found.declared->0->Ok_0;
            let runnable = Runnable {
                warnings: revisable.warnings,
                errors: revisable.errors,
                provider: match revisable.job {
                    Ok(job) => Ok(job.meta.provider),
                    Err(e) => Err(e),
                },
            };
            &&& says_runnable(runnable, config, Some(meta.provider@), is_duration)
            &&& revisable.job matches Ok(job) ==> job.meta == meta && job.config == config
                && job.round == rounds_started(views(found.events->0->Ok_0@)) + 1
        },
    }
}

/// The round that revises a job, once everything it needs is known.
pub fn prepare_revision(found: Revising) -> (revisable: Revisable)
    requires
        found.step() is Decide,
        found.can_be_numbered(),
        found.cap_is_countable(),
    ensures
        says_revisable(revisable, found, found.cap_is_duration()),
{
    let is_duration = match &found.declared {
        Some(Ok(config)) => config.cap_parses(),
        _ => true,
    };
    revision_given(found, is_duration)
}

/// [`prepare_revision`], told whether the wall-clock cap is a duration.
pub fn revision_given(found: Revising, is_duration: bool) -> (revisable: Revisable)
    requires
        found.step() is Decide,
        found.can_be_numbered(),
    ensures
        says_revisable(revisable, found, is_duration),
{
    let meta = match found.meta.unwrap() {
        Ok(meta) => meta,
        Err(e) => {
            return Revisable { warnings: Vec::new(), errors: Vec::new(), job: Err(e) };
        },
    };
    let events = match found.events.unwrap() {
        Ok(events) => events,
        Err(e) => {
            return Revisable { warnings: Vec::new(), errors: Vec::new(), job: Err(e) };
        },
    };
    let config = match found.declared.unwrap() {
        Ok(config) => config,
        Err(e) => {
            return Revisable { warnings: Vec::new(), errors: Vec::new(), job: Err(e) };
        },
    };
    let chosen = Some(meta.provider.clone());
    let runnable = runnable_given(&config, &chosen, is_duration);
    let job = match runnable.provider {
        Ok(_) => {
            let round = revision_round(events.as_slice());
            Ok(ReadyRevision { meta, config, round })
        },
        Err(e) => Err(e),
    };
    Revisable { warnings: runnable.warnings, errors: runnable.errors, job }
}

/// The ref a job was cut from governs every round of it: the first round's
/// settings are read there, and so are those of every later one, from what was
/// kept of the job.
pub proof fn law_the_base_ref_governs_every_round(
    found: Preparation,
    prepared: Prepared,
    chosen: Option<Seq<char>>,
    is_duration: bool,
    again: Revising,
)
    requires
        found.step() is Decide,
        says_prepared(prepared, found, chosen, is_duration),
        prepared.job matches Ok(job) && again.meta matches Some(Ok(meta)) && meta.repo == job.repo
            && meta.base_ref == job.base_ref,
        again.step() is ReadConfig,
    ensures
        found.base_ref matches Some(Ok(base_ref)) && found.repo matches Some(Ok(repo)) && ({
            &&& (Preparation { declared: None, ..found }).step() == (PrepareStepView::ReadConfig {
                repo: repo@,
                git_ref: base_ref@,
            })
            &&& again.step() == (ReviseStepView::ReadConfig { repo: repo@, git_ref: base_ref@ })
        }),
{
}

/// What running a job takes from the machine.
///
/// `copy` is declared by the repository, so its paths resolve against the
/// repository — not against wherever the user happened to stand.
pub fn machine_opts(repo: &str, worktrees_root: Option<String>) -> (opts: RunOpts)
    ensures
        opts.repo@ == repo@,
        opts.seed_from@ == repo@,
        opts.remote@ == DEFAULT_REMOTE@,
        opts.worktrees_root == worktrees_root,
{
    RunOpts {
        repo: String::from_str(repo),
        seed_from: String::from_str(repo),
        remote: String::from_str(DEFAULT_REMOTE),
        worktrees_root,
    }
}

/// What to do with a finished job's branch.
#[derive(Debug, Clone, PartialEq, Eq)]
pub enum Handover {
    /// The agent changed nothing, so there is nothing to deliver.
    Nothing,
    /// Say this, and deliver nothing.
    Say(String),
    /// Say the note, if there is one, and deliver the branch from `repo`
    /// against `base`.
    Deliver {
        note: Option<String>,
        repo: String,
        delivery: Delivery,
        remote: String,
        branch: String,
        base: String,
    },
}

pub enum HandoverView {
    Nothing,
    Say(Seq<char>),
    Deliver {
        note: Option<Seq<char>>,
        repo: Seq<char>,
        mode: DeliveryMode,
        remote: Seq<char>,
        branch: Seq<char>,
        base: Seq<char>,
    },
}

impl View for Handover {
    type V = HandoverView;

    open spec fn view(&self) -> HandoverView {
        match self {
            Handover::Nothing => HandoverView::Nothing,
            Handover::Say(line) => HandoverView::Say(line@),
            Handover::Deliver { note, repo, delivery, remote, branch, base } =>
            HandoverView::Deliver {
                note: opt_view(*note),
                repo: repo@,
                mode: delivery.mode,
                remote: remote@,
                branch: branch@,
                base: base@,
            },
        }
    }
}

/// What a pull request against another branch than the job was cut from is
/// told with.
pub open spec fn other_base_note(base: Seq<char>, base_ref: Seq<char>) -> Seq<char> {
    "note: this pull request will target '"@ + base + "', but the job was cut from '"@ + base_ref
        + "' — review the diff before merging, since it carries everything separating the two, not just this job's work"@
}

/// What to do with a finished job's branch.
pub open spec fn handover_of(
    repo: Seq<char>,
    mode: DeliveryMode,
    base: Option<Seq<char>>,
    base_ref: Seq<char>,
    branch: Option<Seq<char>>,
    outcome: JobOutcome,
) -> HandoverView {
    match branch {
        None => HandoverView::Nothing,
        Some(branch) => match outcome {
            JobOutcome::Failed => HandoverView::Say(
                "branch: "@ + branch + " (not delivered — the job did not pass)"@,
            ),
            JobOutcome::Passed => {
                let target = match base {
                    Some(base) => base,
                    None => base_ref,
                };
                HandoverView::Deliver {
                    note: if target != base_ref {
                        Some(other_base_note(target, base_ref))
                    } else {
                        None
                    },
                    repo,
                    mode,
                    remote: DEFAULT_REMOTE@,
                    branch,
                    base: target,
                }
            },
        },
    }
}

/// Hand a finished job's branch on, once `verify` accepted it.
///
/// A failed job still leaves a real branch, but opening a pull request for
/// work that did not pass is noise — the branch name is printed instead.
pub fn deliver_if_verified(
    repo: &str,
    config: &RepoConfig,
    base_ref: &str,
    branch: Option<String>,
    outcome: JobOutcome,
) -> (handover: Handover)
    ensures
        handover@ == handover_of(
            repo@,
            config.delivery.mode,
            opt_view(config.base),
            base_ref@,
            opt_view(branch),
            outcome,
        ),
{
    let branch = match branch {
        None => {
            return Handover::Nothing;
        },
        Some(branch) => branch,
    };
    match outcome {
        JobOutcome::Failed => {
            let mut line = String::from_str("branch: ");
            line.append(branch.as_str());
            line.append(" (not delivered — the job did not pass)");
            Handover::Say(line)
        },
        JobOutcome::Passed => {
            let base = match &config.base {
                Some(base) => base.clone(),
                None => String::from_str(base_ref),
            };
            let note = if same_text(base.as_str(), base_ref) {
                None
            } else {
                let mut note = String::from_str("note: this pull request will target '");
                note.append(base.as_str());
                note.append("', but the job was cut from '");
                note.append(base_ref);
                note.append(
                    "' — review the diff before merging, since it carries everything separating the two, not just this job's work",
                );
                Some(note)
            };
            Handover::Deliver {
                note,
                repo: String::from_str(repo),
                delivery: Delivery { mode: config.delivery.mode },
                remote: String::from_str(DEFAULT_REMOTE),
                branch,
                base,
            }
        },
    }
}

/// Work that did not pass is never delivered.
pub proof fn law_only_accepted_work_is_delivered(
    repo: Seq<char>,
    mode: DeliveryMode,
    base: Option<Seq<char>>,
    base_ref: Seq<char>,
    branch: Option<Seq<char>>,
    outcome: JobOutcome,
)
    ensures
        handover_of(repo, mode, base, base_ref, branch, outcome) is Deliver <==> outcome
            == JobOutcome::Passed && branch is Some,
{
}

/// How far `run` or `revise` has come.
#[derive(Debug, PartialEq, Eq)]
pub struct Course {
    /// Everything the round needs was found out.
    pub ready: Option<Result<(), String>>,
    /// The job has a directory, and its log is open.
    pub allocated: Option<Result<(), String>>,
    /// The round was run.
    pub ran: Option<Result<JobOutcome, String>>,
}

/// What `run` or `revise` does next.
#[derive(Debug, Clone, PartialEq, Eq)]
pub enum CourseStep {
    /// Find out everything the round needs.
    Prepare,
    /// Make room for the job, or open what it has.
    Allocate,
    RunJob,
    /// Say what the round left, hand its branch on, and exit by its outcome.
    Finish(JobOutcome),
    /// Say this, and exit as for a mistake.
    Refuse(String),
}

pub enum CourseStepView {
    Prepare,
    Allocate,
    RunJob,
    Finish(JobOutcome),
    Refuse(Seq<char>),
}

impl View for CourseStep {
    type V = CourseStepView;

    open spec fn view(&self) -> CourseStepView {
        match self {
            CourseStep::Prepare => CourseStepView::Prepare,
            CourseStep::Allocate => CourseStepView::Allocate,
            CourseStep::RunJob => CourseStepView::RunJob,
            CourseStep::Finish(outcome) => CourseStepView::Finish(*outcome),
            CourseStep::Refuse(e) => CourseStepView::Refuse(e@),
        }
    }
}

impl Course {
    /// Nothing done yet.
    pub fn new() -> (course: Course)
        ensures
            course.ready is None,
            course.allocated is None,
            course.ran is None,
    {
        Course { ready: None, allocated: None, ran: None }
    }

    /// What is next.
    pub open spec fn step(self) -> CourseStepView {
        match (self.ready, self.allocated, self.ran) {
            (None, _, _) => CourseStepView::Prepare,
            (Some(Err(e)), _, _) => CourseStepView::Refuse(e@),
            (Some(Ok(())), None, _) => CourseStepView::Allocate,
            (Some(Ok(())), Some(Err(e)), _) => CourseStepView::Refuse(e@),
            (Some(Ok(())), Some(Ok(())), None) => CourseStepView::RunJob,
            (Some(Ok(())), Some(Ok(())), Some(Err(e))) => CourseStepView::Refuse(e@),
            (Some(Ok(())), Some(Ok(())), Some(Ok(outcome))) => CourseStepView::Finish(outcome),
        }
    }

    /// What is next. A directory is allocated only for a job that is ready, so
    /// a mistake costs nothing.
    pub fn next(&self) -> (step: CourseStep)
        ensures
            step@ == self.step(),
    {
        match &self.ready {
            None => {
                return CourseStep::Prepare;
            },
            Some(Err(e)) => {
                return CourseStep::Refuse(e.clone());
            },
            Some(Ok(())) => {},
        }
        match &self.allocated {
            None => {
                return CourseStep::Allocate;
            },
            Some(Err(e)) => {
                return CourseStep::Refuse(e.clone());
            },
            Some(Ok(())) => {},
        }
        match &self.ran {
            None => CourseStep::RunJob,
            Some(Err(e)) => CourseStep::Refuse(e.clone()),
            Some(Ok(outcome)) => CourseStep::Finish(*outcome),
        }
    }
}

/// The code a command exits with, once there is nothing more for it to do.
pub open spec fn course_code(step: CourseStepView) -> Option<u8> {
    match step {
        CourseStepView::Finish(JobOutcome::Passed) => Some(EXIT_SUCCESS),
        CourseStepView::Finish(JobOutcome::Failed) => Some(EXIT_JOB_FAILED),
        CourseStepView::Refuse(_) => Some(EXIT_USAGE),
        _ => None,
    }
}

/// The code a command exits with, once there is nothing more for it to do.
pub fn code_of_course(step: &CourseStep) -> (code: Option<u8>)
    ensures
        code == course_code(step@),
{
    match step {
        CourseStep::Finish(outcome) => Some(exit_code_for(*outcome)),
        CourseStep::Refuse(_) => Some(EXIT_USAGE),
        CourseStep::Prepare => None,
        CourseStep::Allocate => None,
        CourseStep::RunJob => None,
    }
}

/// The exit code tells a mistake from a job that failed: it is
/// [`EXIT_JOB_FAILED`] exactly when a job ran and failed, and [`EXIT_USAGE`]
/// exactly when something kept it from being run.
pub proof fn law_exit_codes_tell_mistakes_from_failures(course: Course)
    ensures
        course_code(course.step()) == Some(EXIT_JOB_FAILED) <==> course.step()
            == CourseStepView::Finish(JobOutcome::Failed),
        course_code(course.step()) == Some(EXIT_USAGE) <==> course.step() is Refuse,
        course_code(course.step()) == Some(EXIT_SUCCESS) <==> course.step()
            == CourseStepView::Finish(JobOutcome::Passed),
{
}

/// Nothing is allocated for a job that is not ready, and nothing is run that
/// has nowhere to be recorded.
pub proof fn law_a_mistake_leaves_no_litter(course: Course)
    ensures
        course.step() is Allocate ==> course.ready matches Some(Ok(())),
        course.step() is RunJob ==> course.ready matches Some(Ok(())),
        course.step() is RunJob ==> course.allocated matches Some(Ok(())),
{
}

/// What a job's files are used for, when that fails.
#[derive(Debug, Clone, Copy, PartialEq, Eq, Structural)]
pub enum Storage {
    MakeDirectory,
    WriteMeta,
    OpenLog,
    ReadLog,
}

impl Storage {
    /// What was being done.
    pub open spec fn doing(self) -> Seq<char> {
        match self {
            Storage::MakeDirectory => "preparing the job directory"@,
            Storage::WriteMeta => "writing meta.json"@,
            Storage::OpenLog => "opening the event log"@,
            Storage::ReadLog => "reading the event log"@,
        }
    }

    /// How it is reported.
    pub fn failure(self, error: &str) -> (message: String)
        ensures
            message@ == self.doing() + ": "@ + error@,
    {
        let mut message = String::from_str(
            match self {
                Storage::MakeDirectory => "preparing the job directory",
                Storage::WriteMeta => "writing meta.json",
                Storage::OpenLog => "opening the event log",
                Storage::ReadLog => "reading the event log",
            },
        );
        message.append(": ");
        message.append(error);
        message
    }
}

/// How a branch that could not be delivered is reported.
pub fn delivery_failure(branch: &str, error: &str) -> (warning: String)
    ensures
        warning@ == "warn: delivering "@ + branch@ + ": "@ + error@,
{
    let mut warning = String::from_str("warn: delivering ");
    warning.append(branch);
    warning.append(": ");
    warning.append(error);
    warning
}

/// Which job a command acts on: the one named, else the latest.
pub fn locate_job(job_id: Option<u64>, latest: Option<u64>) -> (id: Result<u64, String>)
    ensures
        match (job_id, latest) {
            (Some(named), _) => id == Ok::<u64, String>(named),
            (None, Some(latest)) => id == Ok::<u64, String>(latest),
            (None, None) => id matches Err(e) && e@ == "no jobs yet"@,
        },
{
    match job_id {
        Some(named) => Ok(named),
        None => match latest {
            Some(latest) => Ok(latest),
            None => Err(String::from_str("no jobs yet")),
        },
    }
}

/// How a job whose `meta.json` cannot be read is reported.
pub fn meta_failure(id: u64, error: &str) -> (message: String)
    ensures
        message@ == "reading meta.json for job "@ + decimal(id as nat) + ": "@ + error@,
{
    let mut message = String::from_str("reading meta.json for job ");
    message.append(decimal_of(id).as_str());
    message.append(": ");
    message.append(error);
    message
}

/// How many rounds the events tell of.
pub open spec fn rounds_started(events: Seq<EventView>) -> nat
    decreases events.len(),
{
    if events.len() == 0 {
        0
    } else {
        rounds_started(events.drop_last()) + if events.last().kind is JobStarted {
            1nat
        } else {
            0nat
        }
    }
}

/// How many rounds this job has already had, so the next one is numbered.
pub fn rounds_so_far(events: &[Event]) -> (rounds: u32)
    ensures
        rounds == (if rounds_started(views(events@)) <= u32::MAX {
            rounds_started(views(events@))
        } else {
            u32::MAX as nat
        }),
{
    let ghost all = views(events@);
    let mut count: usize = 0;
    let mut at: usize = 0;
    while at < events.len()
        invariant
            at <= events.len(),
            all == views(events@),
            count <= at,
            count == rounds_started(all.take(at as int)),
        decreases events.len() - at,
    {
        assert(all.take(at + 1).drop_last() =~= all.take(at as int));
        assert(all.take(at + 1).last() == events@[at as int]@);
        match &events[at].kind {
            EventKind::JobStarted { .. } => {
                count = count + 1;
            },
            _ => {},
        }
        at = at + 1;
    }
    assert(all.take(at as int) =~= all);
    if count as u64 <= u32::MAX as u64 {
        count as u32
    } else {
        u32::MAX
    }
}

/// The number of the round that revising a job starts.
pub fn revision_round(events: &[Event]) -> (round: u32)
    requires
        rounds_started(views(events@)) < u32::MAX,
    ensures
        round == rounds_started(views(events@)) + 1,
{
    rounds_so_far(events) + 1
}

/// What is printed as a revise round starts.
pub fn revising_line(job_id: u64, round: u32) -> (line: String)
    ensures
        line@ == "revising job "@ + decimal(job_id as nat) + " (round "@ + decimal(round as nat)
            + ")"@,
{
    let mut line = String::from_str("revising job ");
    line.append(decimal_of(job_id).as_str());
    line.append(" (round ");
    line.append(decimal_of(round as u64).as_str());
    line.append(")");
    line
}

/// What `status` prints of a job, given how its duration is told: the summary,
/// how long the last round took if it has ended, and the branch if there is
/// one.
pub fn status_lines(report: &JobReport, took: Option<String>) -> (lines: Vec<String>)
    ensures
        texts(lines@) == seq![report@.summary_line()] + (match took {
            Some(took) => seq![took@],
            None => seq![],
        }) + (match report.branch {
            Some(branch) => seq!["branch: "@ + branch@],
            None => seq![],
        }),
{
    let mut lines: Vec<String> = Vec::new();
    lines.push(report.to_summary_line());
    if let Some(took) = took {
        lines.push(took);
    }
    if let Some(branch) = &report.branch {
        let mut line = String::from_str("branch: ");
        line.append(branch.as_str());
        lines.push(line);
    }
    assert(texts(lines@) =~= seq![report@.summary_line()] + (match took {
        Some(took) => seq![took@],
        None => seq![],
    }) + (match report.branch {
        Some(branch) => seq!["branch: "@ + branch@],
        None => seq![],
    }));
    lines
}

/// What to do about a job's captured output.
#[derive(Debug, Clone, PartialEq, Eq)]
pub enum LogAction {
    /// Fail with this: there is none.
    Fail(String),
    /// Run this, which prints it as it grows.
    Follow(CommandSpec),
    /// Print what there is.
    Print,
}

/// What to do about a job's captured output, told whether there is any.
///
/// Following is delegated to `tail` rather than reimplemented; a machine
/// without it gets the spawn error.
pub fn print_job_log(paths: &JobPaths, exists: bool, follow: bool) -> (action: LogAction)
    ensures
        match action {
            LogAction::Fail(e) => !exists && e@ == "job "@ + decimal(paths.id as nat)
                + " has captured no output yet"@,
            LogAction::Follow(tail) => exists && follow && tail.program@ == "tail"@ && texts(
                tail.args@,
            ) == seq!["-f"@, crate::filepath::path_below(paths.dir@, "job.log"@)],
            LogAction::Print => exists && !follow,
        },
{
    if !exists {
        let mut message = String::from_str("job ");
        message.append(decimal_of(paths.id).as_str());
        message.append(" has captured no output yet");
        return LogAction::Fail(message);
    }
    if !follow {
        return LogAction::Print;
    }
    let log = paths.log();
    let args = args_of(&["-f", log.as_str()]);
    assert(texts(args@) =~= seq!["-f"@, crate::filepath::path_below(paths.dir@, "job.log"@)]);
    LogAction::Follow(CommandSpec { program: String::from_str("tail"), args })
}

/// How long `gc` keeps what is idle, from what `--older-than` said.
///
/// An error means that it is not a duration.
pub fn keep_for(older_than: &Option<String>) -> (span: Result<Option<Span>, String>)
    requires
        older_than matches Some(text) ==> is_countable(text@),
    ensures
        match opt_view(*older_than) {
            None => span matches Ok(None),
            Some(text) => match humantime_parsed(text) {
                Ok((secs, nanos)) => span matches Ok(Some(span)) && span@ == secs * NANOS_PER_SEC
                    + nanos,
                Err(e) => span matches Err(message) && message@ == duration_error(
                    debug_text(text),
                    e,
                ),
            },
        },
{
    match older_than {
        None => Ok(None),
        Some(text) => match parse_duration(text.as_str()) {
            Ok(span) => Ok(Some(span)),
            Err(e) => Err(e),
        },
    }
}

/// The line printed for one stale directory.
pub open spec fn stale_line(entry: StaleWorktree, dry_run: bool) -> Seq<char> {
    (if dry_run {
        "would remove"@
    } else {
        "removing"@
    }) + " "@ + entry.path@ + " — "@ + entry.because@
}

/// The lines printed for one repository's stale directories.
pub open spec fn repository_lines(stale: Seq<StaleWorktree>, dry_run: bool) -> Seq<Seq<char>> {
    Seq::new(stale.len(), |i: int| stale_line(stale[i], dry_run))
}

/// The lines printed for everything that is stale.
pub open spec fn stale_lines(found: Seq<RepositoryLeftovers>, dry_run: bool) -> Seq<Seq<char>>
    decreases found.len(),
{
    if found.len() == 0 {
        Seq::empty()
    } else {
        stale_lines(found.drop_last(), dry_run) + repository_lines(found.last().stale@, dry_run)
    }
}

/// What `gc` does once it has listed what is stale.
#[derive(Debug, Clone, PartialEq, Eq)]
pub enum SweepAction {
    /// Say this, and remove nothing.
    Say(String),
    /// Remove what was listed.
    Remove,
}

/// What `gc` prints, and then does.
#[derive(Debug, Clone, PartialEq, Eq)]
pub struct Sweep {
    pub lines: Vec<String>,
    pub action: SweepAction,
}

/// Report what `gc` would collect, or what it is about to.
///
/// Policy lives in [`crate::gc`]; this is the telling half.
pub fn remove_stale_worktrees(found: &Vec<RepositoryLeftovers>, dry_run: bool) -> (sweep: Sweep)
    requires
        stale_count(found@) <= usize::MAX,
    ensures
        texts(sweep.lines@) == stale_lines(found@, dry_run),
        match sweep.action {
            SweepAction::Remove => !dry_run && stale_count(found@) > 0,
            SweepAction::Say(line) => if stale_count(found@) == 0 {
                line@ == "nothing to collect"@
            } else {
                dry_run && line@ == decimal(stale_count(found@)) + " worktree(s) would be removed"@
            },
        },
{
    let mut lines: Vec<String> = Vec::new();
    let mut at: usize = 0;
    assert(texts(lines@) =~= stale_lines(found@.take(0), dry_run));
    while at < found.len()
        invariant
            at <= found.len(),
            texts(lines@) == stale_lines(found@.take(at as int), dry_run),
        decreases found.len() - at,
    {
        let ghost before = lines@;
        assert(found@.take(at + 1).drop_last() =~= found@.take(at as int));
        assert(found@.take(at + 1).last() == found@[at as int]);
        let mut told = lines_for(&found[at].stale, dry_run);
        let ghost added = told@;
        lines.append(&mut told);
        assert(texts(lines@) =~= texts(before) + texts(added));
        at = at + 1;
    }
    assert(found@.take(at as int) =~= found@);
    let count = total(found);
    let action = if count == 0 {
        SweepAction::Say(String::from_str("nothing to collect"))
    } else if dry_run {
        let mut line = decimal_of(count as u64);
        line.append(" worktree(s) would be removed");
        SweepAction::Say(line)
    } else {
        SweepAction::Remove
    };
    Sweep { lines, action }
}

fn lines_for(stale: &Vec<StaleWorktree>, dry_run: bool) -> (lines: Vec<String>)
    ensures
        texts(lines@) == repository_lines(stale@, dry_run),
{
    let mut lines: Vec<String> = Vec::new();
    let mut at: usize = 0;
    while at < stale.len()
        invariant
            at <= stale.len(),
            lines.len() == at,
            forall|i: int|
                0 <= i < at ==> (#[trigger] lines@[i])@ == repository_lines(stale@, dry_run)[i],
        decreases stale.len() - at,
    {
        let mut line = String::from_str(
            if dry_run {
                "would remove"
            } else {
                "removing"
            },
        );
        line.append(" ");
        line.append(stale[at].path.as_str());
        line.append(" — ");
        line.append(stale[at].because.as_str());
        lines.push(line);
        at = at + 1;
    }
    assert(texts(lines@) =~= repository_lines(stale@, dry_run));
    lines
}

/// What is printed of a collection: a line for each problem, and how many
/// directories went.
pub fn removed_lines(removed: &Removed) -> (told: (Vec<String>, String))
    ensures
        told.0.len() == removed.warnings.len(),
        forall|i: int|
            0 <= i < told.0.len() ==> (#[trigger] told.0@[i])@ == "warn: "@
                + removed.warnings@[i]@,
        told.1@ == "removed "@ + decimal(removed.directories as nat) + " worktree(s)"@,
{
    let mut warnings: Vec<String> = Vec::new();
    let mut at: usize = 0;
    while at < removed.warnings.len()
        invariant
            at <= removed.warnings.len(),
            warnings.len() == at,
            forall|i: int|
                0 <= i < at ==> (#[trigger] warnings@[i])@ == "warn: "@ + removed.warnings@[i]@,
        decreases removed.warnings.len() - at,
    {
        let mut line = String::from_str("warn: ");
        line.append(removed.warnings[at].as_str());
        warnings.push(line);
        at = at + 1;
    }
    let mut summary = String::from_str("removed ");
    summary.append(decimal_of(removed.directories as u64).as_str());
    summary.append(" worktree(s)");
    (warnings, summary)
}

/// The command line's provider goes before the repository's own; a job is run
/// under it exactly when a block declares it and the cap can be read; and every
/// reason against it is printed, one to a line.
pub proof fn law_the_command_line_chooses_the_provider(
    runnable: Runnable,
    config: RepoConfig,
    chosen: Option<Seq<char>>,
    is_duration: bool,
)
    requires
        says_runnable(runnable, config, chosen, is_duration),
    ensures
        ({
            let provider = if chosen is Some {
                chosen->0
            } else if config.provider is Some {
                config.provider->0@
            } else {
                Seq::empty()
            };
            let unnamed = provider.len() == 0;
            let declared = exists|i: int|
                0 <= i < config.providers@.len() && (#[trigger] config.providers@[i]).name@
                    == provider;
            let capped = config.max_duration is Some ==> is_duration;
            &&& runnable.provider is Ok <==> !unnamed && declared && capped
            &&& (runnable.provider matches Ok(name) ==> name@ == provider)
            &&& runnable.errors@.len() == (if unnamed || !declared {
                1int
            } else {
                0
            }) + (if capped {
                0int
            } else {
                1
            })
            &&& runnable.warnings@.len() == (if config.verify is None {
                1int
            } else {
                0
            })
            &&& forall|i: int|
                0 <= i < runnable.errors@.len() ==> "error: "@.is_prefix_of(
                    (#[trigger] runnable.errors@[i])@,
                )
            &&& (!capped ==> runnable.errors@.last()@ == "error: "@
                + ConfigErrorView::UnparseableMaxDuration(config.max_duration->0@).message())
            &&& (!unnamed && !declared ==> runnable.errors@[0]@ == "error: "@
                + ConfigErrorView::UnknownProvider(provider).message())
        }),
{
    let provider = provider_chosen(chosen, opt_view(config.provider));
    let problems = provider_problems(config.providers@, provider) + duration_problems(
        opt_view(config.max_duration),
        is_duration,
    );
    assert(texts(runnable.errors@).len() == runnable.errors@.len());
    assert(texts(runnable.warnings@).len() == runnable.warnings@.len());
    assert forall|i: int| 0 <= i < runnable.errors@.len() implies (
    #[trigger] runnable.errors@[i])@ == "error: "@ + problems[i].message() && "error: "@.is_prefix_of(
        runnable.errors@[i]@,
    ) by {
        assert(texts(runnable.errors@)[i] == runnable.errors@[i]@);
        let line = "error: "@ + problems[i].message();
        assert(line.take("error: "@.len() as int) =~= "error: "@);
    }
}

/// Whatever failed first is what a job is refused with; where nothing did and
/// the repository can run it, the job is exactly what was found out.
pub proof fn law_a_prepared_job_is_what_was_found(
    prepared: Prepared,
    found: Preparation,
    chosen: Option<Seq<char>>,
    is_duration: bool,
)
    requires
        found.step() is Decide,
        says_prepared(prepared, found, chosen, is_duration),
    ensures
        found.prompt matches Some(Err(e)) ==> (prepared.job matches Err(m) && m@ == e@),
        found.prompt is Some && found.prompt->0 is Ok && (found.repo matches Some(Err(_))) ==> (
        prepared.job matches Err(m) && m@ == found.repo->0->Err_0@),
        prepared.job matches Ok(job) ==> {
            &&& found.prompt == Some(Ok::<String, String>(job.prompt))
            &&& found.repo == Some(Ok::<String, String>(job.repo))
            &&& found.base_ref == Some(Ok::<String, String>(job.base_ref))
            &&& found.declared == Some(Ok::<RepoConfig, String>(job.config))
            &&& (chosen matches Some(name) ==> job.provider@ == name)
            &&& exists|i: int|
                0 <= i < job.config.providers@.len() && (#[trigger] job.config.providers@[i]).name@
                    == job.provider@
        },
{
}

/// A revise round is run under the provider the job was started with, by the
/// settings that were read, and numbered after all the rounds that started.
pub proof fn law_a_revision_goes_on_where_the_job_stands(
    revisable: Revisable,
    found: Revising,
    is_duration: bool,
)
    requires
        found.step() is Decide,
        says_revisable(revisable, found, is_duration),
    ensures
        revisable.job matches Ok(job) ==> {
            &&& found.meta == Some(Ok::<JobMeta, String>(job.meta))
            &&& found.declared == Some(Ok::<RepoConfig, String>(job.config))
            &&& found.events matches Some(Ok(events))
            &&& job.round == views(events@).filter(|e: EventView| e.kind is JobStarted).len() + 1
            &&& exists|i: int|
                0 <= i < job.config.providers@.len() && (#[trigger] job.config.providers@[i]).name@
                    == job.meta.provider@
        },
        found.meta matches Some(Err(e)) ==> (revisable.job matches Err(m) && m@ == e@),
{
    if let Some(Ok(events)) = found.events {
        law_rounds_are_counted_by_their_starts(views(events@));
    }
}

/// A job has had as many rounds as its log has starts.
pub proof fn law_rounds_are_counted_by_their_starts(events: Seq<EventView>)
    ensures
        rounds_started(events) == events.filter(|e: EventView| e.kind is JobStarted).len(),
    decreases events.len(),
{
    reveal(Seq::filter);
    if events.len() > 0 {
        law_rounds_are_counted_by_their_starts(events.drop_last());
    }
}

/// Accepted work is delivered from its own branch to the default remote, onto
/// the base the repository declares or else the ref the job was cut from, and
/// the user is told exactly when the two differ. Work that was not accepted is
/// told of by its branch, and a job without a branch is not told of.
pub proof fn law_work_is_delivered_onto_its_base(
    repo: Seq<char>,
    mode: DeliveryMode,
    base: Option<Seq<char>>,
    base_ref: Seq<char>,
    branch: Seq<char>,
)
    ensures
        handover_of(
            repo,
            mode,
            base,
            base_ref,
            Some(branch),
            JobOutcome::Passed,
        ) matches HandoverView::Deliver { note, repo: at, mode: how, remote, branch: from, base: onto }
            && at == repo && how == mode && remote == DEFAULT_REMOTE@ && from == branch && (
        base matches Some(declared) ==> onto == declared) && (base is None ==> onto == base_ref) && (
        note is Some <==> onto != base_ref),
        handover_of(
            repo,
            mode,
            base,
            base_ref,
            Some(branch),
            JobOutcome::Failed,
        ) matches HandoverView::Say(line) && exists|a: Seq<char>, b: Seq<char>|
            line == #[trigger] (a + branch + b),
        forall|outcome: JobOutcome|
            #[trigger] handover_of(repo, mode, base, base_ref, None, outcome) is Nothing,
{
    let b = " (not delivered — the job did not pass)"@;
    assert("branch: "@ + branch + b == "branch: "@ + branch + b);
}

/// A command goes on step by step: each only after the one before it succeeded,
/// and what failed is what the command is refused with.
pub proof fn law_a_command_goes_on_as_long_as_all_is_well(course: Course)
    ensures
        course.ready is None ==> course.step() is Prepare,
        course.ready matches Some(Err(e)) ==> course.step() == CourseStepView::Refuse(e@),
        (course.ready matches Some(Ok(()))) ==> {
            &&& course.allocated is None ==> course.step() is Allocate
            &&& (course.allocated matches Some(Err(e)) ==> course.step() == CourseStepView::Refuse(
                e@,
            ))
            &&& (course.allocated matches Some(Ok(()))) ==> {
                &&& course.ran is None ==> course.step() is RunJob
                &&& (course.ran matches Some(Err(e)) ==> course.step() == CourseStepView::Refuse(
                    e@,
                ))
                &&& (course.ran matches Some(Ok(outcome)) ==> course.step()
                    == CourseStepView::Finish(outcome))
            }
        },
{
}

/// Everything that is stale is listed, repository by repository and in order,
/// a line each; the line names the directory, ends with the reason, and says
/// in a dry run that nothing goes yet.
pub proof fn law_everything_stale_is_listed(
    first: Seq<RepositoryLeftovers>,
    one: RepositoryLeftovers,
    then: Seq<RepositoryLeftovers>,
    dry_run: bool,
    at: int,
)
    requires
        0 <= at < one.stale@.len(),
    ensures
        stale_lines(first.push(one) + then, dry_run) == stale_lines(first, dry_run)
            + repository_lines(one.stale@, dry_run) + stale_lines(then, dry_run),
        repository_lines(one.stale@, dry_run).len() == one.stale@.len(),
        one.stale@[at].because@.is_suffix_of(repository_lines(one.stale@, dry_run)[at]),
        exists|a: Seq<char>, b: Seq<char>|
            repository_lines(one.stale@, dry_run)[at] == #[trigger] (a + one.stale@[at].path@ + b),
        repository_lines(one.stale@, true)[at] != repository_lines(one.stale@, false)[at],
    decreases then.len(),
{
    let entry = one.stale@[at];
    let line = stale_line(entry, dry_run);
    let a = (if dry_run {
        "would remove"@
    } else {
        "removing"@
    }) + " "@;
    let b = " — "@ + entry.because@;
    assert(line =~= a + entry.path@ + b);
    assert(line.skip(line.len() - entry.because@.len()) =~= entry.because@);
    reveal_strlit("would remove");
    reveal_strlit("removing");
    assert(stale_line(entry, true)[0] == 'w');
    assert(stale_line(entry, false)[0] == 'r');
    if then.len() == 0 {
        assert(first.push(one) + then =~= first.push(one));
        assert(first.push(one).drop_last() =~= first);
        assert(stale_lines(first, dry_run) + repository_lines(one.stale@, dry_run) + stale_lines(
            then,
            dry_run,
        ) =~= stale_lines(first, dry_run) + repository_lines(one.stale@, dry_run));
    } else {
        law_everything_stale_is_listed(first, one, then.drop_last(), dry_run, at);
        assert((first.push(one) + then).drop_last() =~= first.push(one) + then.drop_last());
        assert(stale_lines(first.push(one) + then, dry_run) =~= stale_lines(first, dry_run)
            + repository_lines(one.stale@, dry_run) + stale_lines(then, dry_run));
    }
}

} // verus!
