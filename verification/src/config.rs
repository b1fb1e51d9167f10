//! What a repository declares about how the factory builds it, and the tasks a
//! graph of work is made of.

use crate::git::{file_at_ref, file_spec, git_call, FileStep, GitCall, GitCallView, GitOutput,
    GitOutputView};
use crate::text::{debug_of, debug_text, opt_view, same_text, texts, views};
use crate::time::{humantime_parse, humantime_parsed, is_countable, Span, NANOS_PER_SEC};
use vstd::prelude::*;

verus! {

/// Where a repository declares its factory settings.
pub const REPO_CONFIG_PATH: &'static str = ".assembly/config.toml";

/// A setting that makes a repository unrunnable as it stands.
#[derive(Debug, Clone, PartialEq, Eq)]
pub enum ConfigError {
    UnknownProvider(String),
    NoProviderDeclared,
    UnparseableMaxDuration(String),
}

pub enum ConfigErrorView {
    UnknownProvider(Seq<char>),
    NoProviderDeclared,
    UnparseableMaxDuration(Seq<char>),
}

impl View for ConfigError {
    type V = ConfigErrorView;

    open spec fn view(&self) -> ConfigErrorView {
        match self {
            ConfigError::UnknownProvider(name) => ConfigErrorView::UnknownProvider(name@),
            ConfigError::NoProviderDeclared => ConfigErrorView::NoProviderDeclared,
            ConfigError::UnparseableMaxDuration(value) => ConfigErrorView::UnparseableMaxDuration(
                value@,
            ),
        }
    }
}

impl ConfigErrorView {
    /// What the user is told.
    pub open spec fn message(self) -> Seq<char> {
        match self {
            ConfigErrorView::UnknownProvider(name) => "provider '"@ + name
                + "' is not declared in [providers] — add a block for it"@,
            ConfigErrorView::NoProviderDeclared =>
            "no provider: set `provider = \"...\"` and declare it under [providers]"@,
            ConfigErrorView::UnparseableMaxDuration(value) => "max_duration '"@ + value
                + "' is not a duration like \"20m\""@,
        }
    }
}

impl ConfigError {
    /// What the user is told.
    pub fn message(&self) -> (text: String)
        ensures
            text@ == self@.message(),
    {
        match self {
            ConfigError::UnknownProvider(name) => {
                let mut text = String::from_str("provider '");
                text.append(name.as_str());
                text.append("' is not declared in [providers] — add a block for it");
                text
            },
            ConfigError::NoProviderDeclared => String::from_str(
                "no provider: set `provider = \"...\"` and declare it under [providers]",
            ),
            ConfigError::UnparseableMaxDuration(value) => {
                let mut text = String::from_str("max_duration '");
                text.append(value.as_str());
                text.append("' is not a duration like \"20m\"");
                text
            },
        }
    }
}

/// A setting worth flagging but not worth refusing to run over.
#[derive(Debug, Clone, Copy, PartialEq, Eq)]
pub enum Warning {
    NoVerify,
}

impl Warning {
    /// What the user is told.
    pub open spec fn text(self) -> Seq<char> {
        match self {
            Warning::NoVerify =>
            "no `verify` — nothing will check a job's output before it is delivered"@,
        }
    }

    /// What the user is told.
    pub fn message(&self) -> (text: String)
        ensures
            text@ == self.text(),
    {
        match self {
            Warning::NoVerify => String::from_str(
                "no `verify` — nothing will check a job's output before it is delivered",
            ),
        }
    }
}

/// What becomes of a job's branch once the job finishes.
#[derive(Debug, Clone, Copy, PartialEq, Eq, Structural)]
pub enum DeliveryMode {
    /// Push the branch and open a pull request against `base`.
    Pr,
    /// Leave the branch where it is — `mode = "none"`.
    NoDelivery,
}

impl Default for DeliveryMode {
    fn default() -> (mode: DeliveryMode)
        ensures
            mode == DeliveryMode::Pr,
    {
        DeliveryMode::Pr
    }
}

#[derive(Debug, Clone, Copy, PartialEq, Eq, Structural)]
pub struct Delivery {
    pub mode: DeliveryMode,
}

impl Default for Delivery {
    fn default() -> (delivery: Delivery)
        ensures
            delivery.mode == DeliveryMode::Pr,
    {
        Delivery { mode: DeliveryMode::Pr }
    }
}

/// How one agent is called.
#[derive(Debug, Clone, PartialEq, Eq)]
pub struct Provider {
    pub cmd: String,
    pub args: Vec<String>,
    /// What reports the agent's cost, when something does.
    pub adapter: Option<String>,
}

/// A `[providers.<name>]` block.
#[derive(Debug, Clone, PartialEq, Eq)]
pub struct DeclaredProvider {
    pub name: String,
    pub provider: Provider,
}

/// Whether a block of this name is among `declared`.
pub open spec fn declares(declared: Seq<DeclaredProvider>, name: Seq<char>) -> bool {
    exists|i: int| 0 <= i < declared.len() && (#[trigger] declared[i]).name@ == name
}

/// The block of this name, the first when there are several.
pub open spec fn provider_named(declared: Seq<DeclaredProvider>, name: Seq<char>) -> Option<
    Provider,
>
    decreases declared.len(),
{
    if declared.len() == 0 {
        None
    } else if declared[0].name@ == name {
        Some(declared[0].provider)
    } else {
        provider_named(declared.skip(1), name)
    }
}

/// Whether no two blocks share a name, as in a table.
pub open spec fn names_are_distinct(declared: Seq<DeclaredProvider>) -> bool {
    forall|i: int, j: int|
        0 <= i < j < declared.len() ==> (#[trigger] declared[i]).name@ != (
        #[trigger] declared[j]).name@
}

/// In a table each block is found under its own name, wherever it stands.
pub proof fn law_each_block_is_found_under_its_name(declared: Seq<DeclaredProvider>, at: int)
    requires
        names_are_distinct(declared),
        0 <= at < declared.len(),
    ensures
        declares(declared, declared[at].name@),
        provider_named(declared, declared[at].name@) == Some(declared[at].provider),
    decreases declared.len(),
{
    if at > 0 {
        let rest = declared.skip(1);
        assert(declared[0].name@ != declared[at].name@);
        assert forall|i: int, j: int| 0 <= i < j < rest.len() implies (
        #[trigger] rest[i]).name@ != (#[trigger] rest[j]).name@ by {
            assert(declared[i + 1].name@ != declared[j + 1].name@);
        }
        assert(rest[at - 1] == declared[at]);
        law_each_block_is_found_under_its_name(rest, at - 1);
    }
}

/// Of several blocks of one name the first is found.
pub proof fn law_the_first_block_of_a_name_is_found(declared: Seq<DeclaredProvider>, at: int)
    requires
        0 <= at < declared.len(),
        forall|i: int| 0 <= i < at ==> (#[trigger] declared[i]).name@ != declared[at].name@,
    ensures
        provider_named(declared, declared[at].name@) == Some(declared[at].provider),
    decreases at,
{
    if at > 0 {
        let rest = declared.skip(1);
        assert(declared[0].name@ != declared[at].name@);
        assert forall|i: int| 0 <= i < at - 1 implies (#[trigger] rest[i]).name@ != rest[at
            - 1].name@ by {
            assert(rest[i] == declared[i + 1]);
        }
        law_the_first_block_of_a_name_is_found(rest, at - 1);
    }
}

/// The provider declared under `name`.
pub fn find_provider<'a>(declared: &'a Vec<DeclaredProvider>, name: &str) -> (found: Option<
    &'a Provider,
>)
    ensures
        match found {
            Some(provider) => provider_named(declared@, name@) == Some(*provider) && declares(
                declared@,
                name@,
            ),
            None => provider_named(declared@, name@) is None && !declares(declared@, name@),
        },
{
    let mut at: usize = 0;
    assert(declared@.skip(0) =~= declared@);
    while at < declared.len()
        invariant
            at <= declared.len(),
            provider_named(declared@, name@) == provider_named(declared@.skip(at as int), name@),
            forall|i: int| 0 <= i < at ==> (#[trigger] declared@[i]).name@ != name@,
        decreases declared.len() - at,
    {
        assert(declared@.skip(at as int)[0] == declared@[at as int]);
        if same_text(declared[at].name.as_str(), name) {
            return Some(&declared[at].provider);
        }
        assert(declared@.skip(at as int).skip(1) =~= declared@.skip(at + 1));
        at = at + 1;
    }
    None
}

/// One repository's factory settings, as the repository itself declares them.
///
/// Read from a ref, never from a checkout.
#[derive(Debug, Clone, PartialEq, Eq)]
pub struct RepoConfig {
    /// Which provider a job uses unless the command line names another.
    pub provider: Option<String>,
    /// The command that decides whether a job's work is correct.
    pub verify: Option<String>,
    /// What work lands on. Defaults to the branch the job was cut from.
    pub base: Option<String>,
    /// Wall-clock cap on one agent invocation.
    pub max_duration: Option<String>,
    /// Untracked files a job's checkout needs — `.env`, local settings.
    pub copy: Vec<String>,
    /// The `[providers]` table: [`names_are_distinct`].
    pub providers: Vec<DeclaredProvider>,
    pub delivery: Delivery,
}

impl Default for RepoConfig {
    fn default() -> (config: RepoConfig)
        ensures
            config.provider is None,
            config.verify is None,
            config.base is None,
            config.max_duration is None,
            config.copy@.len() == 0,
            config.providers@.len() == 0,
            names_are_distinct(config.providers@),
            config.delivery.mode == DeliveryMode::Pr,
    {
        RepoConfig {
            provider: None,
            verify: None,
            base: None,
            max_duration: None,
            copy: Vec::new(),
            providers: Vec::new(),
            delivery: Delivery { mode: DeliveryMode::Pr },
        }
    }
}

/// What is wrong with asking for `provider` of those `declared`.
pub open spec fn provider_problems(
    declared: Seq<DeclaredProvider>,
    provider: Seq<char>,
) -> Seq<ConfigErrorView> {
    if provider.len() == 0 {
        seq![ConfigErrorView::NoProviderDeclared]
    } else if !declares(declared, provider) {
        seq![ConfigErrorView::UnknownProvider(provider)]
    } else {
        seq![]
    }
}

/// What is wrong with a wall-clock cap, given whether its text is a duration.
pub open spec fn duration_problems(max_duration: Option<Seq<char>>, is_duration: bool) -> Seq<
    ConfigErrorView,
> {
    match max_duration {
        Some(value) => if is_duration {
            seq![]
        } else {
            seq![ConfigErrorView::UnparseableMaxDuration(value)]
        },
        None => seq![],
    }
}

/// Whether humantime reads `text` as a duration.
pub open spec fn is_duration(text: Seq<char>) -> bool {
    humantime_parsed(text) is Ok
}

/// How a ref that does not carry the configuration is reported.
pub open spec fn not_opted_in(git_ref: Seq<char>) -> Seq<char> {
    git_ref + " carries no "@ + REPO_CONFIG_PATH@ + " — this repository is not opted in"@
}

/// What is next when a repository's configuration is read, or its text.
#[derive(Debug, PartialEq, Eq)]
pub enum ConfigStep {
    Run(GitCall),
    Done(Result<String, String>),
}

pub enum ConfigStepView {
    Run(GitCallView),
    Done(Result<Seq<char>, Seq<char>>),
}

impl View for ConfigStep {
    type V = ConfigStepView;

    open spec fn view(&self) -> ConfigStepView {
        match self {
            ConfigStep::Run(call) => ConfigStepView::Run(call@),
            ConfigStep::Done(Ok(body)) => ConfigStepView::Done(Ok(body@)),
            ConfigStep::Done(Err(e)) => ConfigStepView::Done(Err(e@)),
        }
    }
}

/// The command that finds out whether `git_ref` carries the configuration.
pub open spec fn look_for_config(repo: Seq<char>, git_ref: Seq<char>) -> GitCallView {
    git_call(
        repo,
        seq!["cat-file"@, "-e"@, file_spec(git_ref, REPO_CONFIG_PATH@)],
        "cat-file -e "@ + file_spec(git_ref, REPO_CONFIG_PATH@),
    )
}

/// The command that reads the configuration that `git_ref` carries.
pub open spec fn show_config(repo: Seq<char>, git_ref: Seq<char>) -> GitCallView {
    git_call(
        repo,
        seq!["show"@, file_spec(git_ref, REPO_CONFIG_PATH@)],
        "show "@ + file_spec(git_ref, REPO_CONFIG_PATH@),
    )
}

/// What reading the configuration as of `git_ref` takes next, from what the
/// two commands gave so far.
pub open spec fn config_next(
    repo: Seq<char>,
    git_ref: Seq<char>,
    present: Option<GitOutputView>,
    shown: Option<GitOutputView>,
) -> ConfigStepView {
    match (present, shown) {
        (None, _) => ConfigStepView::Run(look_for_config(repo, git_ref)),
        (Some(found), shown) => if !found.ok() {
            ConfigStepView::Done(Err(not_opted_in(git_ref)))
        } else {
            match shown {
                None => ConfigStepView::Run(show_config(repo, git_ref)),
                Some(output) => if output.ok() {
                    ConfigStepView::Done(Ok(output.stdout))
                } else {
                    ConfigStepView::Done(Err(output.failure(show_config(repo, git_ref).operation)))
                },
            }
        },
    }
}

/// What reading the configuration comes to in a repository where git answers
/// a command as `git` says.
pub open spec fn config_read(
    repo: Seq<char>,
    git_ref: Seq<char>,
    git: spec_fn(GitCallView) -> GitOutputView,
) -> ConfigStepView {
    let present = git(look_for_config(repo, git_ref));
    match config_next(repo, git_ref, Some(present), None) {
        ConfigStepView::Run(call) => config_next(repo, git_ref, Some(present), Some(git(call))),
        done => done,
    }
}

/// The settings that govern a job come from the ref alone: two states of a
/// repository in which git answers alike about the file that the ref carries
/// give the same settings, or the same error, whatever else there is to them.
pub proof fn law_settings_come_from_the_ref_alone(
    repo: Seq<char>,
    git_ref: Seq<char>,
    one: spec_fn(GitCallView) -> GitOutputView,
    other: spec_fn(GitCallView) -> GitOutputView,
)
    requires
        one(look_for_config(repo, git_ref)) == other(look_for_config(repo, git_ref)),
        one(show_config(repo, git_ref)) == other(show_config(repo, git_ref)),
    ensures
        config_read(repo, git_ref, one) == config_read(repo, git_ref, other),
        config_read(repo, git_ref, one) is Done,
{
}

/// A ref that carries no configuration is refused in words that name the file.
pub proof fn law_a_repository_not_opted_in_is_told_of_the_file(
    repo: Seq<char>,
    git_ref: Seq<char>,
    git: spec_fn(GitCallView) -> GitOutputView,
)
    requires
        !git(look_for_config(repo, git_ref)).ok(),
    ensures
        config_read(repo, git_ref, git) matches ConfigStepView::Done(Err(e)) && exists|
            before: Seq<char>,
            after: Seq<char>,
        |
            e == #[trigger] (before + REPO_CONFIG_PATH@ + after),
{
    let before = git_ref + " carries no "@;
    let after = " — this repository is not opted in"@;
    assert(not_opted_in(git_ref) =~= before + REPO_CONFIG_PATH@ + after);
}

impl RepoConfig {
    /// Whether the wall-clock cap, if there is one, can be read at all.
    pub open spec fn cap_is_countable(self) -> bool {
        self.max_duration matches Some(value) ==> is_countable(value@)
    }

    /// Whether the wall-clock cap, if there is one, is a duration.
    pub open spec fn cap_is_duration(self) -> bool {
        self.max_duration matches Some(value) ==> is_duration(value@)
    }

    /// Every reason this repository cannot run a job with `provider`, so all
    /// of them are fixed in one pass rather than one per run.
    ///
    /// `provider` is what the job will actually use — the command line's
    /// choice when it named one, otherwise [`RepoConfig::provider`].
    pub fn problems(&self, provider: &str) -> (all: Vec<ConfigError>)
        requires
            self.cap_is_countable(),
        ensures
            views(all@) == provider_problems(self.providers@, provider@) + duration_problems(
                opt_view(self.max_duration),
                self.cap_is_duration(),
            ),
    {
        self.problems_given(provider, self.cap_parses())
    }

    /// Whether the wall-clock cap, if there is one, is a duration.
    pub fn cap_parses(&self) -> (yes: bool)
        requires
            self.cap_is_countable(),
        ensures
            yes == self.cap_is_duration(),
    {
        match &self.max_duration {
            Some(value) => humantime_parse(value.as_str()).is_ok(),
            None => true,
        }
    }

    /// [`RepoConfig::problems`], told whether the wall-clock cap is a duration.
    pub fn problems_given(&self, provider: &str, is_duration: bool) -> (all: Vec<ConfigError>)
        ensures
            views(all@) == provider_problems(self.providers@, provider@) + duration_problems(
                opt_view(self.max_duration),
                is_duration,
            ),
    {
        let mut all: Vec<ConfigError> = Vec::new();
        if provider.is_empty() {
            all.push(ConfigError::NoProviderDeclared);
        } else if find_provider(&self.providers, provider).is_none() {
            all.push(ConfigError::UnknownProvider(String::from_str(provider)));
        }
        assert(views(all@) =~= provider_problems(self.providers@, provider@));
        match self.unparseable_max_duration(is_duration) {
            Some(problem) => {
                all.push(problem);
            },
            None => {},
        }
        assert(views(all@) =~= provider_problems(self.providers@, provider@) + duration_problems(
            opt_view(self.max_duration),
            is_duration,
        ));
        all
    }

    fn unparseable_max_duration(&self, is_duration: bool) -> (problem: Option<ConfigError>)
        ensures
            match problem {
                Some(problem) => duration_problems(opt_view(self.max_duration), is_duration)
                    == seq![problem@],
                None => duration_problems(opt_view(self.max_duration), is_duration).len() == 0,
            },
    {
        match &self.max_duration {
            Some(value) => if is_duration {
                None
            } else {
                Some(ConfigError::UnparseableMaxDuration(value.clone()))
            },
            None => None,
        }
    }

    /// Settings worth telling the user about, none of which stop a job.
    pub fn warnings(&self) -> (all: Vec<Warning>)
        ensures
            all@ == if self.verify is None {
                seq![Warning::NoVerify]
            } else {
                seq![]
            },
    {
        let mut all: Vec<Warning> = Vec::new();
        if self.verify.is_none() {
            all.push(Warning::NoVerify);
        }
        assert(all@ =~= if self.verify is None {
            seq![Warning::NoVerify]
        } else {
            seq![]
        });
        all
    }

    /// Read the text of a repository's configuration as of `git_ref`, command
    /// by command: `present` and `shown` are the outputs of the commands asked
    /// for so far.
    ///
    /// An error means that the ref does not carry [`REPO_CONFIG_PATH`] — a
    /// repository that has not opted in — or that git refused. Nothing but the
    /// ref is looked at, so neither the working tree nor an agent's branch can
    /// change the settings that govern a job.
    pub fn from_ref(
        repo: &str,
        git_ref: &str,
        present: Option<&GitOutput>,
        shown: Option<&GitOutput>,
    ) -> (step: ConfigStep)
        ensures
            step@ == config_next(repo@, git_ref@, opt_view(present), opt_view(shown)),
    {
        match file_at_ref(repo, git_ref, REPO_CONFIG_PATH, present, shown) {
            FileStep::Run(call) => ConfigStep::Run(call),
            FileStep::Done(Err(e)) => ConfigStep::Done(Err(e)),
            FileStep::Done(Ok(Some(body))) => ConfigStep::Done(Ok(body)),
            FileStep::Done(Ok(None)) => {
                let mut message = String::from_str(git_ref);
                message.append(" carries no ");
                message.append(REPO_CONFIG_PATH);
                message.append(" — this repository is not opted in");
                ConfigStep::Done(Err(message))
            },
        }
    }

    /// How a parse error of the configuration text is reported.
    pub fn parse_failure(error: &str) -> (message: String)
        ensures
            message@ == "parsing "@ + REPO_CONFIG_PATH@ + ": "@ + error@,
    {
        let mut message = String::from_str("parsing ");
        message.append(REPO_CONFIG_PATH);
        message.append(": ");
        message.append(error);
        message
    }
}

/// A job can be run exactly when nothing is wrong: its provider is declared
/// and named, and the wall-clock cap, if there is one, is a duration.
pub proof fn law_no_problems_means_runnable(
    declared: Seq<DeclaredProvider>,
    provider: Seq<char>,
    max_duration: Option<Seq<char>>,
    is_duration: bool,
)
    ensures
        (provider_problems(declared, provider) + duration_problems(max_duration, is_duration)).len()
            == 0 <==> provider.len() > 0 && declares(declared, provider) && (max_duration is Some
            ==> is_duration),
{
}

/// Everything that is wrong is told at once, the provider before the cap: that
/// there is none, or that the one asked for has no block, and a cap that is not
/// a duration; each by the text that is wrong.
pub proof fn law_every_problem_is_told_at_once(
    declared: Seq<DeclaredProvider>,
    provider: Seq<char>,
    max_duration: Option<Seq<char>>,
    is_duration: bool,
)
    ensures
        ({
            let all = provider_problems(declared, provider) + duration_problems(
                max_duration,
                is_duration,
            );
            let unnamed = provider.len() == 0;
            let unknown = provider.len() > 0 && forall|i: int|
                0 <= i < declared.len() ==> (#[trigger] declared[i]).name@ != provider;
            &&& unnamed ==> all.len() >= 1 && all[0] == ConfigErrorView::NoProviderDeclared
            &&& unknown ==> all.len() >= 1 && all[0] == ConfigErrorView::UnknownProvider(provider)
            &&& max_duration is Some && !is_duration ==> all.len() >= 1 && all.last()
                == ConfigErrorView::UnparseableMaxDuration(max_duration->0)
            &&& all.len() == (if unnamed || unknown {
                1int
            } else {
                0
            }) + (if max_duration is Some && !is_duration {
                1int
            } else {
                0
            })
        }),
{
}

/// The error for a text that is not a duration, given how it is quoted and
/// what was wrong with it.
pub open spec fn duration_error(quoted: Seq<char>, error: Seq<char>) -> Seq<char> {
    "invalid duration "@ + quoted + ": "@ + error
}

/// Parse a human-written duration such as `"20m"` or `"1h 30m"`.
///
/// An error means that the text is not a recognisable duration.
pub fn parse_duration(s: &str) -> (span: Result<Span, String>)
    requires
        is_countable(s@),
    ensures
        match (span, humantime_parsed(s@)) {
            (Ok(span), Ok((secs, nanos))) => span@ == secs * NANOS_PER_SEC + nanos,
            (Err(e), Err(error)) => e@ == duration_error(debug_text(s@), error),
            _ => false,
        },
{
    let parsed = humantime_parse(s);
    let quoted = debug_of(s);
    duration_given(quoted.as_str(), parsed)
}

/// [`parse_duration`], told how the text is quoted and what humantime made of
/// it.
pub fn duration_given(quoted: &str, parsed: Result<(u64, u32), String>) -> (span: Result<
    Span,
    String,
>)
    requires
        parsed matches Ok(span) ==> span.1 < NANOS_PER_SEC,
    ensures
        match (span, parsed) {
            (Ok(span), Ok((secs, nanos))) => span@ == secs * NANOS_PER_SEC + nanos,
            (Err(e), Err(error)) => e@ == duration_error(quoted@, error@),
            _ => false,
        },
{
    match parsed {
        Ok((secs, nanos)) => Ok(Span::from_parts(secs, nanos)),
        Err(error) => {
            let mut message = String::from_str("invalid duration ");
            message.append(quoted);
            message.append(": ");
            message.append(error.as_str());
            Err(message)
        },
    }
}

#[derive(Debug, Clone, Copy, PartialEq, Eq, Structural)]
pub enum TaskKind {
    Shell,
    Agent,
}

impl Default for TaskKind {
    fn default() -> (kind: TaskKind)
        ensures
            kind == TaskKind::Agent,
    {
        TaskKind::Agent
    }
}

/// Where a human looks at a task.
#[derive(Debug, Clone, Copy, PartialEq, Eq, Structural)]
pub enum Supervise {
    Unsupervised,
    Pre,
    OnComplete,
    Both,
}

impl Default for Supervise {
    fn default() -> (supervise: Supervise)
        ensures
            supervise == Supervise::Unsupervised,
    {
        Supervise::Unsupervised
    }
}

/// One node of a graph of work, as its author declares it.
#[derive(Debug, Clone, PartialEq, Eq)]
pub struct Task {
    pub id: String,
    pub kind: TaskKind,
    /// The ids of the tasks this one waits for.
    pub needs: Vec<String>,
    /// What a shell task runs.
    pub run: Option<String>,
    /// What an agent task is asked.
    pub prompt: Option<String>,
    /// The file that holds what an agent task is asked.
    pub prompt_file: Option<String>,
    pub provider: Option<String>,
    pub supervise: Supervise,
    /// The command that decides whether the task's work is correct.
    pub verify: Option<String>,
    /// Wall-clock cap on the task.
    pub max_duration: Option<String>,
    /// Whether the task sets a `max_cost_usd`. The amount is not looked at.
    pub has_max_cost_usd: bool,
}

pub struct TaskView {
    pub id: Seq<char>,
    pub kind: TaskKind,
    pub needs: Seq<Seq<char>>,
    pub run: Option<Seq<char>>,
    pub prompt: Option<Seq<char>>,
    pub prompt_file: Option<Seq<char>>,
    pub provider: Option<Seq<char>>,
    pub supervise: Supervise,
    pub verify: Option<Seq<char>>,
    pub max_duration: Option<Seq<char>>,
    pub has_max_cost_usd: bool,
}

impl View for Task {
    type V = TaskView;

    open spec fn view(&self) -> TaskView {
        TaskView {
            id: self.id@,
            kind: self.kind,
            needs: texts(self.needs@),
            run: opt_view(self.run),
            prompt: opt_view(self.prompt),
            prompt_file: opt_view(self.prompt_file),
            provider: opt_view(self.provider),
            supervise: self.supervise,
            verify: opt_view(self.verify),
            max_duration: opt_view(self.max_duration),
            has_max_cost_usd: self.has_max_cost_usd,
        }
    }
}

/// A graph of work: its tasks and the providers they may name.
#[derive(Debug, Clone, PartialEq, Eq)]
pub struct Graph {
    pub tasks: Vec<Task>,
    pub providers: Vec<DeclaredProvider>,
}

/// The settings are the bytes the ref carries, untouched; a ref without them is
/// told of, and so is what git refused.
pub proof fn law_settings_are_read_verbatim(
    repo: Seq<char>,
    git_ref: Seq<char>,
    present: GitOutputView,
    shown: GitOutputView,
)
    ensures
        present.exit_code == 0 && shown.exit_code == 0 ==> config_next(
            repo,
            git_ref,
            Some(present),
            Some(shown),
        ) == ConfigStepView::Done(Ok::<Seq<char>, Seq<char>>(shown.stdout)),
        present.exit_code == 0 && shown.exit_code != 0 ==> (config_next(
            repo,
            git_ref,
            Some(present),
            Some(shown),
        ) matches ConfigStepView::Done(Err(_))),
        present.exit_code != 0 ==> (config_next(
            repo,
            git_ref,
            Some(present),
            Some(shown),
        ) matches ConfigStepView::Done(Err(e)) && git_ref.is_prefix_of(e)),
        config_next(repo, git_ref, None, None) matches ConfigStepView::Run(call) && call.dir == repo
            && call.args.last() == git_ref + ":"@ + REPO_CONFIG_PATH@,
        present.exit_code == 0 ==> (config_next(
            repo,
            git_ref,
            Some(present),
            None,
        ) matches ConfigStepView::Run(call) && call.dir == repo && call.args.last() == git_ref
            + ":"@ + REPO_CONFIG_PATH@),
{
    let told = not_opted_in(git_ref);
    assert(told.take(git_ref.len() as int) =~= git_ref);
}

/// What the user is told of a problem quotes the text that is wrong.
pub proof fn law_a_problem_quotes_what_is_wrong(error: ConfigErrorView)
    ensures
        error matches ConfigErrorView::UnknownProvider(name) ==> exists|a: Seq<char>, b: Seq<char>|
            error.message() == #[trigger] (a + name + b),
        error matches ConfigErrorView::UnparseableMaxDuration(value) ==> exists|
            a: Seq<char>,
            b: Seq<char>,
        |
            error.message() == #[trigger] (a + value + b),
{
    match error {
        ConfigErrorView::UnknownProvider(name) => {
            let b = "' is not declared in [providers] — add a block for it"@;
            assert(error.message() == "provider '"@ + name + b);
        },
        ConfigErrorView::UnparseableMaxDuration(value) => {
            let b = "' is not a duration like \"20m\""@;
            assert(error.message() == "max_duration '"@ + value + b);
        },
        ConfigErrorView::NoProviderDeclared => {},
    }
}

} // verus!
