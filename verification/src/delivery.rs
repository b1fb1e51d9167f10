//! Getting a finished job's work off the machine, as a pull request.
//!
//! Delivery is the last step of the job contract: a job's output is a branch,
//! and this is what makes that branch someone else's to look at.

use crate::config::{Delivery, DeliveryMode};
use crate::git::{args_of, GitCall, GitCallView, GitOutput};
use crate::lines::{trim, trimmed};
use crate::text::texts;
use crate::workspace::{publish, publish_next, PublishStep, PublishStepView};
use vstd::prelude::*;

verus! {

/// What actually happened to the job's branch.
#[derive(Debug, Clone, PartialEq, Eq)]
pub enum Delivered {
    /// Nothing was attempted, and this is why. Not a failure: a repository
    /// with no remote, or delivery turned off, is an ordinary local job.
    Skipped(String),
    /// Pushed, but no pull request was opened — `gh` is not installed, or it
    /// refused. The work is safe on the remote either way.
    Pushed { branch: String, because: String },
    Opened { url: String },
}

pub enum DeliveredView {
    Skipped(Seq<char>),
    Pushed { branch: Seq<char>, because: Seq<char> },
    Opened { url: Seq<char> },
}

impl View for Delivered {
    type V = DeliveredView;

    open spec fn view(&self) -> DeliveredView {
        match self {
            Delivered::Skipped(why) => DeliveredView::Skipped(why@),
            Delivered::Pushed { branch, because } => DeliveredView::Pushed {
                branch: branch@,
                because: because@,
            },
            Delivered::Opened { url } => DeliveredView::Opened { url: url@ },
        }
    }
}

impl DeliveredView {
    /// What the user is told.
    pub open spec fn message(self) -> Seq<char> {
        match self {
            DeliveredView::Skipped(why) => "not delivered: "@ + why,
            DeliveredView::Pushed { branch, because } => "pushed "@ + branch
                + " — no pull request opened: "@ + because,
            DeliveredView::Opened { url } => "opened "@ + url,
        }
    }
}

impl Delivered {
    /// What the user is told.
    pub fn message(&self) -> (text: String)
        ensures
            text@ == self@.message(),
    {
        match self {
            Delivered::Skipped(why) => {
                let mut text = String::from_str("not delivered: ");
                text.append(why.as_str());
                text
            },
            Delivered::Pushed { branch, because } => {
                let mut text = String::from_str("pushed ");
                text.append(branch.as_str());
                text.append(" — no pull request opened: ");
                text.append(because.as_str());
                text
            },
            Delivered::Opened { url } => {
                let mut text = String::from_str("opened ");
                text.append(url.as_str());
                text
            },
        }
    }
}

/// What is next when a branch is delivered, or what came of it.
#[derive(Debug, PartialEq, Eq)]
pub enum DeliverStep {
    Run(GitCall),
    /// Call `gh` in this directory with these arguments.
    AskForPullRequest { dir: String, args: Vec<String> },
    Done(Result<Delivered, String>),
}

pub enum DeliverStepView {
    Run(GitCallView),
    AskForPullRequest { dir: Seq<char>, args: Seq<Seq<char>> },
    Done(Result<DeliveredView, Seq<char>>),
}

impl View for DeliverStep {
    type V = DeliverStepView;

    open spec fn view(&self) -> DeliverStepView {
        match self {
            DeliverStep::Run(call) => DeliverStepView::Run(call@),
            DeliverStep::AskForPullRequest { dir, args } => DeliverStepView::AskForPullRequest {
                dir: dir@,
                args: texts(args@),
            },
            DeliverStep::Done(Ok(delivered)) => DeliverStepView::Done(Ok(delivered@)),
            DeliverStep::Done(Err(e)) => DeliverStepView::Done(Err(e@)),
        }
    }
}

/// What asking for a pull request came to. Never a failure: the branch is
/// already pushed, so the worst case is that a human opens it themselves.
pub open spec fn pull_request_outcome(
    branch: Seq<char>,
    answer: Result<GitOutput, String>,
) -> DeliveredView {
    match answer {
        Err(e) => DeliveredView::Pushed { branch, because: "could not run `gh`: "@ + e@ },
        Ok(output) => if output@.ok() {
            DeliveredView::Opened { url: trimmed(output@.stdout) }
        } else {
            DeliveredView::Pushed { branch, because: trimmed(output@.stderr) }
        },
    }
}

/// What delivering takes next, from what listing the remotes, pushing and
/// asking for a pull request gave so far.
pub open spec fn deliver_next(
    repo: Seq<char>,
    mode: DeliveryMode,
    remote: Seq<char>,
    branch: Seq<char>,
    base: Seq<char>,
    listed: Option<GitOutput>,
    pushed: Option<GitOutput>,
    answer: Option<Result<GitOutput, String>>,
) -> DeliverStepView {
    match mode {
        DeliveryMode::NoDelivery => DeliverStepView::Done(
            Ok(DeliveredView::Skipped("delivery mode is \"none\""@)),
        ),
        DeliveryMode::Pr => match publish_next(repo, branch, remote, listed, pushed) {
            PublishStepView::Run(call) => DeliverStepView::Run(call),
            PublishStepView::Done(Err(e)) => DeliverStepView::Done(Err(e)),
            PublishStepView::Done(Ok(None)) => DeliverStepView::Done(
                Ok(
                    DeliveredView::Skipped(
                        "the repository has no '"@ + remote
                            + "' remote, so the branch stays local"@,
                    ),
                ),
            ),
            PublishStepView::Done(Ok(Some(_))) => match answer {
                None => DeliverStepView::AskForPullRequest {
                    dir: repo,
                    args: seq!["pr"@, "create"@, "--base"@, base, "--head"@, branch, "--fill"@],
                },
                Some(answer) => DeliverStepView::Done(Ok(pull_request_outcome(branch, answer))),
            },
        },
    }
}

/// Publish a finished job's branch according to `delivery`, step by step.
///
/// An error only if git itself fails — a push rejected because the base moved,
/// most often. A missing `gh` is reported as [`Delivered::Pushed`] rather than
/// an error: the branch reached the remote, which is the part that matters.
pub fn deliver(
    repo: &str,
    delivery: &Delivery,
    remote: &str,
    job_branch: &str,
    base: &str,
    listed: &Option<GitOutput>,
    pushed: &Option<GitOutput>,
    answer: &Option<Result<GitOutput, String>>,
) -> (step: DeliverStep)
    ensures
        step@ == deliver_next(
            repo@,
            delivery.mode,
            remote@,
            job_branch@,
            base@,
            *listed,
            *pushed,
            *answer,
        ),
{
    match delivery.mode {
        DeliveryMode::NoDelivery => {
            return DeliverStep::Done(
                Ok(Delivered::Skipped(String::from_str("delivery mode is \"none\""))),
            );
        },
        DeliveryMode::Pr => {},
    }
    match publish(repo, job_branch, remote, listed, pushed) {
        PublishStep::Run(call) => DeliverStep::Run(call),
        PublishStep::Done(Err(e)) => DeliverStep::Done(Err(e)),
        PublishStep::Done(Ok(None)) => {
            let mut why = String::from_str("the repository has no '");
            why.append(remote);
            why.append("' remote, so the branch stays local");
            DeliverStep::Done(Ok(Delivered::Skipped(why)))
        },
        PublishStep::Done(Ok(Some(_))) => match answer {
            None => {
                let args = args_of(
                    &["pr", "create", "--base", base, "--head", job_branch, "--fill"],
                );
                assert(texts(args@) =~= seq![
                    "pr"@,
                    "create"@,
                    "--base"@,
                    base@,
                    "--head"@,
                    job_branch@,
                    "--fill"@,
                ]);
                DeliverStep::AskForPullRequest { dir: String::from_str(repo), args }
            },
            Some(answer) => DeliverStep::Done(Ok(open_pull_request(job_branch, answer))),
        },
    }
}

/// What became of the branch, from what `gh` answered; an error means that
/// `gh` could not be run.
fn open_pull_request(job_branch: &str, answer: &Result<GitOutput, String>) -> (delivered: Delivered)
    ensures
        delivered@ == pull_request_outcome(job_branch@, *answer),
{
    match answer {
        Err(e) => {
            let mut because = String::from_str("could not run `gh`: ");
            because.append(e.as_str());
            Delivered::Pushed { branch: String::from_str(job_branch), because }
        },
        Ok(output) => {
            if output.succeeded() {
                Delivered::Opened { url: trim(output.stdout.as_str()) }
            } else {
                Delivered::Pushed {
                    branch: String::from_str(job_branch),
                    because: trim(output.stderr.as_str()),
                }
            }
        },
    }
}

/// A pull request is asked for only once the branch has reached the remote.
pub proof fn law_pull_request_follows_the_push(
    repo: Seq<char>,
    mode: DeliveryMode,
    remote: Seq<char>,
    branch: Seq<char>,
    base: Seq<char>,
    listed: Option<GitOutput>,
    pushed: Option<GitOutput>,
    answer: Option<Result<GitOutput, String>>,
)
    requires
        deliver_next(repo, mode, remote, branch, base, listed, pushed, answer) is AskForPullRequest,
    ensures
        mode == DeliveryMode::Pr,
        pushed matches Some(output) && output@.ok(),
{
}

/// Delivery turned off runs nothing at all.
pub proof fn law_no_delivery_runs_nothing(
    repo: Seq<char>,
    remote: Seq<char>,
    branch: Seq<char>,
    base: Seq<char>,
    listed: Option<GitOutput>,
    pushed: Option<GitOutput>,
    answer: Option<Result<GitOutput, String>>,
)
    ensures
        deliver_next(
            repo,
            DeliveryMode::NoDelivery,
            remote,
            branch,
            base,
            listed,
            pushed,
            answer,
        ) matches DeliverStepView::Done(Ok(DeliveredView::Skipped(_))),
{
}

/// Once the branch has reached the remote, delivering cannot fail: the pull
/// request is asked for, from the job's branch onto the base, and either it is
/// opened, under the address that was printed, or the branch is told of with
/// the reason.
pub proof fn law_a_pushed_branch_is_never_a_failure(
    repo: Seq<char>,
    remote: Seq<char>,
    branch: Seq<char>,
    base: Seq<char>,
    listed: Option<GitOutput>,
    pushed: Option<GitOutput>,
    answer: Option<Result<GitOutput, String>>,
)
    requires
        publish_next(repo, branch, remote, listed, pushed) == PublishStepView::Done(
            Ok::<Option<Seq<char>>, Seq<char>>(Some(remote)),
        ),
    ensures
        ({
            let step = deliver_next(
                repo,
                DeliveryMode::Pr,
                remote,
                branch,
                base,
                listed,
                pushed,
                answer,
            );
            match answer {
                None => step matches DeliverStepView::AskForPullRequest { dir, args } && dir == repo
                    && args.len() == 7 && args[2] == "--base"@ && args[3] == base && args[4]
                    == "--head"@ && args[5] == branch,
                Some(Ok(output)) => if output.exit_code == 0 {
                    step == DeliverStepView::Done(
                        Ok::<DeliveredView, Seq<char>>(
                            DeliveredView::Opened { url: trimmed(output.stdout@) },
                        ),
                    )
                } else {
                    step == DeliverStepView::Done(
                        Ok::<DeliveredView, Seq<char>>(
                            DeliveredView::Pushed { branch, because: trimmed(output.stderr@) },
                        ),
                    )
                },
                Some(Err(e)) => step matches DeliverStepView::Done(Ok(told))
                    && (told matches DeliveredView::Pushed { branch: reached, because } && reached
                    == branch && e@.is_suffix_of(because)),
            }
        }),
{
    if let Some(Err(e)) = answer {
        let because = "could not run `gh`: "@ + e@;
        assert(because.skip(because.len() - e@.len()) =~= e@);
    }
}

/// Delivery does what publishing takes, first of all and as long as it takes; a
/// refused push is the failure it is, and without the remote nothing is asked
/// for.
pub proof fn law_delivery_publishes_first(
    repo: Seq<char>,
    remote: Seq<char>,
    branch: Seq<char>,
    base: Seq<char>,
    listed: Option<GitOutput>,
    pushed: Option<GitOutput>,
    answer: Option<Result<GitOutput, String>>,
)
    ensures
        ({
            let step = deliver_next(
                repo,
                DeliveryMode::Pr,
                remote,
                branch,
                base,
                listed,
                pushed,
                answer,
            );
            match publish_next(repo, branch, remote, listed, pushed) {
                PublishStepView::Run(call) => step == DeliverStepView::Run(call),
                PublishStepView::Done(Err(e)) => step == DeliverStepView::Done(
                    Err::<DeliveredView, Seq<char>>(e),
                ),
                PublishStepView::Done(Ok(None)) => step matches DeliverStepView::Done(Ok(told))
                    && told is Skipped,
                PublishStepView::Done(Ok(Some(_))) => !(step is Run),
            }
        }),
{
}

/// What the user is told names the branch or the address, and ends with the
/// reason where there is one.
pub proof fn law_what_became_of_the_branch_is_told(delivered: DeliveredView)
    ensures
        match delivered {
            DeliveredView::Skipped(why) => why.is_suffix_of(delivered.message()),
            DeliveredView::Opened { url } => url.is_suffix_of(delivered.message()),
            DeliveredView::Pushed { branch, because } => because.is_suffix_of(delivered.message())
                && exists|a: Seq<char>, b: Seq<char>|
                delivered.message() == #[trigger] (a + branch + b),
        },
{
    let told = delivered.message();
    match delivered {
        DeliveredView::Skipped(why) => {
            assert(told.skip(told.len() - why.len()) =~= why);
        },
        DeliveredView::Opened { url } => {
            assert(told.skip(told.len() - url.len()) =~= url);
        },
        DeliveredView::Pushed { branch, because } => {
            let b = " — no pull request opened: "@ + because;
            assert(told =~= "pushed "@ + branch + b);
            assert(told.skip(told.len() - because.len()) =~= because);
        },
    }
}

} // verus!
