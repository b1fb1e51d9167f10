//! One job's sandbox: a git worktree, optionally seeded with files the
//! repository does not carry.

use crate::filepath::{join_path, parent, parent_of, path_below};
use crate::git;
use crate::git::{add_worktree_args, git_call, lists_name, GitCall, GitCallView, GitOutput,
    WorktreeStart};
use crate::lines::{lines, trimmed};
use crate::number::{decimal, decimal_of, is_digit, law_decimal_is_digits,
    law_decimal_is_injective};
use crate::text::{copy_texts, opt_view, texts, views};
use vstd::prelude::*;

verus! {

#[derive(Debug, Clone, PartialEq, Eq)]
pub struct JobWorkspace {
    pub path: String,
    pub branch: String,
    /// Relative paths copied in, which must never reach a commit.
    pub seeded: Vec<String>,
}

/// The remote a job publishes its branch to unless configured otherwise.
pub const DEFAULT_REMOTE: &'static str = "origin";

/// A job's branch name.
pub open spec fn branch_of(job_id: nat) -> Seq<char> {
    "al/job-"@ + decimal(job_id)
}

/// A job's branch name. Git refs are paths, so this must never nest under
/// another ref assembly-line creates.
pub fn job_branch_name(job_id: u64) -> (name: String)
    ensures
        name@ == branch_of(job_id as nat),
{
    let mut name = String::from_str("al/job-");
    name.append(decimal_of(job_id).as_str());
    name
}

/// Two jobs never share a branch.
pub proof fn law_jobs_do_not_share_branches(a: nat, b: nat)
    requires
        branch_of(a) == branch_of(b),
    ensures
        a == b,
{
    let prefix = "al/job-"@;
    assert(branch_of(a).skip(prefix.len() as int) =~= decimal(a));
    assert(branch_of(b).skip(prefix.len() as int) =~= decimal(b));
    law_decimal_is_injective(a, b);
}

/// Branch names are flat siblings: none is a directory that another stands in,
/// which git would refuse.
pub proof fn law_branches_never_nest(a: nat, b: nat)
    ensures
        !branch_of(a).push('/').is_prefix_of(branch_of(b)),
{
    reveal_strlit("al/job-");
    law_decimal_is_digits(b);
    let at = branch_of(a).len() as int;
    if branch_of(a).push('/').is_prefix_of(branch_of(b)) {
        assert(branch_of(a).push('/')[at] == branch_of(b)[at]);
        assert(branch_of(b)[at] == decimal(b)[at - 7]);
        assert(is_digit(decimal(b)[at - 7]));
    }
}

/// The first `copy` path that is not there, told which of them are.
pub open spec fn first_missing(paths: Seq<Seq<char>>, present: Seq<bool>) -> Option<Seq<char>>
    decreases paths.len(),
{
    if paths.len() == 0 {
        None
    } else if !present[0] {
        Some(paths[0])
    } else {
        first_missing(paths.skip(1), present.skip(1))
    }
}

/// The first `copy` path the repository declares that is not actually there.
fn missing_seed_path<'a>(copy_paths: &'a Vec<String>, present: &Vec<bool>) -> (missing: Option<
    &'a String,
>)
    requires
        present.len() == copy_paths.len(),
    ensures
        match missing {
            Some(path) => first_missing(texts(copy_paths@), present@) == Some(path@),
            None => first_missing(texts(copy_paths@), present@) is None,
        },
{
    let ghost all = texts(copy_paths@);
    let mut at: usize = 0;
    assert(all.skip(0) =~= all);
    assert(present@.skip(0) =~= present@);
    while at < copy_paths.len()
        invariant
            at <= copy_paths.len(),
            present.len() == copy_paths.len(),
            all == texts(copy_paths@),
            first_missing(all, present@) == first_missing(
                all.skip(at as int),
                present@.skip(at as int),
            ),
        decreases copy_paths.len() - at,
    {
        assert(all.skip(at as int)[0] == copy_paths@[at as int]@);
        if !present[at] {
            return Some(&copy_paths[at]);
        }
        assert(all.skip(at as int).skip(1) =~= all.skip(at + 1));
        assert(present@.skip(at as int).skip(1) =~= present@.skip(at + 1));
        at = at + 1;
    }
    None
}

/// Where the `copy` paths are looked for.
pub open spec fn seed_paths(seed_from: Seq<char>, copy_paths: Seq<Seq<char>>) -> Seq<Seq<char>> {
    Seq::new(copy_paths.len(), |i: int| path_below(seed_from, copy_paths[i]))
}

/// Where the `copy` paths are looked for.
pub fn seed_sources(seed_from: &str, copy_paths: &Vec<String>) -> (sources: Vec<String>)
    ensures
        texts(sources@) == seed_paths(seed_from@, texts(copy_paths@)),
{
    let mut sources: Vec<String> = Vec::new();
    let mut at: usize = 0;
    while at < copy_paths.len()
        invariant
            at <= copy_paths.len(),
            sources.len() == at,
            forall|i: int|
                0 <= i < at ==> (#[trigger] sources@[i])@ == path_below(
                    seed_from@,
                    copy_paths@[i]@,
                ),
        decreases copy_paths.len() - at,
    {
        sources.push(join_path(seed_from, copy_paths[at].as_str()));
        at = at + 1;
    }
    assert(texts(sources@) =~= seed_paths(seed_from@, texts(copy_paths@)));
    sources
}

/// Whether a sandbox can be made at all, told which `copy` paths are there.
///
/// Seed paths are checked *before* the worktree is made, so a typo leaves
/// nothing behind.
pub fn check_seeds(seed_from: &str, copy_paths: &Vec<String>, present: &Vec<bool>) -> (checked:
    Result<(), String>)
    requires
        present.len() == copy_paths.len(),
    ensures
        match first_missing(texts(copy_paths@), present@) {
            None => checked is Ok,
            Some(missing) => checked matches Err(e) && e@ == "copy path '"@ + missing
                + "' does not exist under "@ + seed_from@,
        },
{
    match missing_seed_path(copy_paths, present) {
        None => Ok(()),
        Some(missing) => {
            let mut message = String::from_str("copy path '");
            message.append(missing.as_str());
            message.append("' does not exist under ");
            message.append(seed_from);
            Err(message)
        },
    }
}

/// How far putting a worktree in place has come: what each command asked for
/// so far printed, and whether something held the path.
#[derive(Debug, PartialEq, Eq)]
pub struct Checkout {
    pub pruned: Option<GitOutput>,
    pub path_exists: Option<bool>,
    pub removed: Option<GitOutput>,
    pub branch_found: Option<GitOutput>,
    pub deleted: Option<GitOutput>,
    pub added: Option<GitOutput>,
}

/// The commands that putting a worktree in place takes.
#[derive(Debug, Clone, Copy, PartialEq, Eq, Structural)]
pub enum CheckoutCall {
    Prune,
    Remove,
    FindBranch,
    DeleteBranch,
    /// Adding the worktree creates its directory, but not the path leading to
    /// it, which has to be there first.
    Add,
}

/// What is next when a worktree is put in place, or what came of it.
#[derive(Debug, PartialEq, Eq)]
pub enum CheckoutStep {
    Run(CheckoutCall, GitCall),
    /// Look whether anything is at the path.
    LookAtPath,
    Done(Result<(), String>),
}

pub enum CheckoutStepView {
    Run(CheckoutCall, GitCallView),
    LookAtPath,
    Done(Result<(), Seq<char>>),
}

impl View for CheckoutStep {
    type V = CheckoutStepView;

    open spec fn view(&self) -> CheckoutStepView {
        match self {
            CheckoutStep::Run(which, call) => CheckoutStepView::Run(*which, call@),
            CheckoutStep::LookAtPath => CheckoutStepView::LookAtPath,
            CheckoutStep::Done(Ok(())) => CheckoutStepView::Done(Ok(())),
            CheckoutStep::Done(Err(e)) => CheckoutStepView::Done(Err(e@)),
        }
    }
}

impl Checkout {
    /// Nothing done yet.
    pub fn new() -> (checkout: Checkout)
        ensures
            checkout.pruned is None,
            checkout.path_exists is None,
            checkout.removed is None,
            checkout.branch_found is None,
            checkout.deleted is None,
            checkout.added is None,
    {
        Checkout {
            pruned: None,
            path_exists: None,
            removed: None,
            branch_found: None,
            deleted: None,
            added: None,
        }
    }

    /// How far it has come once a command has run.
    pub open spec fn once_run(self, which: CheckoutCall, output: GitOutput) -> Checkout {
        match which {
            CheckoutCall::Prune => Checkout { pruned: Some(output), ..self },
            CheckoutCall::Remove => Checkout { removed: Some(output), ..self },
            CheckoutCall::FindBranch => Checkout { branch_found: Some(output), ..self },
            CheckoutCall::DeleteBranch => Checkout { deleted: Some(output), ..self },
            CheckoutCall::Add => Checkout { added: Some(output), ..self },
        }
    }

    /// How far it has come once a command has run.
    pub fn after(self, which: CheckoutCall, output: GitOutput) -> (checkout: Checkout)
        ensures
            checkout == self.once_run(which, output),
    {
        match which {
            CheckoutCall::Prune => Checkout { pruned: Some(output), ..self },
            CheckoutCall::Remove => Checkout { removed: Some(output), ..self },
            CheckoutCall::FindBranch => Checkout { branch_found: Some(output), ..self },
            CheckoutCall::DeleteBranch => Checkout { deleted: Some(output), ..self },
            CheckoutCall::Add => Checkout { added: Some(output), ..self },
        }
    }

    /// What freeing the path takes: pruning, and removing a worktree found
    /// there. `None` once the path is free.
    pub open spec fn next_for_path(self, repo: Seq<char>, path: Seq<char>) -> Option<CheckoutStepView> {
        match (self.pruned, self.path_exists, self.removed) {
            (None, _, _) => Some(
                CheckoutStepView::Run(
                    CheckoutCall::Prune,
                    git_call(repo, seq!["worktree"@, "prune"@], "worktree prune"@),
                ),
            ),
            (Some(pruned), path_exists, removed) => if !pruned@.ok() {
                Some(CheckoutStepView::Done(Err(pruned@.failure("worktree prune"@))))
            } else {
                match (path_exists, removed) {
                    (None, _) => Some(CheckoutStepView::LookAtPath),
                    (Some(false), _) => None,
                    (Some(true), None) => Some(
                        CheckoutStepView::Run(
                            CheckoutCall::Remove,
                            git_call(
                                repo,
                                seq!["worktree"@, "remove"@, "--force"@, path],
                                "worktree remove"@,
                            ),
                        ),
                    ),
                    (Some(true), Some(removed)) => if removed@.ok() {
                        None
                    } else {
                        Some(CheckoutStepView::Done(Err(removed@.failure("worktree remove"@))))
                    },
                }
            },
        }
    }

    /// What freeing the branch name takes: deleting a branch found under it.
    /// `None` once the name is free.
    pub open spec fn next_for_branch(self, repo: Seq<char>, branch: Seq<char>) -> Option<CheckoutStepView> {
        match (self.branch_found, self.deleted) {
            (None, _) => Some(
                CheckoutStepView::Run(
                    CheckoutCall::FindBranch,
                    git_call(
                        repo,
                        seq!["show-ref"@, "--verify"@, "--quiet"@, "refs/heads/"@ + branch],
                        "show-ref "@ + branch,
                    ),
                ),
            ),
            (Some(found), deleted) => if !found@.ok() {
                None
            } else {
                match deleted {
                    None => Some(
                        CheckoutStepView::Run(
                            CheckoutCall::DeleteBranch,
                            git_call(repo, seq!["branch"@, "-D"@, branch], "branch -D "@ + branch),
                        ),
                    ),
                    Some(deleted) => if deleted@.ok() {
                        None
                    } else {
                        Some(
                            CheckoutStepView::Done(
                                Err(deleted@.failure("branch -D "@ + branch)),
                            ),
                        )
                    },
                }
            },
        }
    }

    /// What putting a worktree in place takes next.
    pub open spec fn next(
        self,
        repo: Seq<char>,
        path: Seq<char>,
        branch: Seq<char>,
        start: WorktreeStart,
    ) -> CheckoutStepView {
        match self.next_for_path(repo, path) {
            Some(step) => step,
            None => match if start is CreatingBranch {
                self.next_for_branch(repo, branch)
            } else {
                None
            } {
                Some(step) => step,
                None => match self.added {
                    None => CheckoutStepView::Run(
                        CheckoutCall::Add,
                        git_call(
                            repo,
                            add_worktree_args(path, branch, start),
                            "worktree add "@ + branch,
                        ),
                    ),
                    Some(added) => if added@.ok() {
                        CheckoutStepView::Done(Ok(()))
                    } else {
                        CheckoutStepView::Done(Err(added@.failure("worktree add "@ + branch)))
                    },
                },
            },
        }
    }

    /// Free the checkout path, whatever is holding it. Anything found here is
    /// the residue of a job that died mid-round, since jobs discard their own
    /// scratch.
    fn clear_previous_checkout(&self, repo: &str, path: &str) -> (step: Option<CheckoutStep>)
        ensures
            opt_view(step) == self.next_for_path(repo@, path@),
    {
        let pruning = git::prune_worktrees(repo);
        match &self.pruned {
            None => {
                return Some(CheckoutStep::Run(CheckoutCall::Prune, pruning));
            },
            Some(output) => match pruning.done(output) {
                Ok(()) => {},
                Err(e) => {
                    return Some(CheckoutStep::Done(Err(e)));
                },
            },
        }
        match self.path_exists {
            None => Some(CheckoutStep::LookAtPath),
            Some(exists) => {
                if !exists {
                    return None;
                }
                let removing = git::remove_worktree(repo, path);
                match &self.removed {
                    None => Some(CheckoutStep::Run(CheckoutCall::Remove, removing)),
                    Some(output) => match removing.done(output) {
                        Ok(()) => None,
                        Err(e) => Some(CheckoutStep::Done(Err(e))),
                    },
                }
            },
        }
    }

    /// Free the branch name, so a fresh attempt can take it.
    fn clear_previous_branch(&self, repo: &str, branch: &str) -> (step: Option<CheckoutStep>)
        ensures
            opt_view(step) == self.next_for_branch(repo@, branch@),
    {
        match &self.branch_found {
            None => Some(
                CheckoutStep::Run(CheckoutCall::FindBranch, git::branch_exists(repo, branch)),
            ),
            Some(found) => {
                if !found.succeeded() {
                    return None;
                }
                let deleting = git::delete_branch(repo, branch);
                match &self.deleted {
                    None => Some(CheckoutStep::Run(CheckoutCall::DeleteBranch, deleting)),
                    Some(output) => match deleting.done(output) {
                        Ok(()) => None,
                        Err(e) => Some(CheckoutStep::Done(Err(e))),
                    },
                }
            },
        }
    }

    /// Put a worktree at `path` holding `branch`, freeing whatever held the
    /// path — and, for a fresh branch, the branch name — first, command by
    /// command.
    pub fn check_out_branch(
        &self,
        repo: &str,
        path: &str,
        branch: &str,
        start: &WorktreeStart,
    ) -> (step: CheckoutStep)
        ensures
            step@ == self.next(repo@, path@, branch@, *start),
    {
        match self.clear_previous_checkout(repo, path) {
            Some(step) => {
                return step;
            },
            None => {},
        }
        match start {
            WorktreeStart::CreatingBranch { .. } => {
                match self.clear_previous_branch(repo, branch) {
                    Some(step) => {
                        return step;
                    },
                    None => {},
                }
            },
            WorktreeStart::OnExistingBranch { .. } => {},
        }
        let adding = git::add_worktree(repo, path, branch, start);
        match &self.added {
            None => CheckoutStep::Run(CheckoutCall::Add, adding),
            Some(output) => CheckoutStep::Done(adding.done(output)),
        }
    }
}

/// A revise round picks its branch back up: nothing that putting its worktree
/// in place runs deletes a branch.
pub proof fn law_revise_round_keeps_its_branch(
    checkout: Checkout,
    repo: Seq<char>,
    path: Seq<char>,
    branch: Seq<char>,
    start: WorktreeStart,
    any: Seq<char>,
)
    requires
        start is OnExistingBranch,
    ensures
        checkout.next(repo, path, branch, start) matches CheckoutStepView::Run(which, call) ==> which
            != CheckoutCall::DeleteBranch && call.args != seq!["branch"@, "-D"@, any],
{
    reveal_strlit("branch");
    reveal_strlit("worktree");
    let deleting = seq!["branch"@, "-D"@, any];
    assert("branch"@.len() != "worktree"@.len());
    if let CheckoutStepView::Run(which, call) = checkout.next(repo, path, branch, start) {
        assert(call.args[0] == "worktree"@);
        assert(deleting[0] == "branch"@);
    }
}

/// A fresh attempt never adds its worktree while the path or the branch name is
/// taken: by then, whatever was found at either is gone.
pub proof fn law_a_fresh_attempt_frees_its_names_first(
    checkout: Checkout,
    repo: Seq<char>,
    path: Seq<char>,
    branch: Seq<char>,
    start: WorktreeStart,
)
    requires
        start is CreatingBranch,
        checkout.next(repo, path, branch, start) matches CheckoutStepView::Run(which, _) && which
            == CheckoutCall::Add,
    ensures
        checkout.pruned matches Some(pruned) && pruned@.ok(),
        checkout.path_exists == Some(false) || (checkout.removed matches Some(removed)
            && removed@.ok()),
        checkout.branch_found matches Some(found) && (found@.ok() ==> (
        checkout.deleted matches Some(deleted) && deleted@.ok())),
{
}

/// Nothing but the job's own names is freed: only the worktree at the job's
/// path is removed, and only the job's own branch is deleted.
pub proof fn law_only_the_jobs_own_names_are_freed(
    checkout: Checkout,
    repo: Seq<char>,
    path: Seq<char>,
    branch: Seq<char>,
    start: WorktreeStart,
)
    ensures
        checkout.next(repo, path, branch, start) matches CheckoutStepView::Run(which, call) ==> match which {
            CheckoutCall::Remove => call.args == seq!["worktree"@, "remove"@, "--force"@, path],
            CheckoutCall::DeleteBranch => call.args == seq!["branch"@, "-D"@, branch],
            CheckoutCall::Prune => call.args == seq!["worktree"@, "prune"@],
            CheckoutCall::FindBranch => call.args == seq![
                "show-ref"@,
                "--verify"@,
                "--quiet"@,
                "refs/heads/"@ + branch,
            ],
            CheckoutCall::Add => call.args == add_worktree_args(path, branch, start),
        },
{
}

/// No command is asked for again once it has run.
pub proof fn law_each_command_runs_once(
    checkout: Checkout,
    repo: Seq<char>,
    path: Seq<char>,
    branch: Seq<char>,
    start: WorktreeStart,
    output: GitOutput,
)
    ensures
        checkout.next(repo, path, branch, start) matches CheckoutStepView::Run(which, _) ==> !(
        checkout.once_run(which, output).next(repo, path, branch, start) matches CheckoutStepView::Run(
            again,
            _,
        ) && again == which),
{
}

/// One file to copy into a checkout.
#[derive(Debug, Clone, PartialEq, Eq)]
pub struct SeedCopy {
    /// The path as the repository declares it.
    pub declared: String,
    pub from: String,
    pub to: String,
    /// The directory `to` stands in, which has to be there first.
    pub directory: Option<String>,
}

pub struct SeedCopyView {
    pub declared: Seq<char>,
    pub from: Seq<char>,
    pub to: Seq<char>,
    pub directory: Option<Seq<char>>,
}

impl View for SeedCopy {
    type V = SeedCopyView;

    open spec fn view(&self) -> SeedCopyView {
        SeedCopyView {
            declared: self.declared@,
            from: self.from@,
            to: self.to@,
            directory: opt_view(self.directory),
        }
    }
}

/// The copies that bring the repository's `copy` paths into the checkout.
pub open spec fn seed_copies(
    into: Seq<char>,
    seed_from: Seq<char>,
    copy_paths: Seq<Seq<char>>,
) -> Seq<SeedCopyView> {
    Seq::new(
        copy_paths.len(),
        |i: int|
            SeedCopyView {
                declared: copy_paths[i],
                from: path_below(seed_from, copy_paths[i]),
                to: path_below(into, copy_paths[i]),
                directory: parent(path_below(into, copy_paths[i])),
            },
    )
}

/// The copies that bring the repository's `copy` paths into the checkout.
pub fn seed_files(into: &str, seed_from: &str, copy_paths: &Vec<String>) -> (copies: Vec<SeedCopy>)
    ensures
        views(copies@) == seed_copies(into@, seed_from@, texts(copy_paths@)),
{
    let ghost all = seed_copies(into@, seed_from@, texts(copy_paths@));
    let mut copies: Vec<SeedCopy> = Vec::new();
    let mut at: usize = 0;
    while at < copy_paths.len()
        invariant
            at <= copy_paths.len(),
            copies.len() == at,
            all == seed_copies(into@, seed_from@, texts(copy_paths@)),
            forall|i: int| 0 <= i < at ==> (#[trigger] copies@[i])@ == all[i],
        decreases copy_paths.len() - at,
    {
        let rel = copy_paths[at].clone();
        let to = join_path(into, rel.as_str());
        let directory = parent_of(to.as_str());
        let from = join_path(seed_from, rel.as_str());
        copies.push(SeedCopy { declared: rel, from, to, directory });
        at = at + 1;
    }
    assert(views(copies@) =~= all);
    copies
}

/// How a seed that could not be copied is reported.
pub fn seed_failure(declared: &str, error: &str) -> (message: String)
    ensures
        message@ == "copying '"@ + declared@ + "' into the workspace: "@ + error@,
{
    let mut message = String::from_str("copying '");
    message.append(declared);
    message.append("' into the workspace: ");
    message.append(error);
    message
}

/// The sandbox, once its worktree is in place and seeded.
pub fn create(path: &str, branch: &str, copy_paths: &Vec<String>) -> (ws: JobWorkspace)
    ensures
        ws.path@ == path@,
        ws.branch@ == branch@,
        ws.seeded@ == copy_paths@,
{
    JobWorkspace {
        path: String::from_str(path),
        branch: String::from_str(branch),
        seeded: copy_texts(copy_paths),
    }
}

/// Commit what the agent left in the workspace, command by command. What was
/// seeded stays out.
pub fn commit(ws: &JobWorkspace, message: &str, done: &Vec<GitOutput>) -> (step: git::CommitStep)
    ensures
        git::step_says(
            step,
            git::commit_outcome(texts(ws.seeded@), views(done@)),
            git::commit_calls(ws.path@, message@, texts(ws.seeded@))[done.len() as int],
        ),
{
    git::commit_all_except(ws.path.as_str(), message, &ws.seeded, done)
}

/// What is next when a branch is published, or what came of it: the remote it
/// reached, or `None` when the repository has no such remote.
#[derive(Debug, PartialEq, Eq)]
pub enum PublishStep {
    Run(GitCall),
    Done(Result<Option<String>, String>),
}

pub enum PublishStepView {
    Run(GitCallView),
    Done(Result<Option<Seq<char>>, Seq<char>>),
}

impl View for PublishStep {
    type V = PublishStepView;

    open spec fn view(&self) -> PublishStepView {
        match self {
            PublishStep::Run(call) => PublishStepView::Run(call@),
            PublishStep::Done(Ok(reached)) => PublishStepView::Done(Ok(opt_view(*reached))),
            PublishStep::Done(Err(e)) => PublishStepView::Done(Err(e@)),
        }
    }
}

/// What publishing `branch` to `remote` takes next, from what listing the
/// remotes and pushing printed so far.
pub open spec fn publish_next(
    repo: Seq<char>,
    branch: Seq<char>,
    remote: Seq<char>,
    listed: Option<GitOutput>,
    pushed: Option<GitOutput>,
) -> PublishStepView {
    match listed {
        None => PublishStepView::Run(git_call(repo, seq!["remote"@], "remote"@)),
        Some(listed) => match listed@.answer("remote"@) {
            Err(e) => PublishStepView::Done(Err(e)),
            Ok(names) => if !lists_name(lines(names), remote) {
                PublishStepView::Done(Ok(None))
            } else {
                match pushed {
                    None => PublishStepView::Run(
                        git_call(
                            repo,
                            seq!["push"@, remote, branch],
                            "push "@ + remote + " "@ + branch,
                        ),
                    ),
                    Some(pushed) => if pushed@.ok() {
                        PublishStepView::Done(Ok(Some(remote)))
                    } else {
                        PublishStepView::Done(
                            Err(pushed@.failure("push "@ + remote + " "@ + branch)),
                        )
                    },
                }
            },
        },
    }
}

/// Make the job's branch durable, command by command: the remote it reached,
/// or `None` when the repository has no such remote.
///
/// Note the asymmetry: a *missing* remote is `Ok(None)`, a *refused* push is
/// `Err` — callers that treat the two alike flatten it themselves.
pub fn publish(
    repo: &str,
    branch: &str,
    remote: &str,
    listed: &Option<GitOutput>,
    pushed: &Option<GitOutput>,
) -> (step: PublishStep)
    ensures
        step@ == publish_next(repo@, branch@, remote@, *listed, *pushed),
{
    let listing = match listed {
        None => {
            return PublishStep::Run(git::list_remotes(repo));
        },
        Some(output) => output,
    };
    match git::remote_exists(listing, remote) {
        Err(e) => PublishStep::Done(Err(e)),
        Ok(found) => {
            if !found {
                return PublishStep::Done(Ok(None));
            }
            let pushing = git::push_branch(repo, remote, branch);
            match pushed {
                None => PublishStep::Run(pushing),
                Some(output) => match pushing.done(output) {
                    Ok(()) => PublishStep::Done(Ok(Some(String::from_str(remote)))),
                    Err(e) => PublishStep::Done(Err(e)),
                },
            }
        },
    }
}

/// Remove the checkout. The branch survives.
pub fn discard(repo: &str, ws: &JobWorkspace) -> (call: GitCall)
    ensures
        call.is(repo@, seq!["worktree"@, "remove"@, "--force"@, ws.path@], "worktree remove"@),
{
    git::remove_worktree(repo, ws.path.as_str())
}

/// The seed that is reported missing is the first that is; where all are there,
/// none is.
pub proof fn law_the_first_missing_seed_is_named(paths: Seq<Seq<char>>, present: Seq<bool>, at: int)
    requires
        present.len() == paths.len(),
        0 <= at <= paths.len(),
        forall|i: int| 0 <= i < at ==> #[trigger] present[i],
        at < paths.len() ==> !present[at],
    ensures
        first_missing(paths, present) == (if at < paths.len() {
            Some(paths[at])
        } else {
            None
        }),
    decreases paths.len(),
{
    if at > 0 {
        assert(present[0]);
        assert forall|i: int| 0 <= i < at - 1 implies #[trigger] present.skip(1)[i] by {
            assert(present[i + 1]);
        }
        law_the_first_missing_seed_is_named(paths.skip(1), present.skip(1), at - 1);
    }
}

/// Every `copy` path is looked for and copied, once and in order, from the
/// place it is looked for to the same place in the checkout.
pub proof fn law_every_seed_is_copied(
    into: Seq<char>,
    seed_from: Seq<char>,
    copy_paths: Seq<Seq<char>>,
    at: int,
)
    requires
        0 <= at < copy_paths.len(),
    ensures
        seed_paths(seed_from, copy_paths).len() == copy_paths.len(),
        seed_copies(into, seed_from, copy_paths).len() == copy_paths.len(),
        ({
            let copy = seed_copies(into, seed_from, copy_paths)[at];
            &&& copy.declared == copy_paths[at]
            &&& copy.from == seed_paths(seed_from, copy_paths)[at]
            &&& copy.from == path_below(seed_from, copy_paths[at])
            &&& copy.to == path_below(into, copy_paths[at])
            &&& copy.directory == parent(copy.to)
        }),
{
}

/// A branch counts as published exactly when the remote is configured and took
/// it; without such a remote nothing is pushed, and nothing is an error but
/// what git refused. Only the branch itself is pushed, and never by force.
pub proof fn law_publishing_goes_by_what_git_says(
    repo: Seq<char>,
    branch: Seq<char>,
    remote: Seq<char>,
    listed: GitOutput,
    pushed: Option<GitOutput>,
)
    ensures
        ({
            let step = publish_next(repo, branch, remote, Some(listed), pushed);
            let names = lines(trimmed(listed@.stdout));
            let configured = exists|i: int|
                0 <= i < names.len() && trimmed(#[trigger] names[i]) == remote;
            &&& listed.exit_code != 0 ==> (step matches PublishStepView::Done(Err(_)))
            &&& listed.exit_code == 0 && !configured ==> step == PublishStepView::Done(
                Ok::<Option<Seq<char>>, Seq<char>>(None),
            )
            &&& listed.exit_code == 0 && configured && pushed is None ==> (
            step matches PublishStepView::Run(call) && call.dir == repo && call.args == seq![
                "push"@,
                remote,
                branch,
            ])
            &&& listed.exit_code == 0 && configured && pushed is Some && pushed->0.exit_code == 0
                ==> step == PublishStepView::Done(
                Ok::<Option<Seq<char>>, Seq<char>>(Some(remote)),
            )
            &&& listed.exit_code == 0 && configured && pushed is Some && pushed->0.exit_code != 0
                ==> (step matches PublishStepView::Done(Err(_)))
        }),
{
    let names = lines(trimmed(listed@.stdout));
    if listed.exit_code == 0 {
        assert(listed@.answer("remote"@) == Ok::<Seq<char>, Seq<char>>(trimmed(listed@.stdout)));
        assert(lists_name(names, remote) <==> exists|i: int|
            0 <= i < names.len() && trimmed(#[trigger] names[i]) == remote);
    }
}

/// A checkout is in place exactly when git added it, after freeing what was in
/// the way; where git refused a command, that refusal is what came of it.
pub proof fn law_a_checkout_goes_by_what_git_says(
    checkout: Checkout,
    repo: Seq<char>,
    path: Seq<char>,
    branch: Seq<char>,
    start: WorktreeStart,
)
    ensures
        ({
            let step = checkout.next(repo, path, branch, start);
            let pruned = checkout.pruned matches Some(o) && o.exit_code == 0;
            let freed = checkout.path_exists == Some(false) || (checkout.path_exists == Some(true)
                && (checkout.removed matches Some(o) && o.exit_code == 0));
            let named = start is OnExistingBranch || (checkout.branch_found matches Some(o)
                && o.exit_code != 0) || (checkout.branch_found is Some && (
            checkout.deleted matches Some(o) && o.exit_code == 0));
            let added = checkout.added matches Some(o) && o.exit_code == 0;
            &&& step == CheckoutStepView::Done(Ok::<(), Seq<char>>(())) <==> pruned && freed
                && named && added
            &&& pruned && freed && named && checkout.added is None ==> (
            step matches CheckoutStepView::Run(which, call) && which == CheckoutCall::Add
                && call.dir == repo && call.args.contains(path) && call.args.contains(branch))
            &&& (step matches CheckoutStepView::Done(Err(e)) ==> exists|o: GitOutput|
                (checkout.pruned == Some(o) || checkout.removed == Some(o) || checkout.deleted
                    == Some(o) || checkout.added == Some(o)) && o.exit_code != 0
                    && #[trigger] trimmed(o@.stderr).is_suffix_of(e))
        }),
{
    let args = add_worktree_args(path, branch, start);
    if start is CreatingBranch {
        assert(args[3] == branch && args[4] == path);
    } else {
        assert(args[3] == branch && args[2] == path);
    }
    assert(args.contains(path) && args.contains(branch));
    if let CheckoutStepView::Done(Err(e)) = checkout.next(repo, path, branch, start) {
        let (o, operation) = if !checkout.pruned->0@.ok() {
            (checkout.pruned->0, "worktree prune"@)
        } else if checkout.path_exists == Some(true) && !checkout.removed->0@.ok() {
            (checkout.removed->0, "worktree remove"@)
        } else if start is CreatingBranch && checkout.branch_found->0@.ok()
            && !checkout.deleted->0@.ok() {
            (checkout.deleted->0, "branch -D "@ + branch)
        } else {
            (checkout.added->0, "worktree add "@ + branch)
        };
        assert(e == o@.failure(operation));
        git::law_a_command_is_answered_by_its_exit(o@, operation);
        assert(o@.answer(operation) == Err::<Seq<char>, Seq<char>>(e));
        assert(trimmed(o@.stderr).is_suffix_of(e));
    }
}

/// A fresh attempt's worktree makes the job's branch at the commit it starts
/// from; a revise round's takes the branch as it is, and makes none.
pub proof fn law_only_a_fresh_attempt_makes_a_branch(
    path: Seq<char>,
    branch: Seq<char>,
    start: WorktreeStart,
)
    ensures
        start matches WorktreeStart::CreatingBranch { at } ==> add_worktree_args(
            path,
            branch,
            start,
        ) == seq!["worktree"@, "add"@, "-b"@, branch, path, at@],
        start is OnExistingBranch ==> add_worktree_args(path, branch, start).len() == 4
            && add_worktree_args(path, branch, start)[2] == path && add_worktree_args(
            path,
            branch,
            start,
        )[3] == branch,
{
}

} // verus!
