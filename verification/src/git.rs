//! Git operations: the command each one runs, and what its output means.
//!
//! Two rules shape this module. The user's working tree is never touched — all
//! writes happen in worktrees assembly-line creates elsewhere. And every
//! operation names the repository or worktree it acts on, so nothing depends
//! on the process's current directory.
//!
//! Every operation shares one failure mode: `git` could not be spawned, or it
//! exited non-zero, in which case the error carries git's own stderr.

use crate::lines::{blank, is_blank, is_space, join, joined, law_pieces_are_the_text_cut,
    lemma_first_index_is, lines, lines_of, pieces, split, trim, trimmed};
use crate::number::{decimal, is_digit, law_decimal_reads_back, number_in, number_of, number_up_to,
    signed_decimal, signed_decimal_of};
use crate::text::{opt_view, same_text, texts, views};
use vstd::prelude::*;

verus! {

/// A finished `git` invocation, before deciding whether its status matters.
#[derive(Debug, Clone, PartialEq, Eq)]
pub struct GitOutput {
    pub exit_code: i32,
    pub stdout: String,
    pub stderr: String,
}

pub struct GitOutputView {
    pub exit_code: int,
    pub stdout: Seq<char>,
    pub stderr: Seq<char>,
}

impl View for GitOutput {
    type V = GitOutputView;

    open spec fn view(&self) -> GitOutputView {
        GitOutputView {
            exit_code: self.exit_code as int,
            stdout: self.stdout@,
            stderr: self.stderr@,
        }
    }
}

impl GitOutputView {
    pub open spec fn ok(self) -> bool {
        self.exit_code == 0
    }

    /// How a failed operation is reported.
    pub open spec fn failure(self, operation: Seq<char>) -> Seq<char> {
        operation + " failed (exit "@ + signed_decimal(self.exit_code) + "): "@ + trimmed(
            self.stderr,
        )
    }

    /// What an operation that must succeed gives: its output without the white
    /// space around it, or the failure.
    pub open spec fn answer(self, operation: Seq<char>) -> Result<Seq<char>, Seq<char>> {
        if self.ok() {
            Ok(trimmed(self.stdout))
        } else {
            Err(self.failure(operation))
        }
    }
}

/// What a result over texts holds.
pub open spec fn result_view(result: Result<String, String>) -> Result<Seq<char>, Seq<char>> {
    match result {
        Ok(text) => Ok(text@),
        Err(e) => Err(e@),
    }
}

impl GitOutput {
    /// The output of a process that ended with this exit code, or by a signal.
    pub fn of_process(code: Option<i32>, stdout: String, stderr: String) -> (output: GitOutput)
        ensures
            output.exit_code == (match code {
                Some(code) => code as int,
                None => -1,
            }),
            output.stdout == stdout,
            output.stderr == stderr,
    {
        GitOutput {
            exit_code: match code {
                Some(code) => code,
                None => -1,
            },
            stdout,
            stderr,
        }
    }

    pub fn succeeded(&self) -> (yes: bool)
        ensures
            yes == self@.ok(),
    {
        self.exit_code == 0
    }

    /// The output of an operation that must succeed, without the white space
    /// around it.
    pub fn stdout_or_error(&self, operation: &str) -> (answer: Result<String, String>)
        ensures
            result_view(answer) == self@.answer(operation@),
    {
        match self.stdout_verbatim_or_error(operation) {
            Ok(out) => Ok(trim(out.as_str())),
            Err(e) => Err(e),
        }
    }

    /// For file contents, where a trailing newline is part of the file rather
    /// than noise.
    pub fn stdout_verbatim_or_error(&self, operation: &str) -> (answer: Result<String, String>)
        ensures
            match answer {
                Ok(out) => self@.ok() && out@ == self@.stdout,
                Err(e) => !self@.ok() && e@ == self@.failure(operation@),
            },
    {
        if self.succeeded() {
            Ok(self.stdout.clone())
        } else {
            let mut message = String::from_str(operation);
            message.append(" failed (exit ");
            message.append(signed_decimal_of(self.exit_code).as_str());
            message.append("): ");
            message.append(trim(self.stderr.as_str()).as_str());
            Err(message)
        }
    }
}

/// The texts as owned arguments.
pub(crate) fn args_of(parts: &[&str]) -> (args: Vec<String>)
    ensures
        args.len() == parts@.len(),
        forall|i: int| 0 <= i < args.len() ==> (#[trigger] args@[i])@ == parts@[i]@,
{
    let mut args: Vec<String> = Vec::new();
    let mut at: usize = 0;
    while at < parts.len()
        invariant
            at <= parts.len(),
            args.len() == at,
            forall|i: int| 0 <= i < at ==> (#[trigger] args@[i])@ == parts@[i]@,
        decreases parts.len() - at,
    {
        args.push(String::from_str(parts[at]));
        at = at + 1;
    }
    args
}

/// Two texts, one after the other.
pub(crate) fn both(first: &str, second: &str) -> (text: String)
    ensures
        text@ == first@ + second@,
{
    let mut text = String::from_str(first);
    text.append(second);
    text
}

/// A `git` command: the repository or worktree it is run in, its arguments,
/// and the name it is reported by.
#[derive(Debug, Clone, PartialEq, Eq)]
pub struct GitCall {
    pub dir: String,
    pub args: Vec<String>,
    pub operation: String,
}

pub struct GitCallView {
    pub dir: Seq<char>,
    pub args: Seq<Seq<char>>,
    pub operation: Seq<char>,
}

impl View for GitCall {
    type V = GitCallView;

    open spec fn view(&self) -> GitCallView {
        GitCallView { dir: self.dir@, args: texts(self.args@), operation: self.operation@ }
    }
}

/// The `git` command with these arguments, run in this directory and reported
/// by this name.
pub open spec fn git_call(
    dir: Seq<char>,
    args: Seq<Seq<char>>,
    operation: Seq<char>,
) -> GitCallView {
    GitCallView { dir, args, operation }
}

impl GitCall {
    /// Whether this is the command with these arguments, run in this directory
    /// and reported by this name.
    pub open spec fn is(
        self,
        dir: Seq<char>,
        args: Seq<Seq<char>>,
        operation: Seq<char>,
    ) -> bool {
        self@ == git_call(dir, args, operation)
    }

    /// What the command gives, when it must succeed.
    pub fn answer(&self, output: &GitOutput) -> (answer: Result<String, String>)
        ensures
            result_view(answer) == output@.answer(self.operation@),
    {
        output.stdout_or_error(self.operation.as_str())
    }

    /// What the command gives, when it must succeed and says nothing of
    /// interest.
    pub fn done(&self, output: &GitOutput) -> (done: Result<(), String>)
        ensures
            match done {
                Ok(()) => output@.ok(),
                Err(e) => !output@.ok() && e@ == output@.failure(self.operation@),
            },
    {
        match self.answer(output) {
            Ok(_) => Ok(()),
            Err(e) => Err(e),
        }
    }

    fn new(dir: &str, args: Vec<String>, operation: String) -> (call: GitCall)
        ensures
            call.dir@ == dir@,
            call.args == args,
            call.operation == operation,
    {
        GitCall { dir: String::from_str(dir), args, operation }
    }
}

/// How a `git` that could not be spawned is reported.
pub fn spawn_failure(args: &Vec<String>, error: &str) -> (message: String)
    ensures
        message@ == "running `git "@ + joined(texts(args@), " "@) + "`: "@ + error@,
{
    let mut message = String::from_str("running `git ");
    message.append(join(args, " ").as_str());
    message.append("`: ");
    message.append(error);
    message
}

pub fn head_sha(repo: &str) -> (call: GitCall)
    ensures
        call.is(repo@, seq!["rev-parse"@, "HEAD"@], "rev-parse HEAD"@),
{
    let call = GitCall::new(repo, args_of(&["rev-parse", "HEAD"]), String::from_str("rev-parse HEAD"));
    assert(texts(call.args@) =~= seq!["rev-parse"@, "HEAD"@]);
    call
}

/// The commit `git_ref` names — a branch, a tag, `HEAD`, or a raw sha.
///
/// This pins the checkout to one commit rather than handing git the ref name
/// and letting it re-resolve later. It does not, on its own, make the whole
/// job atomic with respect to the ref: the configuration is read by the same
/// ref name earlier. A branch that moves in between gives config from one
/// commit and a tree from another — a window this does not close.
pub fn sha_at_ref(repo: &str, git_ref: &str) -> (call: GitCall)
    ensures
        call.is(repo@, seq!["rev-parse"@, git_ref@ + "^{commit}"@], "rev-parse "@ + git_ref@),
{
    let commit = both(git_ref, "^{commit}");
    let call = GitCall::new(
        repo,
        args_of(&["rev-parse", commit.as_str()]),
        both("rev-parse ", git_ref),
    );
    assert(texts(call.args@) =~= seq!["rev-parse"@, git_ref@ + "^{commit}"@]);
    call
}

/// How git names one file as of a ref.
pub open spec fn file_spec(git_ref: Seq<char>, path: Seq<char>) -> Seq<char> {
    git_ref + ":"@ + path
}

/// What is next when one file's contents as of a ref are wanted, or what came
/// of it: `None` when that ref does not carry it.
#[derive(Debug, PartialEq, Eq)]
pub enum FileStep {
    Run(GitCall),
    Done(Result<Option<String>, String>),
}

/// Read one file's contents as of `git_ref`, command by command: `present` and
/// `shown` are the outputs of the commands asked for so far.
///
/// Reading configuration from a ref rather than from a checkout is what stops
/// a job editing the settings that govern it: the agent's branch can say
/// anything, and this never looks at it. The contents come back verbatim: a
/// config file must be the bytes the ref carries, not a tidied copy.
pub fn file_at_ref(
    repo: &str,
    git_ref: &str,
    path: &str,
    present: Option<&GitOutput>,
    shown: Option<&GitOutput>,
) -> (step: FileStep)
    ensures
        match (present, shown) {
            (None, _) => step matches FileStep::Run(call) && call.is(
                repo@,
                seq!["cat-file"@, "-e"@, file_spec(git_ref@, path@)],
                "cat-file -e "@ + file_spec(git_ref@, path@),
            ),
            (Some(found), shown) => if !found@.ok() {
                step matches FileStep::Done(Ok(None))
            } else {
                match shown {
                    None => step matches FileStep::Run(call) && call.is(
                        repo@,
                        seq!["show"@, file_spec(git_ref@, path@)],
                        "show "@ + file_spec(git_ref@, path@),
                    ),
                    Some(output) => if output@.ok() {
                        step matches FileStep::Done(Ok(Some(body))) && body@ == output@.stdout
                    } else {
                        step matches FileStep::Done(Err(e)) && e@ == output@.failure(
                            "show "@ + file_spec(git_ref@, path@),
                        )
                    },
                }
            },
        },
{
    let mut spec = both(git_ref, ":");
    spec.append(path);
    match present {
        None => {
            let args = args_of(&["cat-file", "-e", spec.as_str()]);
            assert(texts(args@) =~= seq!["cat-file"@, "-e"@, file_spec(git_ref@, path@)]);
            FileStep::Run(GitCall::new(repo, args, both("cat-file -e ", spec.as_str())))
        },
        Some(found) => {
            if !found.succeeded() {
                return FileStep::Done(Ok(None));
            }
            let call = GitCall::new(
                repo,
                args_of(&["show", spec.as_str()]),
                both("show ", spec.as_str()),
            );
            assert(texts(call.args@) =~= seq!["show"@, file_spec(git_ref@, path@)]);
            match shown {
                None => FileStep::Run(call),
                Some(output) => match output.stdout_verbatim_or_error(call.operation.as_str()) {
                    Ok(body) => FileStep::Done(Ok(Some(body))),
                    Err(e) => FileStep::Done(Err(e)),
                },
            }
        },
    }
}

/// The commit `branch` points at. A revise round starts here, so the agent
/// sees its own prior work rather than starting over.
pub fn branch_tip(repo: &str, branch: &str) -> (call: GitCall)
    ensures
        call.is(repo@, seq!["rev-parse"@, "refs/heads/"@ + branch@], "rev-parse "@ + branch@),
{
    let name = both("refs/heads/", branch);
    let call = GitCall::new(
        repo,
        args_of(&["rev-parse", name.as_str()]),
        both("rev-parse ", branch),
    );
    assert(texts(call.args@) =~= seq!["rev-parse"@, "refs/heads/"@ + branch@]);
    call
}

/// The checked-out branch.
pub fn current_branch(repo: &str) -> (call: GitCall)
    ensures
        call.is(repo@, seq!["branch"@, "--show-current"@], "branch --show-current"@),
{
    let call = GitCall::new(
        repo,
        args_of(&["branch", "--show-current"]),
        String::from_str("branch --show-current"),
    );
    assert(texts(call.args@) =~= seq!["branch"@, "--show-current"@]);
    call
}

/// The checked-out branch from what [`current_branch`] printed, or `None` when
/// HEAD is detached.
pub fn branch_checked_out(output: &GitOutput) -> (branch: Result<Option<String>, String>)
    ensures
        match output@.answer("branch --show-current"@) {
            Ok(name) => branch matches Ok(found) && opt_view(found) == (if name.len() > 0 {
                Some(name)
            } else {
                None
            }),
            Err(e) => branch matches Err(message) && message@ == e,
        },
{
    match output.stdout_or_error("branch --show-current") {
        Ok(name) => if name.as_str().is_empty() {
            Ok(None)
        } else {
            Ok(Some(name))
        },
        Err(e) => Err(e),
    }
}

/// Asks whether the repository has any commits yet, by whether it succeeds. A
/// freshly initialised repo has none, and a job needs one to branch from.
pub fn has_commits(repo: &str) -> (call: GitCall)
    ensures
        call.is(repo@, seq!["rev-parse"@, "--verify"@, "HEAD"@], "rev-parse --verify HEAD"@),
{
    let call = GitCall::new(
        repo,
        args_of(&["rev-parse", "--verify", "HEAD"]),
        String::from_str("rev-parse --verify HEAD"),
    );
    assert(texts(call.args@) =~= seq!["rev-parse"@, "--verify"@, "HEAD"@]);
    call
}

/// Asks whether there is a branch of this name, by whether it succeeds.
pub fn branch_exists(repo: &str, branch: &str) -> (call: GitCall)
    ensures
        call.is(
            repo@,
            seq!["show-ref"@, "--verify"@, "--quiet"@, "refs/heads/"@ + branch@],
            "show-ref "@ + branch@,
        ),
{
    let name = both("refs/heads/", branch);
    let call = GitCall::new(
        repo,
        args_of(&["show-ref", "--verify", "--quiet", name.as_str()]),
        both("show-ref ", branch),
    );
    assert(texts(call.args@) =~= seq![
        "show-ref"@,
        "--verify"@,
        "--quiet"@,
        "refs/heads/"@ + branch@,
    ]);
    call
}

/// Where a new worktree's content begins, and what that makes of its branch.
///
/// Both variants name the commit the worktree starts at. `git worktree add`
/// needs it only when creating the branch — checking out a branch that already
/// exists lands at its tip by definition — but callers diff against it either
/// way.
#[derive(Debug, Clone, PartialEq, Eq)]
pub enum WorktreeStart {
    /// Create `branch` at this commit, superseding any earlier attempt's.
    CreatingBranch { at: String },
    /// Check out a branch that is already there, whose tip is this commit —
    /// how a revise round picks its own branch back up.
    OnExistingBranch { tip: String },
}

impl WorktreeStart {
    /// The commit the worktree starts from, however its branch came to be.
    pub open spec fn commit(self) -> Seq<char> {
        match self {
            WorktreeStart::CreatingBranch { at } => at@,
            WorktreeStart::OnExistingBranch { tip } => tip@,
        }
    }

    /// The commit the worktree starts from, however its branch came to be —
    /// which is what a round's diff is measured against.
    pub fn start_commit(&self) -> (commit: &str)
        ensures
            commit@ == self.commit(),
    {
        match self {
            WorktreeStart::CreatingBranch { at } => at.as_str(),
            WorktreeStart::OnExistingBranch { tip } => tip.as_str(),
        }
    }
}

/// The arguments that check `branch` out into a new worktree at `path`.
pub open spec fn add_worktree_args(
    path: Seq<char>,
    branch: Seq<char>,
    start: WorktreeStart,
) -> Seq<Seq<char>> {
    match start {
        WorktreeStart::CreatingBranch { at } => seq![
            "worktree"@,
            "add"@,
            "-b"@,
            branch,
            path,
            at@,
        ],
        WorktreeStart::OnExistingBranch { .. } => seq!["worktree"@, "add"@, path, branch],
    }
}

/// Check `branch` out into a new worktree at `path`, creating the branch first
/// when `start` says to.
pub fn add_worktree(repo: &str, path: &str, branch: &str, start: &WorktreeStart) -> (call: GitCall)
    ensures
        call.is(repo@, add_worktree_args(path@, branch@, *start), "worktree add "@ + branch@),
{
    let operation = both("worktree add ", branch);
    let args = match start {
        WorktreeStart::CreatingBranch { at } => args_of(
            &["worktree", "add", "-b", branch, path, at.as_str()],
        ),
        WorktreeStart::OnExistingBranch { .. } => args_of(&["worktree", "add", path, branch]),
    };
    assert(texts(args@) =~= add_worktree_args(path@, branch@, *start));
    GitCall::new(repo, args, operation)
}

/// Delete a branch whether or not it was merged — a superseded attempt is
/// unmerged by definition, and a safe delete would refuse it.
pub fn delete_branch(repo: &str, branch: &str) -> (call: GitCall)
    ensures
        call.is(repo@, seq!["branch"@, "-D"@, branch@], "branch -D "@ + branch@),
{
    let call = GitCall::new(repo, args_of(&["branch", "-D", branch]), both("branch -D ", branch));
    assert(texts(call.args@) =~= seq!["branch"@, "-D"@, branch@]);
    call
}

/// List the remotes that are configured.
pub fn list_remotes(repo: &str) -> (call: GitCall)
    ensures
        call.is(repo@, seq!["remote"@], "remote"@),
{
    let call = GitCall::new(repo, args_of(&["remote"]), String::from_str("remote"));
    assert(texts(call.args@) =~= seq!["remote"@]);
    call
}

/// Whether one of the lines, white space around it aside, is `name`.
pub open spec fn lists_name(list: Seq<Seq<char>>, name: Seq<char>) -> bool {
    exists|i: int| 0 <= i < list.len() && trimmed(#[trigger] list[i]) == name
}

/// Whether `remote` is configured, from what [`list_remotes`] printed.
pub fn remote_exists(output: &GitOutput, remote: &str) -> (found: Result<bool, String>)
    ensures
        match output@.answer("remote"@) {
            Ok(listed) => found == Ok::<bool, String>(lists_name(lines(listed), remote@)),
            Err(e) => found matches Err(message) && message@ == e,
        },
{
    let listed = match output.stdout_or_error("remote") {
        Ok(listed) => listed,
        Err(e) => {
            return Err(e);
        },
    };
    let names = lines_of(listed.as_str());
    let ghost all = lines(listed@);
    let mut at: usize = 0;
    while at < names.len()
        invariant
            at <= names.len(),
            texts(names@) == all,
            all == lines(listed@),
            output@.answer("remote"@) == Ok::<Seq<char>, Seq<char>>(listed@),
            forall|i: int| 0 <= i < at ==> trimmed(#[trigger] all[i]) != remote@,
        decreases names.len() - at,
    {
        assert(all[at as int] == names@[at as int]@);
        if same_text(trim(names[at].as_str()).as_str(), remote) {
            return Ok(true);
        }
        at = at + 1;
    }
    Ok(false)
}

/// Deliberately without `--set-upstream`: that would write `branch.*.remote`
/// into the repository's config. A later round pushes the same branch name
/// again and fast-forwards without it.
pub fn push_branch(repo: &str, remote: &str, branch: &str) -> (call: GitCall)
    ensures
        call.is(repo@, seq!["push"@, remote@, branch@], "push "@ + remote@ + " "@ + branch@),
{
    let mut operation = both("push ", remote);
    operation.append(" ");
    operation.append(branch);
    let call = GitCall::new(repo, args_of(&["push", remote, branch]), operation);
    assert(texts(call.args@) =~= seq!["push"@, remote@, branch@]);
    call
}

/// Forcing is deliberate: the worktree is assembly-line's to discard, and it
/// routinely holds untracked build output.
pub fn remove_worktree(repo: &str, path: &str) -> (call: GitCall)
    ensures
        call.is(repo@, seq!["worktree"@, "remove"@, "--force"@, path@], "worktree remove"@),
{
    let call = GitCall::new(
        repo,
        args_of(&["worktree", "remove", "--force", path]),
        String::from_str("worktree remove"),
    );
    assert(texts(call.args@) =~= seq!["worktree"@, "remove"@, "--force"@, path@]);
    call
}

/// Drop administrative entries for worktrees whose directories are gone.
///
/// Not optional: git still lists such a worktree and refuses to reuse its path
/// until told otherwise, so deleting the directory alone leaves the name
/// unusable.
pub fn prune_worktrees(repo: &str) -> (call: GitCall)
    ensures
        call.is(repo@, seq!["worktree"@, "prune"@], "worktree prune"@),
{
    let call = GitCall::new(
        repo,
        args_of(&["worktree", "prune"]),
        String::from_str("worktree prune"),
    );
    assert(texts(call.args@) =~= seq!["worktree"@, "prune"@]);
    call
}

/// Ask for uncommitted changes, tracked or otherwise.
pub fn status(worktree: &str) -> (call: GitCall)
    ensures
        call.is(worktree@, seq!["status"@, "--porcelain"@], "status"@),
{
    let call = GitCall::new(worktree, args_of(&["status", "--porcelain"]), String::from_str("status"));
    assert(texts(call.args@) =~= seq!["status"@, "--porcelain"@]);
    call
}

/// Whether a worktree has uncommitted changes, from what [`status`] printed.
pub fn is_dirty(output: &GitOutput) -> (dirty: Result<bool, String>)
    ensures
        match output@.answer("status"@) {
            Ok(listed) => dirty == Ok::<bool, String>(listed.len() > 0),
            Err(e) => dirty matches Err(message) && message@ == e,
        },
{
    match output.stdout_or_error("status") {
        Ok(listed) => Ok(!listed.as_str().is_empty()),
        Err(e) => Err(e),
    }
}

#[derive(Debug, Clone, Copy, PartialEq, Eq, Structural)]
pub struct DiffStat {
    pub files: usize,
    pub insertions: usize,
    pub deletions: usize,
}

impl Default for DiffStat {
    fn default() -> (stat: DiffStat)
        ensures
            stat == (DiffStat { files: 0, insertions: 0, deletions: 0 }),
    {
        DiffStat { files: 0, insertions: 0, deletions: 0 }
    }
}

/// How much changed, as numbers of any size.
pub struct StatView {
    pub files: nat,
    pub insertions: nat,
    pub deletions: nat,
}

impl View for DiffStat {
    type V = StatView;

    open spec fn view(&self) -> StatView {
        StatView {
            files: self.files as nat,
            insertions: self.insertions as nat,
            deletions: self.deletions as nat,
        }
    }
}

/// Ask how much changed since `base`, file by file.
pub fn diff_stat_against(worktree: &str, base: &str) -> (call: GitCall)
    ensures
        call.is(worktree@, seq!["diff"@, "--numstat"@, base@ + "..HEAD"@], "diff --numstat"@),
{
    let range = both(base, "..HEAD");
    let call = GitCall::new(
        worktree,
        args_of(&["diff", "--numstat", range.as_str()]),
        String::from_str("diff --numstat"),
    );
    assert(texts(call.args@) =~= seq!["diff"@, "--numstat"@, base@ + "..HEAD"@]);
    call
}

/// The count in a column of `--numstat`; binary files report `-`, which counts
/// for nothing.
pub open spec fn column_count(columns: Seq<Seq<char>>, at: int) -> nat {
    if at < columns.len() {
        match number_up_to(columns[at], usize::MAX as nat) {
            Some(n) => n,
            None => 0,
        }
    } else {
        0
    }
}

/// What lines of `<added>\t<removed>\t<path>` add up to. Blank lines are not
/// files.
pub open spec fn stat_of(list: Seq<Seq<char>>) -> StatView
    decreases list.len(),
{
    if list.len() == 0 {
        StatView { files: 0, insertions: 0, deletions: 0 }
    } else {
        let before = stat_of(list.drop_last());
        if is_blank(list.last()) {
            before
        } else {
            let columns = pieces(list.last(), '\t');
            StatView {
                files: before.files + 1,
                insertions: before.insertions + column_count(columns, 0),
                deletions: before.deletions + column_count(columns, 1),
            }
        }
    }
}

/// Whether the counts can be held.
pub open spec fn stat_fits(stat: StatView) -> bool {
    stat.files <= usize::MAX && stat.insertions <= usize::MAX && stat.deletions <= usize::MAX
}

impl GitOutputView {
    /// Whether the counts that were asked for, if they came, can be held.
    pub open spec fn is_measurable(self) -> bool {
        self.answer("diff --numstat"@) matches Ok(numstat) ==> stat_fits(stat_of(lines(numstat)))
    }
}

proof fn lemma_stat_only_grows(list: Seq<Seq<char>>, upto: int)
    requires
        0 <= upto <= list.len(),
    ensures
        stat_of(list.take(upto)).files <= stat_of(list).files,
        stat_of(list.take(upto)).insertions <= stat_of(list).insertions,
        stat_of(list.take(upto)).deletions <= stat_of(list).deletions,
    decreases list.len() - upto,
{
    if upto == list.len() {
        assert(list.take(upto) =~= list);
    } else {
        lemma_stat_only_grows(list, upto + 1);
        assert(list.take(upto + 1).drop_last() =~= list.take(upto));
    }
}

fn count_in(columns: &Vec<String>, at: usize) -> (n: usize)
    ensures
        n == column_count(texts(columns@), at as int),
{
    if at < columns.len() {
        assert(texts(columns@)[at as int] == columns@[at as int]@);
        match number_of(columns[at].as_str(), usize::MAX as u64) {
            Some(n) => n as usize,
            None => 0,
        }
    } else {
        0
    }
}

/// What the rows add up to, unless it is more than can be held.
fn add_up(rows: &Vec<String>) -> (totals: Option<DiffStat>)
    ensures
        match totals {
            Some(totals) => totals@ == stat_of(texts(rows@)),
            None => !stat_fits(stat_of(texts(rows@))),
        },
{
    let ghost all = texts(rows@);
    let mut totals = DiffStat { files: 0, insertions: 0, deletions: 0 };
    let mut at: usize = 0;
    while at < rows.len()
        invariant
            at <= rows.len(),
            texts(rows@) == all,
            totals.files <= at,
            totals@ == stat_of(all.take(at as int)),
        decreases rows.len() - at,
    {
        proof {
            assert(all.take(at + 1).drop_last() =~= all.take(at as int));
            assert(all.take(at + 1).last() == rows@[at as int]@);
            lemma_stat_only_grows(all, at + 1);
        }
        if !blank(rows[at].as_str()) {
            let columns = split(rows[at].as_str(), '\t');
            let insertions = totals.insertions.checked_add(count_in(&columns, 0));
            let deletions = totals.deletions.checked_add(count_in(&columns, 1));
            match (insertions, deletions) {
                (Some(insertions), Some(deletions)) => {
                    totals = DiffStat { files: totals.files + 1, insertions, deletions };
                },
                _ => {
                    return None;
                },
            }
        }
        at = at + 1;
    }
    assert(all.take(at as int) =~= all);
    Some(totals)
}

/// Whether the counts that [`diff_stat_against`] printed, if it did, add up to
/// something that can be held.
pub fn can_measure(output: &GitOutput) -> (yes: bool)
    ensures
        yes == output@.is_measurable(),
{
    match output.stdout_or_error("diff --numstat") {
        Ok(numstat) => add_up(&lines_of(numstat.as_str())).is_some(),
        Err(_) => true,
    }
}

/// How much changed, from what [`diff_stat_against`] printed.
pub fn diff_stat(output: &GitOutput) -> (stat: Result<DiffStat, String>)
    requires
        output@.is_measurable(),
    ensures
        match output@.answer("diff --numstat"@) {
            Ok(numstat) => stat matches Ok(stat) && stat@ == stat_of(lines(numstat)),
            Err(e) => stat matches Err(message) && message@ == e,
        },
{
    match output.stdout_or_error("diff --numstat") {
        Ok(numstat) => Ok(add_up(&lines_of(numstat.as_str())).unwrap()),
        Err(e) => Err(e),
    }
}

/// The commands that commit everything in `worktree` except some paths, in
/// order: stage everything, unstage each of those paths, look whether anything
/// is staged, commit, look whether one of those paths is tracked after all, and
/// name the commit.
pub open spec fn commit_calls(
    worktree: Seq<char>,
    message: Seq<char>,
    never_commit: Seq<Seq<char>>,
) -> Seq<GitCallView> {
    seq![git_call(worktree, seq!["add"@, "-A"@], "add -A"@)] + Seq::new(
        never_commit.len(),
        |i: int|
            git_call(worktree, seq!["reset"@, "--quiet"@, "--"@, never_commit[i]], "reset"@),
    ) + seq![
        git_call(worktree, seq!["diff"@, "--cached"@, "--quiet"@], "diff --cached"@),
        git_call(worktree, seq!["commit"@, "--no-verify"@, "-m"@, message], "commit"@),
    ] + (if never_commit.len() > 0 {
        seq![git_call(worktree, seq!["ls-files"@, "--"@] + never_commit, "ls-files"@)]
    } else {
        seq![]
    }) + seq![git_call(worktree, seq!["rev-parse"@, "HEAD"@], "rev-parse HEAD"@)]
}

/// What the outputs of those commands come to, as soon as they come to
/// something: an error, nothing to commit, or the new commit. What unstaging
/// printed does not matter: unstaging a path that was never staged is a no-op.
pub open spec fn commit_outcome(never_commit: Seq<Seq<char>>, done: Seq<GitOutputView>) -> Option<
    Result<Option<Seq<char>>, Seq<char>>,
> {
    let n = never_commit.len() as int;
    let head: int = if n > 0 {
        n + 4
    } else {
        3
    };
    if done.len() > 0 && !done[0].ok() {
        Some(Err(done[0].failure("add -A"@)))
    } else if done.len() > n + 1 && done[n + 1].ok() {
        Some(Ok(None))
    } else if done.len() > n + 2 && !done[n + 2].ok() {
        Some(Err(done[n + 2].failure("commit"@)))
    } else if n > 0 && done.len() > n + 3 && !done[n + 3].ok() {
        Some(Err(done[n + 3].failure("ls-files"@)))
    } else if n > 0 && done.len() > n + 3 && trimmed(done[n + 3].stdout).len() > 0 {
        Some(
            Err(
                "refusing to continue: seeded file(s) were committed by the agent: "@ + joined(
                    lines(trimmed(done[n + 3].stdout)),
                    ", "@,
                ),
            ),
        )
    } else if done.len() > head {
        match done[head].answer("rev-parse HEAD"@) {
            Ok(sha) => Some(Ok(Some(sha))),
            Err(e) => Some(Err(e)),
        }
    } else {
        None
    }
}

/// What is next when a worktree is being committed, or what came of it: `None`
/// when there was nothing to commit, else the new commit.
#[derive(Debug, PartialEq, Eq)]
pub enum CommitStep {
    Run(GitCall),
    Done(Result<Option<String>, String>),
}

/// Whether a committing step says this: an outcome once there is one, else
/// this command.
pub open spec fn step_says(
    step: CommitStep,
    outcome: Option<Result<Option<Seq<char>>, Seq<char>>>,
    next: GitCallView,
) -> bool {
    match (step, outcome) {
        (CommitStep::Done(Ok(found)), Some(Ok(sha))) => opt_view(found) == sha,
        (CommitStep::Done(Err(e)), Some(Err(message))) => e@ == message,
        (CommitStep::Run(call), None) => call@ == next,
        _ => false,
    }
}

/// Stage everything and commit, command by command. `None` means the tree was
/// clean — a normal outcome, since an agent may correctly conclude no change
/// is needed.
pub fn commit_all(worktree: &str, message: &str, done: &Vec<GitOutput>) -> (step: CommitStep)
    ensures
        step_says(
            step,
            commit_outcome(Seq::empty(), views(done@)),
            commit_calls(worktree@, message@, Seq::empty())[done.len() as int],
        ),
{
    let none: Vec<String> = Vec::new();
    assert(texts(none@) =~= Seq::empty());
    commit_all_except(worktree, message, &none, done)
}

/// Commit everything except `never_commit`, which stay on disk for the agent
/// to read but are kept out of history, command by command: `done` holds the
/// outputs of the commands asked for so far.
///
/// Staging is controlled directly rather than through `info/exclude`, because
/// git resolves that file from the repository's *common* directory — writing
/// it would modify the user's repository, and a per-worktree copy is ignored.
///
/// Beyond the usual git failures, the outcome is an error if a `never_commit`
/// path is tracked once the commit is made — meaning the agent committed it
/// itself. Fatal, because a failed job is far better than a leaked credential
/// on a branch bound for a remote.
pub fn commit_all_except(
    worktree: &str,
    message: &str,
    never_commit: &Vec<String>,
    done: &Vec<GitOutput>,
) -> (step: CommitStep)
    ensures
        step_says(
            step,
            commit_outcome(texts(never_commit@), views(done@)),
            commit_calls(worktree@, message@, texts(never_commit@))[done.len() as int],
        ),
{
    let ghost paths = texts(never_commit@);
    let ghost calls = commit_calls(worktree@, message@, paths);
    let ghost outputs = views(done@);
    let n: usize = never_commit.len();
    let count: usize = done.len();
    assert(calls.len() == n + (if n > 0 {
        5int
    } else {
        4int
    }));
    if count == 0 {
        let args = args_of(&["add", "-A"]);
        assert(texts(args@) =~= calls[0].args);
        return CommitStep::Run(GitCall::new(worktree, args, String::from_str("add -A")));
    }
    assert(outputs[0] == done@[0]@);
    if !done[0].succeeded() {
        return CommitStep::Done(none_or_error(&done[0], "add -A"));
    }
    if count <= n {
        let args = args_of(&["reset", "--quiet", "--", never_commit[count - 1].as_str()]);
        assert(texts(args@) =~= calls[count as int].args);
        return CommitStep::Run(GitCall::new(worktree, args, String::from_str("reset")));
    }
    if count - 1 == n {
        let args = args_of(&["diff", "--cached", "--quiet"]);
        assert(texts(args@) =~= calls[count as int].args);
        return CommitStep::Run(GitCall::new(worktree, args, String::from_str("diff --cached")));
    }
    assert(outputs[n + 1] == done@[n + 1]@);
    if done[n + 1].succeeded() {
        return CommitStep::Done(Ok(None));
    }
    if count - 2 == n {
        let args = args_of(&["commit", "--no-verify", "-m", message]);
        assert(texts(args@) =~= calls[count as int].args);
        return CommitStep::Run(GitCall::new(worktree, args, String::from_str("commit")));
    }
    assert(outputs[n + 2] == done@[n + 2]@);
    if !done[n + 2].succeeded() {
        return CommitStep::Done(none_or_error(&done[n + 2], "commit"));
    }
    if n > 0 {
        if count - 3 == n {
            let args = tracked_among(never_commit);
            assert(texts(args@) =~= calls[count as int].args);
            return CommitStep::Run(GitCall::new(worktree, args, String::from_str("ls-files")));
        }
        assert(outputs[n + 3] == done@[n + 3]@);
        match ensure_untracked(&done[n + 3]) {
            Ok(()) => {},
            Err(e) => {
                return CommitStep::Done(Err(e));
            },
        }
    }
    let head: usize = if n > 0 {
        n + 4
    } else {
        3
    };
    if count == head {
        let args = args_of(&["rev-parse", "HEAD"]);
        assert(texts(args@) =~= calls[count as int].args);
        return CommitStep::Run(GitCall::new(worktree, args, String::from_str("rev-parse HEAD")));
    }
    assert(outputs[head as int] == done@[head as int]@);
    match done[head].stdout_or_error("rev-parse HEAD") {
        Ok(sha) => CommitStep::Done(Ok(Some(sha))),
        Err(e) => CommitStep::Done(Err(e)),
    }
}

fn none_or_error(output: &GitOutput, operation: &str) -> (failed: Result<Option<String>, String>)
    ensures
        match failed {
            Ok(found) => output@.ok() && found is None,
            Err(e) => !output@.ok() && e@ == output@.failure(operation@),
        },
{
    match output.stdout_or_error(operation) {
        Ok(_) => Ok(None),
        Err(e) => Err(e),
    }
}

/// Ask which of these paths are tracked.
fn tracked_among(paths: &Vec<String>) -> (args: Vec<String>)
    ensures
        texts(args@) == seq!["ls-files"@, "--"@] + texts(paths@),
{
    let mut args = args_of(&["ls-files", "--"]);
    let mut at: usize = 0;
    assert(texts(args@) =~= seq!["ls-files"@, "--"@] + texts(paths@).take(0));
    while at < paths.len()
        invariant
            at <= paths.len(),
            texts(args@) == seq!["ls-files"@, "--"@] + texts(paths@).take(at as int),
        decreases paths.len() - at,
    {
        let ghost before = args@;
        args.push(paths[at].clone());
        assert(texts(args@) =~= texts(before).push(paths@[at as int]@));
        assert(texts(paths@).take(at + 1) =~= texts(paths@).take(at as int).push(
            paths@[at as int]@,
        ));
        assert(texts(args@) =~= seq!["ls-files"@, "--"@] + texts(paths@).take(at + 1));
        at = at + 1;
    }
    assert(texts(paths@).take(at as int) =~= texts(paths@));
    args
}

/// Unstaging covers the commits assembly-line makes; this catches the agent
/// committing a seeded file itself.
fn ensure_untracked(output: &GitOutput) -> (clean: Result<(), String>)
    ensures
        match clean {
            Ok(()) => output@.ok() && trimmed(output@.stdout).len() == 0,
            Err(e) => if output@.ok() {
                trimmed(output@.stdout).len() > 0 && e@
                    == "refusing to continue: seeded file(s) were committed by the agent: "@
                    + joined(lines(trimmed(output@.stdout)), ", "@)
            } else {
                e@ == output@.failure("ls-files"@)
            },
        },
{
    match output.stdout_or_error("ls-files") {
        Ok(committed) => {
            if committed.as_str().is_empty() {
                Ok(())
            } else {
                let listed = lines_of(committed.as_str());
                Err(
                    both(
                        "refusing to continue: seeded file(s) were committed by the agent: ",
                        join(&listed, ", ").as_str(),
                    ),
                )
            }
        },
        Err(e) => Err(e),
    }
}

/// Seeded files are kept out of history: each is unstaged before the commit
/// command runs, and a commit is reported only once git was asked which of them
/// it tracks and named none.
pub proof fn law_seeded_files_never_reach_a_commit(
    worktree: Seq<char>,
    message: Seq<char>,
    never_commit: Seq<Seq<char>>,
    done: Seq<GitOutputView>,
    seeded: int,
)
    requires
        0 <= seeded < never_commit.len(),
        commit_outcome(never_commit, done) matches Some(Ok(Some(_))),
    ensures
        commit_calls(worktree, message, never_commit)[1 + seeded].args == seq![
            "reset"@,
            "--quiet"@,
            "--"@,
            never_commit[seeded],
        ],
        commit_calls(worktree, message, never_commit)[never_commit.len() as int + 2].args == seq![
            "commit"@,
            "--no-verify"@,
            "-m"@,
            message,
        ],
        commit_calls(worktree, message, never_commit)[never_commit.len() as int + 3].args == seq![
            "ls-files"@,
            "--"@,
        ] + never_commit,
        done.len() > never_commit.len() + 3,
        done[never_commit.len() as int + 3].ok(),
        trimmed(done[never_commit.len() as int + 3].stdout).len() == 0,
{
}

/// Counts add up: those of a listing are those of its parts together, however
/// it is parted.
pub proof fn law_counts_add_up(first: Seq<Seq<char>>, then: Seq<Seq<char>>)
    ensures
        stat_of(first + then).files == stat_of(first).files + stat_of(then).files,
        stat_of(first + then).insertions == stat_of(first).insertions + stat_of(then).insertions,
        stat_of(first + then).deletions == stat_of(first).deletions + stat_of(then).deletions,
    decreases then.len(),
{
    if then.len() == 0 {
        assert(first + then =~= first);
    } else {
        law_counts_add_up(first, then.drop_last());
        assert((first + then).drop_last() =~= first + then.drop_last());
    }
}

/// A file's line counts for one file and for the lines it tells of, added
/// first; where it tells no number, as of a binary file, for no lines. A blank
/// line counts for nothing.
pub proof fn law_a_file_counts_as_it_is_listed(
    added: Seq<char>,
    removed: Seq<char>,
    path: Seq<char>,
    m: nat,
    n: nat,
)
    requires
        !added.contains('\t'),
        !removed.contains('\t'),
        !is_blank(added),
        m <= usize::MAX,
        n <= usize::MAX,
    ensures
        ({
            let counted = stat_of(seq![added + seq!['\t'] + removed + seq!['\t'] + path]);
            &&& counted.files == 1
            &&& added == decimal(m) ==> counted.insertions == m
            &&& removed == decimal(n) ==> counted.deletions == n
            &&& added == seq!['-'] ==> counted.insertions == 0
            &&& removed == seq!['-'] ==> counted.deletions == 0
        }),
        is_blank(path) ==> stat_of(seq![path]) == (StatView {
            files: 0,
            insertions: 0,
            deletions: 0,
        }),
{
    let line = added + seq!['\t'] + removed + seq!['\t'] + path;
    let rest = removed + seq!['\t'] + path;
    lemma_first_piece(added, rest, '\t');
    lemma_first_piece(removed, path, '\t');
    assert(line =~= added + seq!['\t'] + rest);
    let columns = pieces(line, '\t');
    law_pieces_are_the_text_cut(path, '\t');
    assert(columns[0] == added);
    assert(columns[1] == removed);
    if is_blank(line) {
        assert forall|i: int| 0 <= i < added.len() implies is_space(#[trigger] added[i]) by {
            assert(line[i] == added[i]);
        }
    }
    assert(seq![line].drop_last() =~= Seq::empty());
    assert(seq![line].last() == line);
    assert(stat_of(Seq::<Seq<char>>::empty()) == StatView { files: 0, insertions: 0, deletions: 0 });
    law_decimal_reads_back(m);
    law_decimal_reads_back(n);
    lemma_a_dash_is_no_number();
    assert(seq![path].drop_last() =~= Seq::empty());
    assert(seq![path].last() == path);
}

proof fn lemma_a_dash_is_no_number()
    ensures
        number_in(seq!['-']) is None,
{
    let dash = seq!['-'];
    assert(dash[0] == '-');
    assert(!is_digit(dash[0]));
}

proof fn lemma_first_piece(first: Seq<char>, rest: Seq<char>, separator: char)
    requires
        !first.contains(separator),
    ensures
        pieces(first + seq![separator] + rest, separator) == seq![first] + pieces(rest, separator),
{
    let text = first + seq![separator] + rest;
    let at = first.len() as int;
    assert forall|i: int| 0 <= i < at implies #[trigger] text[i] != separator by {
        assert(first.contains(first[i]));
    }
    lemma_first_index_is(text, separator, at);
    assert(text.take(at) =~= first);
    assert(text.skip(at + 1) =~= rest);
}

/// A command that exited 0 is answered by what it printed, and any other by a
/// message that begins with what was asked, names the exit code and ends with
/// what the command complained of; white space around either aside.
pub proof fn law_a_command_is_answered_by_its_exit(output: GitOutputView, operation: Seq<char>)
    ensures
        output.answer(operation) is Ok <==> output.exit_code == 0,
        output.answer(operation) matches Ok(said) ==> said == trimmed(output.stdout),
        output.answer(operation) matches Err(message) ==> operation.is_prefix_of(message)
            && trimmed(output.stderr).is_suffix_of(message) && exists|
            before: Seq<char>,
            after: Seq<char>,
        |
            message == #[trigger] (before + signed_decimal(output.exit_code) + after),
{
    let message = output.failure(operation);
    let before = operation + " failed (exit "@;
    let why = trimmed(output.stderr);
    let after = "): "@ + why;
    assert(message =~= before + signed_decimal(output.exit_code) + after);
    assert(message.take(operation.len() as int) =~= operation);
    assert(message.skip(message.len() - why.len()) =~= why);
}

/// A commit is told of only if everything was staged, something was left to
/// commit, committing succeeded and no path that must stay out is tracked; it
/// is told by the name that git gave it.
pub proof fn law_a_commit_is_one_that_git_made(
    never_commit: Seq<Seq<char>>,
    done: Seq<GitOutputView>,
)
    ensures
        commit_outcome(never_commit, done) matches Some(Ok(Some(sha))) ==> {
            let n = never_commit.len() as int;
            &&& done.len() >= n + 4
            &&& done[0].exit_code == 0
            &&& done[n + 1].exit_code != 0
            &&& done[n + 2].exit_code == 0
            &&& n > 0 ==> done.len() >= n + 5 && done[n + 3].exit_code == 0 && trimmed(
                done[n + 3].stdout,
            ).len() == 0
            &&& sha == trimmed(done[if n > 0 {
                n + 4
            } else {
                3
            }].stdout)
        },
        commit_outcome(never_commit, done) matches Some(Ok(None)) ==> {
            let n = never_commit.len() as int;
            done.len() >= n + 2 && done[0].exit_code == 0 && done[n + 1].exit_code == 0
        },
        commit_outcome(never_commit, done) matches Some(Err(_)) ==> exists|i: int|
            #![trigger done[i]]
            0 <= i < done.len() && (done[i].exit_code != 0 || i == never_commit.len() + 3
                && trimmed(done[i].stdout).len() > 0),
{
    let n = never_commit.len() as int;
    if commit_outcome(never_commit, done) matches Some(Err(_)) {
        if done.len() > 0 && !done[0].ok() {
            assert(done[0].exit_code != 0);
        } else if done.len() > n + 2 && !done[n + 2].ok() {
            assert(done[n + 2].exit_code != 0);
        } else if n > 0 && done.len() > n + 3 && (!done[n + 3].ok() || trimmed(
            done[n + 3].stdout,
        ).len() > 0) {
            assert(done[n + 3].exit_code != 0 || trimmed(done[n + 3].stdout).len() > 0);
        } else {
            let head: int = if n > 0 {
                n + 4
            } else {
                3
            };
            assert(done[head].exit_code != 0);
        }
    }
}

} // verus!
