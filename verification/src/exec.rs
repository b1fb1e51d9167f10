//! Running a command under a deadline: how it stopped, and what that means.

use crate::number::{signed_decimal, signed_decimal_of};
use crate::provider::CommandSpec;
use crate::text::{copy_texts, opt_view, texts};
use crate::time::Span;
use vstd::prelude::*;

verus! {

/// Why a command stopped.
#[derive(Debug, Clone, Copy, PartialEq, Eq, Structural)]
pub enum ShellOutcome {
    Exited(i32),
    TimedOut,
    Cancelled,
}

impl ShellOutcome {
    /// Why the command failed, in a few words; `None` for one that did not.
    pub open spec fn reason(self) -> Option<Seq<char>> {
        match self {
            ShellOutcome::Exited(code) => if code == 0 {
                None
            } else {
                Some("exit "@ + signed_decimal(code as int))
            },
            ShellOutcome::TimedOut => Some("timed out"@),
            ShellOutcome::Cancelled => Some("cancelled"@),
        }
    }

    pub fn succeeded(&self) -> (yes: bool)
        ensures
            yes == (*self == ShellOutcome::Exited(0)),
    {
        match self {
            ShellOutcome::Exited(code) => *code == 0,
            ShellOutcome::TimedOut => false,
            ShellOutcome::Cancelled => false,
        }
    }

    /// Why the command failed, in a few words; `None` for one that did not.
    pub fn failure_reason(&self) -> (reason: Option<String>)
        ensures
            opt_view(reason) == self.reason(),
    {
        match self {
            ShellOutcome::Exited(code) => if *code == 0 {
                None
            } else {
                let mut reason = String::from_str("exit ");
                reason.append(signed_decimal_of(*code).as_str());
                Some(reason)
            },
            ShellOutcome::TimedOut => Some(String::from_str("timed out")),
            ShellOutcome::Cancelled => Some(String::from_str("cancelled")),
        }
    }
}

/// A command succeeded exactly when there is no reason it failed.
pub proof fn law_success_needs_no_reason(outcome: ShellOutcome)
    ensures
        outcome == ShellOutcome::Exited(0) <==> outcome.reason() is None,
{
}

/// A shell line as a command: under `sh -c`, because the user wrote a shell
/// line and expects pipes and redirection to work.
pub fn shell_command(cmd: &str) -> (spec: CommandSpec)
    ensures
        spec.program@ == "sh"@,
        texts(spec.args@) == seq!["-c"@, cmd@],
{
    let mut args: Vec<String> = Vec::new();
    args.push(String::from_str("-c"));
    args.push(String::from_str(cmd));
    assert(texts(args@) =~= seq!["-c"@, cmd@]);
    CommandSpec { program: String::from_str("sh"), args }
}

/// A command to run: where, under what name it is reported, where what it
/// prints goes, and how long it may take.
#[derive(Debug, Clone, PartialEq, Eq)]
pub struct Invocation {
    pub command: CommandSpec,
    pub described_as: String,
    pub dir: String,
    pub log_path: String,
    pub timeout: Option<Span>,
}

pub struct InvocationView {
    pub program: Seq<char>,
    pub args: Seq<Seq<char>>,
    pub described_as: Seq<char>,
    pub dir: Seq<char>,
    pub log_path: Seq<char>,
    /// In nanoseconds.
    pub timeout: Option<nat>,
}

impl View for Invocation {
    type V = InvocationView;

    open spec fn view(&self) -> InvocationView {
        InvocationView {
            program: self.command.program@,
            args: texts(self.command.args@),
            described_as: self.described_as@,
            dir: self.dir@,
            log_path: self.log_path@,
            timeout: opt_view(self.timeout),
        }
    }
}

/// Run a shell line: under `sh -c`, for `verify`.
pub fn run_shell(cmd: &str, dir: &str, log_path: &str, timeout: Option<Span>) -> (run: Invocation)
    ensures
        run@ == (InvocationView {
            program: "sh"@,
            args: seq!["-c"@, cmd@],
            described_as: cmd@,
            dir: dir@,
            log_path: log_path@,
            timeout: opt_view(timeout),
        }),
{
    Invocation {
        command: shell_command(cmd),
        described_as: String::from_str(cmd),
        dir: String::from_str(dir),
        log_path: String::from_str(log_path),
        timeout,
    }
}

/// Run a program, bypassing the shell, for agents.
pub fn run_command(
    spec: &CommandSpec,
    dir: &str,
    log_path: &str,
    timeout: Option<Span>,
) -> (run: Invocation)
    ensures
        run@ == (InvocationView {
            program: spec.program@,
            args: texts(spec.args@),
            described_as: spec.program@,
            dir: dir@,
            log_path: log_path@,
            timeout: opt_view(timeout),
        }),
{
    Invocation {
        command: CommandSpec { program: spec.program.clone(), args: copy_texts(&spec.args) },
        described_as: spec.program.clone(),
        dir: String::from_str(dir),
        log_path: String::from_str(log_path),
        timeout,
    }
}

/// What came first while a command was running.
#[derive(Debug, Clone, PartialEq, Eq)]
pub enum Interruption {
    /// It ended, with this exit code unless a signal ended it.
    Ended(Option<i32>),
    /// Waiting for it failed.
    WaitFailed(String),
    /// Its deadline passed.
    Deadline,
    /// The user asked for it to stop.
    Cancel,
}

/// What to do about a command that has been interrupted, and how it is
/// recorded.
#[derive(Debug, PartialEq, Eq)]
pub struct Supervised {
    /// Whether the command is still running and has to be killed.
    pub kill: bool,
    pub outcome: Result<ShellOutcome, String>,
}

/// Settle a command by whichever came first: exit, deadline, or cancellation.
/// Shared so the timeout and kill semantics cannot drift between the shell and
/// the agent.
///
/// A command that runs and fails is not an error — that is a
/// [`ShellOutcome`], because a failing job is a normal part of using this.
pub fn supervise(first: Interruption) -> (settled: Supervised)
    ensures
        settled.kill <==> first is Deadline || first is Cancel,
        match first {
            Interruption::Ended(code) => settled.outcome == Ok::<ShellOutcome, String>(
                ShellOutcome::Exited(
                    match code {
                        Some(code) => code,
                        None => (-1int) as i32,
                    },
                ),
            ),
            Interruption::WaitFailed(e) => settled.outcome == Err::<ShellOutcome, String>(e),
            Interruption::Deadline => settled.outcome == Ok::<ShellOutcome, String>(
                ShellOutcome::TimedOut,
            ),
            Interruption::Cancel => settled.outcome == Ok::<ShellOutcome, String>(
                ShellOutcome::Cancelled,
            ),
        },
{
    match first {
        Interruption::Ended(code) => Supervised {
            kill: false,
            outcome: Ok(
                ShellOutcome::Exited(
                    match code {
                        Some(code) => code,
                        None => -1,
                    },
                ),
            ),
        },
        Interruption::WaitFailed(e) => Supervised { kill: false, outcome: Err(e) },
        Interruption::Deadline => Supervised { kill: true, outcome: Ok(ShellOutcome::TimedOut) },
        Interruption::Cancel => Supervised { kill: true, outcome: Ok(ShellOutcome::Cancelled) },
    }
}

/// How a command that could not be started is reported. A missing binary
/// means the provider config is wrong, which is worth distinguishing from an
/// agent that ran and failed.
pub fn spawn_failure(described_as: &str, error: &str) -> (message: String)
    ensures
        message@ == "spawning `"@ + described_as@ + "`: "@ + error@,
{
    let mut message = String::from_str("spawning `");
    message.append(described_as);
    message.append("`: ");
    message.append(error);
    message
}

/// A command that exited with a code is told of by that code, and commands that
/// stopped differently are told of differently.
pub proof fn law_the_reason_tells_how_it_stopped(code: i32)
    ensures
        code != 0 ==> (ShellOutcome::Exited(code).reason() matches Some(why) && signed_decimal(
            code as int,
        ).is_suffix_of(why)),
        ShellOutcome::TimedOut.reason() != ShellOutcome::Cancelled.reason(),
        ShellOutcome::TimedOut.reason() != ShellOutcome::Exited(code).reason(),
        ShellOutcome::Cancelled.reason() != ShellOutcome::Exited(code).reason(),
{
    reveal_strlit("exit ");
    reveal_strlit("timed out");
    reveal_strlit("cancelled");
    let told = signed_decimal(code as int);
    let why = "exit "@ + told;
    assert(why.skip(why.len() - told.len()) =~= told);
    assert(why[0] == 'e');
    assert("timed out"@[0] == 't');
    assert("cancelled"@[0] == 'c');
}

} // verus!
