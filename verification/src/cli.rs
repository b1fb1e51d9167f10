//! What the command line asks for.

use vstd::prelude::*;

verus! {

#[derive(Debug, Clone, PartialEq, Eq)]
pub struct Cli {
    pub command: Command,
}

#[derive(Debug, Clone, PartialEq, Eq)]
pub enum Command {
    /// Start a job: an agent, a prompt, and the ref its branch is cut from.
    Run {
        prompt: Option<String>,
        prompt_file: Option<String>,
        repo: Option<String>,
        base_ref: Option<String>,
        provider: Option<String>,
    },
    /// Run a job again with feedback. A new round, not a resumption: the
    /// agent's prior work arrives as files on disk, and this round appends to
    /// the job's branch.
    Revise { job_id: u64, feedback: String, repo: Option<String> },
    /// Show what became of a job, the most recent unless one is named.
    Status { job_id: Option<u64>, repo: Option<String> },
    /// Print a job's captured output.
    Logs { job_id: u64, follow: bool, repo: Option<String> },
    /// Remove worktrees that jobs left behind.
    Gc { older_than: Option<String>, dry_run: bool },
}

} // verus!
