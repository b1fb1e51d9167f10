use assembly_line::config::{ConfigError, DeclaredProvider, Provider, RepoConfig};
use assembly_line::event::{Event, EventKind};
use assembly_line::exec::{run_command, run_shell, ShellOutcome};
use assembly_line::git::{DiffStat, GitCall, GitOutput, WorktreeStart};
use assembly_line::job::{
    agent_work_on_branch, check_out, commit_message, ensure_commits, events_for_completion,
    job_plan, remote_the_branch_reached, revise_job, revised_prompt, round_result, run_job,
    seeds_found, settled_round, start_commit_for_round, verify_verdict, wall_clock_limit,
    AgentWork, JobOutcome, JobPlan, JobSpec, PlanError, PreserveCall, PreserveStep, Preserved,
    Preserving, Reached, Revision, Round, RoundResult, RoundSettlement, RoundStep, RunOpts,
    RunStep, VerifyVerdict,
};
use assembly_line::paths::{record_repository_for_worktrees, repo_slug, JobMeta, JobPaths};
use assembly_line::report::{DiffSummary, JobReport};
use assembly_line::state::JobState;
use assembly_line::time::{Span, Timestamp};
use assembly_line::workspace::{seed_files, Checkout, CheckoutStep};

fn work() -> AgentWork {
    AgentWork {
        branch: "al/job-1".into(),
        sha: "abc".into(),
        stat: DiffStat {
            files: 2,
            insertions: 10,
            deletions: 1,
        },
        pushed_to: Some("origin".into()),
    }
}

fn config() -> RepoConfig {
    RepoConfig {
        verify: Some("cargo test".into()),
        copy: vec![".env".into()],
        providers: vec![DeclaredProvider {
            name: "p".into(),
            provider: Provider {
                cmd: "agent".into(),
                args: vec!["-p".into(), "{prompt}".into()],
                adapter: None,
            },
        }],
        ..RepoConfig::default()
    }
}

fn opts(worktrees_root: Option<&str>) -> RunOpts {
    RunOpts {
        repo: "/work/acme".into(),
        seed_from: "/work/seeds".into(),
        remote: "origin".into(),
        worktrees_root: worktrees_root.map(|r| r.to_string()),
    }
}

fn paths() -> JobPaths {
    JobPaths {
        id: 7,
        dir: "/work/acme/.assembly/jobs/7".into(),
    }
}

fn spec(round: u32) -> JobSpec<'static> {
    JobSpec {
        prompt: "\n  fix it \nplease",
        provider: "p",
        base_ref: "main",
        round,
    }
}

/// The plan of a round, in a repository that does or does not declare a
/// `verify`.
fn plan(has_verify: bool) -> JobPlan {
    let declared = RepoConfig {
        verify: has_verify.then_some("cargo test".to_string()),
        ..config()
    };
    let cap = Some(Span::from_secs(1200));
    job_plan(&declared, &spec(1), &paths(), &opts(Some("/wt")), "abc", cap).unwrap()
}

/// What kind of step it is.
fn name(step: &RoundStep) -> &'static str {
    match step {
        RoundStep::LookForSeeds(_) => "look for seeds",
        RoundStep::CheckOut => "check out",
        RoundStep::Seed(_) => "seed",
        RoundStep::RunAgent(_) => "run agent",
        RoundStep::Preserve => "preserve",
        RoundStep::Verify(_) => "verify",
        RoundStep::Discard(_) => "discard",
        RoundStep::Settle => "settle",
    }
}

/// Run a round to its end with the steps' results given, keeping the order in
/// which the steps were taken.
fn run_round(
    has_verify: bool,
    checked_out: Result<(), String>,
    ran: Result<ShellOutcome, String>,
    preserved: Result<Option<AgentWork>, String>,
    judged: Result<ShellOutcome, String>,
    discarded: Result<(), String>,
) -> (Vec<&'static str>, Result<RoundResult, String>) {
    let plan = plan(has_verify);
    let mut round = Round::new();
    let mut steps = vec![];
    let (mut preserved, mut judged) = (Some(preserved), Some(judged));
    loop {
        let step = round.next(&plan);
        steps.push(name(&step));
        match step {
            RoundStep::LookForSeeds(_) => round.seeds_found = Some(Ok(())),
            RoundStep::CheckOut => round.checked_out = Some(checked_out.clone()),
            RoundStep::Seed(_) => round.seeded = Some(Ok(())),
            RoundStep::RunAgent(_) => round.ran = Some(ran.clone()),
            RoundStep::Preserve => round.preserved = preserved.take(),
            RoundStep::Verify(_) => round.judged = judged.take(),
            RoundStep::Discard(_) => round.discarded = Some(discarded.clone()),
            RoundStep::Settle => return (steps, round_result(round, &plan)),
        }
    }
}

/// Everything a round does it does in its own checkout, but for what deals with
/// the checkout itself.
#[test]
fn a_round_works_in_its_own_checkout() {
    let plan = plan(true);
    let checkout = format!("/wt/{}/7/checkout", repo_slug("/work/acme"));
    let cap = Some(Span::from_secs(1200));
    let log = "/work/acme/.assembly/jobs/7/job.log";
    let mut round = Round::new();
    assert_eq!(
        round.next(&plan),
        RoundStep::LookForSeeds(vec!["/work/seeds/.env".into()])
    );
    assert_eq!(seeds_found(&plan, &vec![true]), Ok(()));
    assert_eq!(
        seeds_found(&plan, &vec![false]),
        Err("copy path '.env' does not exist under /work/seeds".to_string())
    );
    round.seeds_found = Some(Ok(()));

    assert_eq!(round.next(&plan), RoundStep::CheckOut);
    match check_out(&plan, &Checkout::new()) {
        CheckoutStep::Run(_, call) => {
            assert_eq!(call.dir, "/work/acme");
            assert_eq!(call.args, vec!["worktree", "prune"]);
        }
        other => panic!("{other:?}"),
    }
    round.checked_out = Some(Ok(()));

    assert_eq!(
        round.next(&plan),
        RoundStep::Seed(seed_files(&checkout, "/work/seeds", &vec![".env".into()]))
    );
    round.seeded = Some(Ok(()));
    assert_eq!(
        round.next(&plan),
        RoundStep::RunAgent(run_command(&plan.command, &checkout, log, cap))
    );
    round.ran = Some(Ok(ShellOutcome::Exited(0)));
    assert_eq!(round.next(&plan), RoundStep::Preserve);
    round.preserved = Some(Ok(None));
    assert_eq!(
        round.next(&plan),
        RoundStep::Verify(run_shell("cargo test", &checkout, log, cap))
    );
    round.judged = Some(Ok(ShellOutcome::Exited(0)));
    assert_eq!(
        round.next(&plan),
        RoundStep::Discard(GitCall {
            dir: "/work/acme".into(),
            args: ["worktree", "remove", "--force", &checkout]
                .iter()
                .map(|arg| arg.to_string())
                .collect(),
            operation: "worktree remove".into(),
        })
    );
}

#[test]
fn a_plan_holds_everything_a_round_needs() {
    let plan = job_plan(&config(), &spec(1), &paths(), &opts(Some("/wt")), "abc", None).unwrap();
    assert_eq!(plan.repo, "/work/acme");
    assert_eq!(
        plan.start,
        WorktreeStart::CreatingBranch { at: "abc".into() }
    );
    assert_eq!(
        plan.workspace_path,
        format!("/wt/{}/7/checkout", repo_slug("/work/acme"))
    );
    assert_eq!(plan.branch, "al/job-7");
    assert_eq!(plan.seed_from, "/work/seeds");
    assert_eq!(plan.copy_paths, vec![".env"]);
    assert_eq!(plan.command.program, "agent");
    assert_eq!(plan.command.args, vec!["-p", "\n  fix it \nplease"]);
    assert_eq!(plan.commit_message, "job 7: fix it");
    assert_eq!(plan.remote, "origin");
    assert_eq!(plan.verify.as_deref(), Some("cargo test"));
    assert_eq!(plan.log_path, "/work/acme/.assembly/jobs/7/job.log");
    assert_eq!(plan.timeout, None);

    let again = job_plan(&config(), &spec(2), &paths(), &opts(Some("/wt")), "abc", None).unwrap();
    assert_eq!(
        again.start,
        WorktreeStart::OnExistingBranch { tip: "abc".into() }
    );
}

#[test]
fn a_plan_needs_its_provider_and_somewhere_to_work() {
    let unknown = JobSpec {
        provider: "ghost",
        ..spec(1)
    };
    let e = job_plan(&config(), &unknown, &paths(), &opts(None), "abc", None).unwrap_err();
    assert_eq!(
        e,
        PlanError::Config(ConfigError::UnknownProvider("ghost".into()))
    );
    assert_eq!(
        e.message(),
        "provider 'ghost' is not declared in [providers] \u{2014} add a block for it"
    );
    let e = job_plan(&config(), &spec(1), &paths(), &opts(None), "abc", None).unwrap_err();
    assert_eq!(e, PlanError::NowhereForWorktrees);
    assert_eq!(
        e.message(),
        "HOME is unset, so assembly-line has nowhere to put worktrees"
    );
}

#[test]
fn a_commit_subject_is_the_first_line_that_says_something() {
    assert_eq!(commit_message(3, "fix it\nnow"), "job 3: fix it");
    assert_eq!(commit_message(3, " \n\t\n  later \n"), "job 3: later");
    assert_eq!(commit_message(3, " \n\u{3000}\n"), "job 3: agent work");
    assert_eq!(commit_message(3, ""), "job 3: agent work");
}

#[test]
fn a_revise_round_folds_the_feedback_into_the_prompt() {
    let meta = JobMeta {
        repo: "/work/acme".into(),
        base_ref: "main".into(),
        prompt: "do it".into(),
        provider: "p".into(),
    };
    let prompt = revised_prompt(&meta.prompt, "shorter");
    assert_eq!(
        prompt,
        "do it\n\n---\n\nYour previous attempt is already committed in this working tree. \
         Revise it based on this feedback:\n\nshorter\n"
    );
    let revision = Revision {
        feedback: "shorter",
        round: 2,
    };
    let job = revise_job(&meta, &revision);
    let spec = job.spec();
    assert_eq!(
        (spec.prompt, spec.provider, spec.base_ref, spec.round),
        (prompt.as_str(), "p", "main", 2)
    );
}

#[test]
fn a_round_starts_where_its_branch_or_its_base_is() {
    assert_eq!(
        start_commit_for_round("/r", "al/job-7", &spec(1)).args,
        vec!["rev-parse", "main^{commit}"]
    );
    assert_eq!(
        start_commit_for_round("/r", "al/job-7", &spec(2)).args,
        vec!["rev-parse", "refs/heads/al/job-7"]
    );
    assert_eq!(start_commit_for_round("/r", "al/job-7", &spec(2)).dir, "/r");
    let looked = |code: i32| GitOutput {
        exit_code: code,
        stdout: String::new(),
        stderr: String::new(),
    };
    assert_eq!(ensure_commits(&looked(0)), Ok(()));
    assert_eq!(
        ensure_commits(&looked(128)),
        Err("the repository has no commits, so a job has nothing to branch from".to_string())
    );
}

#[test]
fn the_wall_clock_cap_is_read_from_the_config() {
    assert_eq!(wall_clock_limit(&config()), Ok(None));
    let capped = |text: &str| RepoConfig {
        max_duration: Some(text.into()),
        ..config()
    };
    assert_eq!(
        wall_clock_limit(&capped("20m")),
        Ok(Some(Span::from_secs(1200)))
    );
    assert_eq!(
        wall_clock_limit(&capped("soon")),
        Err("invalid duration \"soon\": expected number at 0".to_string())
    );
}

#[test]
fn only_a_verify_that_ran_to_completion_rejects() {
    assert_eq!(
        verify_verdict(&ShellOutcome::Exited(0)),
        VerifyVerdict::NoObjection
    );
    assert_eq!(
        verify_verdict(&ShellOutcome::Exited(2)),
        VerifyVerdict::Rejected {
            reason: "exit 2".into()
        }
    );
    assert_eq!(
        verify_verdict(&ShellOutcome::TimedOut),
        VerifyVerdict::Interrupted {
            reason: "verify timed out".into()
        }
    );
    assert_eq!(
        verify_verdict(&ShellOutcome::Cancelled),
        VerifyVerdict::Interrupted {
            reason: "verify cancelled".into()
        }
    );
}

#[test]
fn a_round_preserves_then_judges_then_discards() {
    let (steps, result) = run_round(
        true,
        Ok(()),
        Ok(ShellOutcome::Exited(0)),
        Ok(Some(work())),
        Ok(ShellOutcome::Exited(0)),
        Ok(()),
    );
    assert_eq!(
        steps,
        vec![
            "look for seeds",
            "check out",
            "seed",
            "run agent",
            "preserve",
            "verify",
            "discard",
            "settle",
        ]
    );
    assert_eq!(result, Ok(RoundResult::Committed { work: work() }));
}

#[test]
fn a_round_without_verify_is_accepted_on_the_agents_exit() {
    let (steps, result) = run_round(
        false,
        Ok(()),
        Ok(ShellOutcome::Exited(0)),
        Ok(None),
        Ok(ShellOutcome::Exited(1)),
        Ok(()),
    );
    assert!(!steps.contains(&"verify"));
    assert_eq!(result, Ok(RoundResult::Succeeded));
}

#[test]
fn verify_is_never_asked_about_a_failed_agent() {
    for (ran, reason) in [
        (Ok(ShellOutcome::Exited(3)), "exit 3"),
        (Ok(ShellOutcome::TimedOut), "timed out"),
        (Err("spawning `x`: gone".to_string()), "spawning `x`: gone"),
    ] {
        let (steps, result) = run_round(
            true,
            Ok(()),
            ran,
            Ok(Some(work())),
            Ok(ShellOutcome::Exited(0)),
            Ok(()),
        );
        assert!(!steps.contains(&"verify"));
        assert!(steps.contains(&"discard"));
        assert_eq!(
            result,
            Ok(RoundResult::Failed {
                reason: reason.into(),
                work: Some(work())
            })
        );
    }
}

#[test]
fn a_rejection_keeps_the_work() {
    let judged = |outcome: ShellOutcome| {
        run_round(
            true,
            Ok(()),
            Ok(ShellOutcome::Exited(0)),
            Ok(Some(work())),
            Ok(outcome),
            Ok(()),
        )
        .1
    };
    assert_eq!(
        judged(ShellOutcome::Exited(1)),
        Ok(RoundResult::VerifyRejected {
            reason: "exit 1".into(),
            work: Some(work())
        })
    );
    assert_eq!(
        judged(ShellOutcome::Cancelled),
        Ok(RoundResult::Failed {
            reason: "verify cancelled".into(),
            work: Some(work())
        })
    );
}

#[test]
fn a_round_that_never_got_a_sandbox_ends_there() {
    let (steps, result) = run_round(
        true,
        Err("git refused".into()),
        Ok(ShellOutcome::Exited(0)),
        Ok(None),
        Ok(ShellOutcome::Exited(0)),
        Ok(()),
    );
    assert_eq!(
        steps,
        vec!["look for seeds", "check out", "settle"]
    );
    assert_eq!(result, Err("git refused".to_string()));
}

/// A checkout that git refuses is a job that could not be administered, not
/// one that failed.
#[test]
fn a_refused_checkout_refuses_the_job() {
    let round = Round {
        seeds_found: Some(Ok(())),
        checked_out: Some(Err("worktree add al/job-1 failed (exit 128): no".into())),
        ..Round::new()
    };
    let settled = settled_round(round, &plan(true));
    assert_eq!(
        settled,
        Err("worktree add al/job-1 failed (exit 128): no".to_string())
    );

    let mut done: Vec<Result<(), String>> = (0..6).map(|_| Ok(())).collect();
    let (spec, paths, opts) = (spec(1), paths(), opts(Some("/wt")));
    assert_eq!(run_job(&spec, &paths, &opts, &done), RunStep::RunRound);
    done.push(settled.map(|_| ()));
    assert_eq!(
        run_job(&spec, &paths, &opts, &done),
        RunStep::Refuse("worktree add al/job-1 failed (exit 128): no".into())
    );
}

#[test]
fn a_missing_copy_path_fails_the_round_before_anything_is_made() {
    let mut round = Round::new();
    assert_eq!(name(&round.next(&plan(true))), "look for seeds");
    round.seeds_found = Some(Err("copy path '.env' does not exist under /r".into()));
    assert_eq!(round.next(&plan(true)), RoundStep::Settle);
    assert_eq!(
        settled_round(round, &plan(true)),
        Ok(RoundResult::Failed {
            reason: "copy path '.env' does not exist under /r".into(),
            work: None
        })
    );
}

#[test]
fn a_checkout_that_cannot_be_seeded_is_discarded() {
    let mut round = Round {
        seeds_found: Some(Ok(())),
        checked_out: Some(Ok(())),
        ..Round::new()
    };
    assert_eq!(name(&round.next(&plan(false))), "seed");
    round.seeded = Some(Err("copying '.env' into the workspace: denied".into()));
    assert_eq!(name(&round.next(&plan(false))), "discard");
    round.discarded = Some(Ok(()));
    assert_eq!(round.next(&plan(false)), RoundStep::Settle);
    assert_eq!(
        settled_round(round, &plan(false)),
        Ok(RoundResult::Failed {
            reason: "copying '.env' into the workspace: denied".into(),
            work: None
        })
    );
}

/// A round that was not seen through once it had a checkout is one that
/// failed, and names no work.
#[test]
fn a_round_not_seen_through_failed() {
    let round = Round {
        seeds_found: Some(Ok(())),
        checked_out: Some(Ok(())),
        seeded: Some(Ok(())),
        ran: Some(Ok(ShellOutcome::Exited(0))),
        preserved: Some(Err("commit failed".into())),
        judged: None,
        discarded: Some(Ok(())),
    };
    assert_eq!(
        settled_round(round, &plan(false)),
        Ok(RoundResult::Failed {
            reason: "commit failed".into(),
            work: None
        })
    );
}

#[test]
fn the_checkout_goes_whatever_went_wrong_before() {
    let (steps, result) = run_round(
        true,
        Ok(()),
        Ok(ShellOutcome::Exited(0)),
        Err("commit failed".into()),
        Err("no sh".into()),
        Err("worktree remove failed".into()),
    );
    assert!(steps.contains(&"discard"));
    assert_eq!(result, Err("commit failed".to_string()));

    let settle = |preserved: Result<Option<AgentWork>, String>,
                  verdict: Result<VerifyVerdict, String>,
                  discarded: Result<(), String>| {
        RoundSettlement {
            preserved,
            verdict,
            discarded,
        }
        .work_and_verdict()
    };
    assert_eq!(
        settle(Ok(None), Err("v".into()), Err("d".into())),
        Err("v".to_string())
    );
    assert_eq!(
        settle(Ok(None), Ok(VerifyVerdict::NoObjection), Err("d".into())),
        Err("d".to_string())
    );
    assert_eq!(
        settle(Ok(None), Ok(VerifyVerdict::NoObjection), Ok(())),
        Ok((None, VerifyVerdict::NoObjection))
    );
}

#[test]
fn a_command_that_could_not_be_run_failed_the_round() {
    assert_eq!(
        RoundResult::from_command(&Ok(ShellOutcome::Exited(0))),
        RoundResult::Succeeded
    );
    let unspawnable = RoundResult::from_command(&Err("no such program".into()));
    assert_eq!(
        unspawnable.failure_reason().as_deref(),
        Some("no such program")
    );
    let rejected = RoundResult::VerifyRejected {
        reason: "exit 1".into(),
        work: None,
    };
    assert_eq!(rejected.failure_reason(), None);
    assert_eq!(RoundResult::Committed { work: work() }.failure_reason(), None);
}

fn printed(code: i32, stdout: &str) -> Result<GitOutput, String> {
    Ok(GitOutput {
        exit_code: code,
        stdout: stdout.into(),
        stderr: "no".into(),
    })
}

/// Keep an agent's work with git answering as given, in turn: the commands that
/// were run, each with whether it was run in the checkout, and what came of it.
fn preserve(
    replies: Vec<Result<GitOutput, String>>,
) -> (Vec<(PreserveCall, bool, String)>, Preserved) {
    let plan = plan(false);
    let mut so_far = Preserving::new();
    let mut ran = vec![];
    let mut replies = replies.into_iter();
    loop {
        match agent_work_on_branch(&plan, &so_far) {
            PreserveStep::Run(which, call) => {
                let inside = call.dir == plan.workspace_path;
                assert!(inside || call.dir == plan.repo);
                ran.push((which, inside, call.args.join(" ")));
                so_far = so_far.after(which, replies.next().unwrap());
            }
            PreserveStep::Done(kept) => return (ran, kept),
        }
    }
}

/// Everything up to the commit: staging, unstaging the seed, looking, committing,
/// looking for the seed again, and naming the commit.
fn up_to_the_commit() -> Vec<Result<GitOutput, String>> {
    vec![
        printed(0, ""),
        printed(0, ""),
        printed(1, ""),
        printed(0, ""),
        printed(0, ""),
        printed(0, "def\n"),
    ]
}

#[test]
fn work_is_committed_then_measured_then_published() {
    let mut replies = up_to_the_commit();
    replies.extend([
        printed(0, "10\t1\ta\n"),
        printed(0, "origin\n"),
        printed(0, ""),
    ]);
    let (ran, kept) = preserve(replies);
    let seen: Vec<(PreserveCall, bool, &str)> =
        ran.iter().map(|(w, i, args)| (*w, *i, args.as_str())).collect();
    assert_eq!(
        seen,
        vec![
            (PreserveCall::Commit, true, "add -A"),
            (PreserveCall::Commit, true, "reset --quiet -- .env"),
            (PreserveCall::Commit, true, "diff --cached --quiet"),
            (PreserveCall::Commit, true, "commit --no-verify -m job 7: fix it"),
            (PreserveCall::Commit, true, "ls-files -- .env"),
            (PreserveCall::Commit, true, "rev-parse HEAD"),
            (PreserveCall::Measure, true, "diff --numstat abc..HEAD"),
            (PreserveCall::Publish, false, "remote"),
            (PreserveCall::Publish, false, "push origin al/job-7"),
        ]
    );
    assert_eq!(kept.warning, None);
    assert_eq!(
        kept.left,
        Ok(Some(AgentWork {
            branch: "al/job-7".into(),
            sha: "def".into(),
            stat: DiffStat {
                files: 1,
                insertions: 10,
                deletions: 1
            },
            pushed_to: Some("origin".into()),
        }))
    );
}

#[test]
fn an_agent_that_changed_nothing_left_nothing() {
    let (ran, kept) = preserve(vec![printed(0, ""), printed(0, ""), printed(0, "")]);
    assert_eq!(ran.len(), 3);
    assert_eq!(kept.left, Ok(None));
}

#[test]
fn work_that_cannot_be_committed_or_measured_is_an_error() {
    let left = |replies: Vec<Result<GitOutput, String>>| preserve(replies).1.left;
    assert_eq!(
        left(vec![printed(1, "")]),
        Err("add -A failed (exit 1): no".to_string())
    );
    assert_eq!(left(vec![Err("no git".into())]), Err("no git".to_string()));
    let mut unmeasured = up_to_the_commit();
    unmeasured.push(printed(2, ""));
    assert_eq!(
        left(unmeasured),
        Err("diff --numstat failed (exit 2): no".to_string())
    );
    let mut unrun = up_to_the_commit();
    unrun.push(Err("no git".into()));
    assert_eq!(left(unrun), Err("no git".to_string()));
}

#[test]
fn work_that_stays_local_is_not_lost() {
    let stuck = |last: Vec<Result<GitOutput, String>>| {
        let mut replies = up_to_the_commit();
        replies.push(printed(0, "1\t0\ta\n"));
        replies.extend(last);
        let kept = preserve(replies).1;
        let work = kept.left.unwrap().unwrap();
        assert_eq!((work.sha.as_str(), work.pushed_to), ("def", None));
        kept.warning
    };
    assert_eq!(stuck(vec![printed(0, "upstream")]), None);
    assert_eq!(
        stuck(vec![printed(0, "origin"), printed(1, "")]).as_deref(),
        Some(
            "'al/job-7' branch stays local: publishing to 'origin' failed: \
             push origin al/job-7 failed (exit 1): no"
        )
    );
    assert_eq!(
        stuck(vec![Err("no git".into())]).as_deref(),
        Some("'al/job-7' branch stays local: publishing to 'origin' failed: no git")
    );
}

#[test]
fn a_refused_push_is_only_worth_a_warning() {
    assert_eq!(
        remote_the_branch_reached("b", "origin", Ok(Some("origin".into()))),
        Reached {
            remote: Some("origin".into()),
            warning: None
        }
    );
    assert_eq!(
        remote_the_branch_reached("b", "origin", Err("denied".into())),
        Reached {
            remote: None,
            warning: Some(
                "'b' branch stays local: publishing to 'origin' failed: denied".into()
            )
        }
    );
}

fn committed() -> Vec<EventKind> {
    vec![
        EventKind::JobCommitted {
            sha: "abc".into(),
            files: 2,
            insertions: 10,
            deletions: 1,
        },
        EventKind::JobBranchPublished {
            branch: "al/job-1".into(),
            pushed_to: Some("origin".into()),
        },
    ]
}

#[test]
fn work_is_recorded_before_the_verdict() {
    let finished = EventKind::JobFinished { exit_code: 0 };
    assert_eq!(
        events_for_completion(RoundResult::Succeeded),
        (vec![finished.clone()], JobOutcome::Passed)
    );
    let mut events = committed();
    events.push(finished);
    assert_eq!(
        events_for_completion(RoundResult::Committed { work: work() }),
        (events, JobOutcome::Passed)
    );
    let mut events = committed();
    events.push(EventKind::JobVerifyFailed {
        reason: "exit 1".into(),
    });
    events.push(EventKind::JobFailed {
        reason: "verify rejected the work: exit 1".into(),
    });
    assert_eq!(
        events_for_completion(RoundResult::VerifyRejected {
            reason: "exit 1".into(),
            work: Some(work())
        }),
        (events, JobOutcome::Failed)
    );
    assert_eq!(
        events_for_completion(RoundResult::Failed {
            reason: "timed out".into(),
            work: None
        }),
        (
            vec![EventKind::JobFailed {
                reason: "timed out".into()
            }],
            JobOutcome::Failed
        )
    );
}

#[test]
fn a_finished_round_replays_to_its_outcome() {
    let results = vec![
        RoundResult::Succeeded,
        RoundResult::Committed { work: work() },
        RoundResult::VerifyRejected {
            reason: "exit 1".into(),
            work: Some(work()),
        },
        RoundResult::Failed {
            reason: "cancelled".into(),
            work: Some(work()),
        },
    ];
    for result in results {
        let (kinds, outcome) = events_for_completion(result);
        let log: Vec<Event> = kinds
            .into_iter()
            .map(|kind| Event {
                at: Timestamp::new(0, 0).unwrap(),
                kind,
            })
            .collect();
        assert_eq!(
            JobState::replay(&log) == JobState::Succeeded,
            outcome.passed()
        );
        assert_ne!(JobState::replay(&log), JobState::Running);
    }
}

#[test]
fn a_job_is_resolved_before_it_is_announced_and_announced_before_it_runs() {
    let git = |args: &[&str], operation: &str| GitCall {
        dir: "/work/acme".into(),
        args: args.iter().map(|arg| arg.to_string()).collect(),
        operation: operation.into(),
    };
    let order = [
        RunStep::ReadLimit,
        RunStep::LookForCommits(git(
            &["rev-parse", "--verify", "HEAD"],
            "rev-parse --verify HEAD",
        )),
        RunStep::RecordRepository(
            record_repository_for_worktrees(Some("/wt"), "/work/acme").unwrap(),
        ),
        RunStep::FindStart(git(
            &["rev-parse", "refs/heads/al/job-7"],
            "rev-parse al/job-7",
        )),
        RunStep::Plan,
        RunStep::Announce(EventKind::JobStarted { round: 3 }),
        RunStep::RunRound,
        RunStep::Record,
        RunStep::Done,
    ];
    let (third, paths, somewhere) = (spec(3), paths(), opts(Some("/wt")));
    let mut done = vec![];
    for step in order {
        assert_eq!(run_job(&third, &paths, &somewhere, &done), step);
        done.push(Ok(()));
    }
    assert_eq!(
        run_job(
            &third,
            &paths,
            &somewhere,
            &vec![Ok(()), Err("no commits".into()), Err("later".into())]
        ),
        RunStep::Refuse("no commits".into())
    );
    assert_eq!(
        run_job(&third, &paths, &opts(None), &vec![Ok(()), Ok(())]),
        RunStep::Refuse("HOME is unset, so worktrees have nowhere to live".into())
    );
}

#[test]
fn the_log_of_a_round_reports_it() {
    let (kinds, _) = events_for_completion(RoundResult::VerifyRejected {
        reason: "exit 1".into(),
        work: Some(work()),
    });
    let log: Vec<Event> = [EventKind::JobStarted { round: 1 }]
        .into_iter()
        .chain(kinds)
        .map(|kind| Event {
            at: Timestamp::new(0, 0).unwrap(),
            kind,
        })
        .collect();
    let report = JobReport::from_events(1, &log);
    assert_eq!(report.state, JobState::Failed);
    assert_eq!(
        report.detail.as_deref(),
        Some("verify rejected the work: exit 1")
    );
    assert_eq!(report.branch.as_deref(), Some("al/job-1"));
    assert_eq!(
        report.diff,
        Some(DiffSummary {
            files: 2,
            insertions: 10,
            deletions: 1
        })
    );
}

#[test]
fn a_round_passes_on_its_merits() {
    let outcomes = [
        ShellOutcome::Exited(0),
        ShellOutcome::Exited(1),
        ShellOutcome::TimedOut,
        ShellOutcome::Cancelled,
    ];
    for has_verify in [true, false] {
        for ran in outcomes {
            for judged in outcomes {
                let (_, result) =
                    run_round(has_verify, Ok(()), Ok(ran), Ok(None), Ok(judged), Ok(()));
                let (_, outcome) = events_for_completion(result.unwrap());
                assert_eq!(
                    outcome.passed(),
                    ran.succeeded() && (!has_verify || judged.succeeded())
                );
            }
        }
    }
}
