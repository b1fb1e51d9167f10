use assembly_line::cli::{Cli, Command};
use assembly_line::commands::{
    base_ref_named_or_checked_out, code_of_course, default_base_ref, deliver_if_verified,
    delivery_failure, exit_code_for, keep_for, locate_job, machine_opts, meta_failure,
    prepare_given, prepare_job, prepare_revision, print_job_log, prompt_text, removed_lines,
    remove_stale_worktrees, repository_named_or_enclosing, revising_line, revision_given,
    revision_round, rounds_so_far, runnable_config_and_provider, runnable_given, status_lines,
    Course, CourseStep, Handover, LogAction, Preparation, PrepareStep, ReadFile, ReviseStep,
    Revising, Storage, Sweep, SweepAction, EXIT_JOB_FAILED, EXIT_SUCCESS, EXIT_USAGE,
};
use assembly_line::config::{DeclaredProvider, Delivery, DeliveryMode, Provider, RepoConfig};
use assembly_line::event::{Event, EventKind};
use assembly_line::gc::{Removed, RepositoryLeftovers, StaleWorktree};
use assembly_line::git::GitOutput;
use assembly_line::job::{revised_prompt, JobOutcome};
use assembly_line::paths::{JobMeta, JobPaths};
use assembly_line::report::JobReport;
use assembly_line::time::{Span, Timestamp};

fn config() -> RepoConfig {
    RepoConfig {
        provider: Some("p".into()),
        verify: Some("true".into()),
        providers: vec![DeclaredProvider {
            name: "p".into(),
            provider: Provider {
                cmd: "true".into(),
                args: vec![],
                adapter: None,
            },
        }],
        ..RepoConfig::default()
    }
}

#[test]
fn a_failed_job_exits_apart_from_a_mistake() {
    assert_eq!(exit_code_for(JobOutcome::Passed), EXIT_SUCCESS);
    assert_eq!(exit_code_for(JobOutcome::Failed), EXIT_JOB_FAILED);
    assert_eq!((EXIT_SUCCESS, EXIT_JOB_FAILED, EXIT_USAGE), (0, 1, 2));
}

#[test]
fn the_repository_named_wins_over_the_enclosing_one() {
    let pick = |named: Option<&str>, enclosing: Option<&str>| {
        repository_named_or_enclosing(
            named.map(|n| n.to_string()),
            enclosing.map(|n| n.to_string()),
        )
    };
    assert_eq!(pick(Some("/a"), Some("/b")), Ok("/a".to_string()));
    assert_eq!(pick(None, Some("/b")), Ok("/b".to_string()));
    assert_eq!(
        pick(None, None),
        Err("not inside a git repository \u{2014} assembly stores job state at <git-root>/.assembly".to_string())
    );
}

#[test]
fn a_prompt_comes_from_the_line_or_from_a_file() {
    let file = |body: Result<&str, &str>| {
        Some(ReadFile {
            path: "p.md".into(),
            body: body.map(|b| b.to_string()).map_err(|e| e.to_string()),
        })
    };
    assert_eq!(
        prompt_text(Some("text".into()), file(Ok("file"))),
        Ok("text".to_string())
    );
    assert_eq!(prompt_text(None, file(Ok("file"))), Ok("file".to_string()));
    assert_eq!(
        prompt_text(None, file(Err("gone"))),
        Err("reading p.md: gone".to_string())
    );
    assert_eq!(
        prompt_text(None, None),
        Err("a job needs --prompt or --prompt-file".to_string())
    );
}

#[test]
fn a_job_is_cut_from_what_is_checked_out() {
    assert_eq!(default_base_ref(Some("dev".into())), "dev");
    assert_eq!(default_base_ref(None), "HEAD");
}

#[test]
fn the_command_lines_provider_wins() {
    let chosen = runnable_config_and_provider(&config(), &Some("ghost".into()));
    assert_eq!(
        chosen.provider,
        Err(".assembly/config.toml is not runnable".to_string())
    );
    assert_eq!(
        chosen.errors,
        vec!["error: provider 'ghost' is not declared in [providers] \u{2014} add a block for it"]
    );
    assert!(chosen.warnings.is_empty());
    assert_eq!(
        runnable_config_and_provider(&config(), &None).provider,
        Ok("p".to_string())
    );
}

#[test]
fn every_problem_and_warning_is_printed() {
    let bare = RepoConfig {
        max_duration: Some("soon".into()),
        ..RepoConfig::default()
    };
    let told = runnable_config_and_provider(&bare, &None);
    assert_eq!(
        told.warnings,
        vec!["warn: no `verify` \u{2014} nothing will check a job's output before it is delivered"]
    );
    assert_eq!(
        told.errors,
        vec![
            "error: no provider: set `provider = \"...\"` and declare it under [providers]",
            "error: max_duration 'soon' is not a duration like \"20m\"",
        ]
    );
    assert_eq!(runnable_given(&bare, &None, true).errors.len(), 1);
}

#[test]
fn preparing_stops_at_the_first_thing_that_fails() {
    let mut found = Preparation::new();
    assert_eq!(found.next(), PrepareStep::ReadPrompt);
    found.prompt = Some(Ok("do it".into()));
    assert_eq!(found.next(), PrepareStep::FindRepository);
    found.repo = Some(Ok("/work/acme".into()));
    match found.next() {
        PrepareStep::NameBaseRef(call) => {
            assert_eq!(call.dir, "/work/acme");
            assert_eq!(call.args, vec!["branch", "--show-current"]);
        }
        other => panic!("{other:?}"),
    }
    found.base_ref = Some(Err("detached".into()));
    assert_eq!(found.next(), PrepareStep::Decide);
    let refused = prepare_job(found, &None);
    assert_eq!(refused.job, Err("detached".to_string()));
    assert!(refused.warnings.is_empty() && refused.errors.is_empty());
}

#[test]
fn a_job_is_cut_from_what_is_named_or_checked_out() {
    let printed = |code: i32, stdout: &str| {
        Some(Ok(GitOutput {
            exit_code: code,
            stdout: stdout.into(),
            stderr: "no".into(),
        }))
    };
    let cut = base_ref_named_or_checked_out;
    assert_eq!(cut(Some("v1".into()), None), Ok("v1".to_string()));
    assert_eq!(cut(None, printed(0, "dev\n")), Ok("dev".to_string()));
    assert_eq!(cut(None, printed(0, "\n")), Ok("HEAD".to_string()));
    assert_eq!(
        cut(None, printed(1, "")),
        Err("branch --show-current failed (exit 1): no".to_string())
    );
    assert_eq!(cut(None, Some(Err("no git".into()))), Err("no git".to_string()));
}

fn kept() -> JobMeta {
    JobMeta {
        repo: "/work/acme".into(),
        base_ref: "main".into(),
        prompt: "do it".into(),
        provider: "p".into(),
    }
}

/// Every round is governed by the ref the job was cut from.
#[test]
fn the_settings_of_every_round_are_read_at_the_base_ref() {
    let first = Preparation {
        prompt: Some(Ok("do it".into())),
        repo: Some(Ok("/work/acme".into())),
        base_ref: Some(Ok("main".into())),
        declared: None,
    };
    assert_eq!(
        first.next(),
        PrepareStep::ReadConfig {
            repo: "/work/acme".into(),
            git_ref: "main".into()
        }
    );
    let mut again = Revising::new();
    assert_eq!(again.next(), ReviseStep::FindJob);
    again.meta = Some(Ok(kept()));
    assert_eq!(again.next(), ReviseStep::ReadEvents);
    again.events = Some(Ok(vec![]));
    assert_eq!(
        again.next(),
        ReviseStep::ReadConfig {
            repo: "/work/acme".into(),
            git_ref: "main".into()
        }
    );
    again.declared = Some(Ok(config()));
    assert_eq!(again.next(), ReviseStep::Decide);
}

#[test]
fn a_revision_is_the_next_round_with_the_feedback() {
    let started = Event {
        at: Timestamp::new(0, 0).unwrap(),
        kind: EventKind::JobStarted { round: 1 },
    };
    let found = |declared: RepoConfig| Revising {
        meta: Some(Ok(kept())),
        events: Some(Ok(vec![started.clone()])),
        declared: Some(Ok(declared)),
    };
    let ready = prepare_revision(found(config()));
    assert!(ready.warnings.is_empty() && ready.errors.is_empty());
    let job = ready.job.unwrap();
    assert_eq!((job.round, &job.meta, &job.config), (2, &kept(), &config()));
    let revised = job.revised("shorter");
    assert_eq!(revised.prompt, revised_prompt("do it", "shorter"));
    assert_eq!(
        (revised.provider.as_str(), revised.base_ref.as_str(), revised.round),
        ("p", "main", 2)
    );

    // The provider the job was started with is no longer declared.
    let gone = revision_given(
        found(RepoConfig {
            providers: vec![],
            ..config()
        }),
        true,
    );
    assert_eq!(
        gone.job,
        Err(".assembly/config.toml is not runnable".to_string())
    );
    assert_eq!(gone.errors.len(), 1);
}

#[test]
fn revising_stops_at_the_first_thing_that_fails() {
    let refused = |found: Revising| {
        assert_eq!(found.next(), ReviseStep::Decide);
        prepare_revision(found).job.unwrap_err()
    };
    assert_eq!(
        refused(Revising {
            meta: Some(Err("no jobs yet".into())),
            ..Revising::new()
        }),
        "no jobs yet"
    );
    assert_eq!(
        refused(Revising {
            meta: Some(Ok(kept())),
            events: Some(Err("reading the event log: gone".into())),
            declared: None,
        }),
        "reading the event log: gone"
    );
    assert_eq!(
        refused(Revising {
            meta: Some(Ok(kept())),
            events: Some(Ok(vec![])),
            declared: Some(Err("not opted in".into())),
        }),
        "not opted in"
    );
}

#[test]
fn a_prepared_job_keeps_its_parts_apart() {
    let found = Preparation {
        prompt: Some(Ok("do it".into())),
        repo: Some(Ok("/work/acme".into())),
        base_ref: Some(Ok("main".into())),
        declared: Some(Ok(config())),
    };
    assert_eq!(found.next(), PrepareStep::Decide);
    let job = prepare_job(found, &None).job.unwrap();
    let meta = job.meta();
    assert_eq!(meta.repo, "/work/acme");
    assert_eq!(meta.base_ref, "main");
    assert_eq!(meta.prompt, "do it");
    assert_eq!(meta.provider, "p");
    let spec = job.first_round();
    assert_eq!(
        (spec.prompt, spec.provider, spec.base_ref, spec.round),
        ("do it", "p", "main", 1)
    );
    assert_eq!(job.config, config());
}

#[test]
fn seeds_resolve_against_the_repository() {
    let opts = machine_opts("/work/acme", Some("/wt".into()));
    assert_eq!(opts.repo, "/work/acme");
    assert_eq!(opts.seed_from, "/work/acme");
    assert_eq!(opts.remote, "origin");
    assert_eq!(opts.worktrees_root.as_deref(), Some("/wt"));
}

#[test]
fn only_work_that_passed_is_delivered() {
    let hand = |base: Option<&str>, branch: Option<&str>, outcome: JobOutcome| {
        let config = RepoConfig {
            base: base.map(|b| b.to_string()),
            ..config()
        };
        deliver_if_verified("/work/acme", &config, "main", branch.map(|b| b.to_string()), outcome)
    };
    assert_eq!(hand(None, None, JobOutcome::Passed), Handover::Nothing);
    assert_eq!(
        hand(None, Some("b"), JobOutcome::Failed),
        Handover::Say("branch: b (not delivered \u{2014} the job did not pass)".into())
    );
    assert_eq!(
        hand(None, Some("b"), JobOutcome::Passed),
        Handover::Deliver {
            note: None,
            repo: "/work/acme".into(),
            delivery: Delivery {
                mode: DeliveryMode::Pr
            },
            remote: "origin".into(),
            branch: "b".into(),
            base: "main".into()
        }
    );
    assert_eq!(
        hand(Some("dev"), Some("b"), JobOutcome::Passed),
        Handover::Deliver {
            note: Some(
                "note: this pull request will target 'dev', but the job was cut from \
                 'main' \u{2014} review the diff before merging, since it carries everything \
                 separating the two, not just this job's work"
                    .into()
            ),
            repo: "/work/acme".into(),
            delivery: Delivery {
                mode: DeliveryMode::Pr
            },
            remote: "origin".into(),
            branch: "b".into(),
            base: "dev".into()
        }
    );
}

#[test]
fn the_job_named_wins_over_the_latest() {
    assert_eq!(locate_job(Some(3), Some(9)), Ok(3));
    assert_eq!(locate_job(None, Some(9)), Ok(9));
    assert_eq!(locate_job(None, None), Err("no jobs yet".to_string()));
    assert_eq!(
        meta_failure(3, "gone"),
        "reading meta.json for job 3: gone"
    );
}

#[test]
fn the_next_round_is_numbered_by_those_before() {
    let at = Timestamp::new(0, 0).unwrap();
    let events: Vec<Event> = vec![
        EventKind::JobStarted { round: 1 },
        EventKind::JobFinished { exit_code: 0 },
        EventKind::JobStarted { round: 7 },
    ]
    .into_iter()
    .map(|kind| Event { at, kind })
    .collect();
    assert_eq!(rounds_so_far(&events), 2);
    assert_eq!(revision_round(&events), 3);
    assert_eq!(rounds_so_far(&[]), 0);
    assert_eq!(revising_line(7, 3), "revising job 7 (round 3)");
}

#[test]
fn status_prints_the_summary_the_time_and_the_branch() {
    let mut report = JobReport::from_events(7, &[]);
    assert_eq!(
        status_lines(&report, None),
        vec!["job 7: pending (round 1)"]
    );
    report.branch = Some("al/job-7".into());
    assert_eq!(
        status_lines(&report, Some("took 1.5s".into())),
        vec!["job 7: pending (round 1)", "took 1.5s", "branch: al/job-7"]
    );
}

#[test]
fn a_log_is_printed_followed_or_missing() {
    let paths = JobPaths {
        id: 4,
        dir: "/jobs/4".into(),
    };
    assert_eq!(
        print_job_log(&paths, false, true),
        LogAction::Fail("job 4 has captured no output yet".into())
    );
    assert_eq!(print_job_log(&paths, true, false), LogAction::Print);
    match print_job_log(&paths, true, true) {
        LogAction::Follow(tail) => {
            assert_eq!(tail.program, "tail");
            assert_eq!(tail.args, vec!["-f", "/jobs/4/job.log"]);
        }
        other => panic!("{other:?}"),
    }
}

#[test]
fn older_than_is_a_duration() {
    assert_eq!(keep_for(&None), Ok(None));
    assert_eq!(
        keep_for(&Some("7d".into())),
        Ok(Some(Span::from_secs(604_800)))
    );
    assert_eq!(
        keep_for(&Some("week".into())),
        Err("invalid duration \"week\": expected number at 0".to_string())
    );
}

fn leftovers() -> Vec<RepositoryLeftovers> {
    let stale = |path: &str| StaleWorktree {
        path: path.into(),
        because: "its repository is unknown".into(),
    };
    vec![
        RepositoryLeftovers {
            repo: None,
            stale: vec![stale("/wt/a/1"), stale("/wt/a/2")],
        },
        RepositoryLeftovers {
            repo: None,
            stale: vec![],
        },
        RepositoryLeftovers {
            repo: None,
            stale: vec![stale("/wt/b/1")],
        },
    ]
}

#[test]
fn a_dry_run_removes_nothing() {
    let sweep = remove_stale_worktrees(&leftovers(), true);
    assert_eq!(
        sweep.lines,
        vec![
            "would remove /wt/a/1 \u{2014} its repository is unknown",
            "would remove /wt/a/2 \u{2014} its repository is unknown",
            "would remove /wt/b/1 \u{2014} its repository is unknown",
        ]
    );
    assert_eq!(
        sweep.action,
        SweepAction::Say("3 worktree(s) would be removed".into())
    );
}

#[test]
fn a_collection_lists_what_it_removes() {
    let sweep = remove_stale_worktrees(&leftovers(), false);
    assert_eq!(
        sweep.lines[0],
        "removing /wt/a/1 \u{2014} its repository is unknown"
    );
    assert_eq!(sweep.action, SweepAction::Remove);
    for dry_run in [true, false] {
        assert_eq!(
            remove_stale_worktrees(&vec![], dry_run),
            Sweep {
                lines: vec![],
                action: SweepAction::Say("nothing to collect".into())
            }
        );
    }
    assert_eq!(
        removed_lines(&Removed {
            directories: 2,
            warnings: vec!["could not remove x: y".into()],
        }),
        (
            vec!["warn: could not remove x: y".to_string()],
            "removed 2 worktree(s)".to_string()
        )
    );
}

#[test]
fn a_command_line_is_a_plain_value() {
    let cli = Cli {
        command: Command::Gc {
            older_than: Some("7d".into()),
            dry_run: true,
        },
    };
    assert_eq!(cli.clone(), cli);
}

#[test]
fn preparing_goes_by_what_it_is_told_of_the_cap() {
    let found = |cap: &str| Preparation {
        prompt: Some(Ok("do it".into())),
        repo: Some(Ok("/work/acme".into())),
        base_ref: Some(Ok("main".into())),
        declared: Some(Ok(RepoConfig {
            max_duration: Some(cap.into()),
            ..config()
        })),
    };
    assert!(prepare_given(found("soon"), &None, true).job.is_ok());
    assert!(prepare_given(found("20m"), &None, false).job.is_err());
    assert!(prepare_job(found("soon"), &None).job.is_err());
    assert!(prepare_job(found("20m"), &None).job.is_ok());
}

#[test]
fn a_command_prepares_allocates_runs_and_finishes() {
    let mut course = Course::new();
    assert_eq!(course.next(), CourseStep::Prepare);
    course.ready = Some(Ok(()));
    assert_eq!(course.next(), CourseStep::Allocate);
    course.allocated = Some(Ok(()));
    assert_eq!(course.next(), CourseStep::RunJob);
    assert_eq!(code_of_course(&course.next()), None);
    course.ran = Some(Ok(JobOutcome::Failed));
    assert_eq!(course.next(), CourseStep::Finish(JobOutcome::Failed));
    assert_eq!(code_of_course(&course.next()), Some(EXIT_JOB_FAILED));
    course.ran = Some(Ok(JobOutcome::Passed));
    assert_eq!(code_of_course(&course.next()), Some(EXIT_SUCCESS));
}

#[test]
fn a_command_that_cannot_go_on_exits_as_for_a_mistake() {
    let refused = |ready: Result<(), String>,
                   allocated: Option<Result<(), String>>,
                   ran: Option<Result<JobOutcome, String>>| {
        let step = Course {
            ready: Some(ready),
            allocated,
            ran,
        }
        .next();
        assert_eq!(code_of_course(&step), Some(EXIT_USAGE));
        step
    };
    assert_eq!(
        refused(Err("p".into()), Some(Ok(())), None),
        CourseStep::Refuse("p".into())
    );
    assert_eq!(
        refused(Ok(()), Some(Err("a".into())), None),
        CourseStep::Refuse("a".into())
    );
    assert_eq!(
        refused(Ok(()), Some(Ok(())), Some(Err("r".into()))),
        CourseStep::Refuse("r".into())
    );
}

#[test]
fn trouble_with_a_jobs_files_is_told_by_what_was_being_done() {
    assert_eq!(
        Storage::MakeDirectory.failure("e"),
        "preparing the job directory: e"
    );
    assert_eq!(Storage::WriteMeta.failure("e"), "writing meta.json: e");
    assert_eq!(Storage::OpenLog.failure("e"), "opening the event log: e");
    assert_eq!(Storage::ReadLog.failure("e"), "reading the event log: e");
    assert_eq!(delivery_failure("b", "e"), "warn: delivering b: e");
}
