use assembly_line::git::{CommitStep, GitCall, GitOutput, WorktreeStart};
use assembly_line::workspace::{
    check_seeds, commit, create, discard, job_branch_name, publish, seed_failure, seed_files,
    seed_sources, Checkout, CheckoutCall, CheckoutStep, JobWorkspace, PublishStep, SeedCopy, DEFAULT_REMOTE,
};

fn ok(stdout: &str) -> GitOutput {
    GitOutput {
        exit_code: 0,
        stdout: stdout.to_string(),
        stderr: String::new(),
    }
}

fn failed(stderr: &str) -> GitOutput {
    GitOutput {
        exit_code: 1,
        stdout: String::new(),
        stderr: stderr.to_string(),
    }
}

fn texts(list: &[&str]) -> Vec<String> {
    list.iter().map(|t| t.to_string()).collect()
}

#[test]
fn branch_names_are_flat_siblings() {
    assert_eq!(job_branch_name(42), "al/job-42");
    assert_eq!(job_branch_name(u64::MAX), "al/job-18446744073709551615");
    assert!(
        !job_branch_name(42).starts_with(&format!("{}/", job_branch_name(4))),
        "a job's branch must not nest under another's; git forbids it"
    );
}

/// The arguments of the git calls a checkout makes, `look` where it asks
/// whether the path is taken.
fn checkout(start: &WorktreeStart, taken: bool, branch_there: bool) -> Vec<String> {
    let mut state = Checkout::new();
    let mut seen = vec![];
    loop {
        match state.check_out_branch("/r", "/wt/checkout", "al/job-1", start) {
            CheckoutStep::LookAtPath => {
                seen.push("look".to_string());
                state.path_exists = Some(taken);
            }
            CheckoutStep::Run(which, call) => {
                let found = which != CheckoutCall::FindBranch || branch_there;
                let output = if found { ok("") } else { failed("") };
                assert_eq!(call.dir, "/r");
                seen.push(call.args.join(" "));
                state = state.after(which, output);
            }
            CheckoutStep::Done(done) => {
                assert_eq!(done, Ok(()));
                return seen;
            }
        }
    }
}

#[test]
fn a_fresh_attempt_frees_the_path_and_the_branch_name() {
    let start = WorktreeStart::CreatingBranch { at: "abc".into() };
    assert_eq!(
        checkout(&start, true, true),
        vec![
            "worktree prune",
            "look",
            "worktree remove --force /wt/checkout",
            "show-ref --verify --quiet refs/heads/al/job-1",
            "branch -D al/job-1",
            "worktree add -b al/job-1 /wt/checkout abc",
        ]
    );
    assert_eq!(
        checkout(&start, false, false),
        vec![
            "worktree prune",
            "look",
            "show-ref --verify --quiet refs/heads/al/job-1",
            "worktree add -b al/job-1 /wt/checkout abc",
        ]
    );
}

#[test]
fn a_revise_round_keeps_its_branch() {
    let start = WorktreeStart::OnExistingBranch { tip: "abc".into() };
    assert_eq!(
        checkout(&start, true, true),
        vec![
            "worktree prune",
            "look",
            "worktree remove --force /wt/checkout",
            "worktree add /wt/checkout al/job-1",
        ]
    );
}

#[test]
fn a_checkout_stops_at_the_first_refusal() {
    let start = WorktreeStart::CreatingBranch { at: "abc".into() };
    let next = |state: &Checkout| state.check_out_branch("/r", "/wt", "b", &start);
    let mut state = Checkout::new();
    state.pruned = Some(failed("p"));
    assert_eq!(
        next(&state),
        CheckoutStep::Done(Err("worktree prune failed (exit 1): p".into()))
    );
    state.pruned = Some(ok(""));
    state.path_exists = Some(true);
    state.removed = Some(failed("r"));
    assert_eq!(
        next(&state),
        CheckoutStep::Done(Err("worktree remove failed (exit 1): r".into()))
    );
    state.removed = Some(ok(""));
    state.branch_found = Some(ok(""));
    state.deleted = Some(failed("d"));
    assert_eq!(
        next(&state),
        CheckoutStep::Done(Err("branch -D b failed (exit 1): d".into()))
    );
    state.deleted = Some(ok(""));
    state.added = Some(failed("a"));
    assert_eq!(
        next(&state),
        CheckoutStep::Done(Err("worktree add b failed (exit 1): a".into()))
    );
}

#[test]
fn a_missing_seed_is_named_before_anything_is_made() {
    let copy = texts(&[".env", "conf/local.toml", "/etc/hosts"]);
    assert_eq!(
        seed_sources("/work/acme", &copy),
        vec!["/work/acme/.env", "/work/acme/conf/local.toml", "/etc/hosts"]
    );
    assert_eq!(check_seeds("/work/acme", &copy, &vec![true, true, true]), Ok(()));
    assert_eq!(
        check_seeds("/work/acme", &copy, &vec![true, false, false]),
        Err("copy path 'conf/local.toml' does not exist under /work/acme".to_string())
    );
}

#[test]
fn seeds_are_copied_to_where_they_stood() {
    assert_eq!(
        seed_files("/wt", "/work/acme", &texts(&[".env", "conf/local.toml"])),
        vec![
            SeedCopy {
                declared: ".env".into(),
                from: "/work/acme/.env".into(),
                to: "/wt/.env".into(),
                directory: Some("/wt".into()),
            },
            SeedCopy {
                declared: "conf/local.toml".into(),
                from: "/work/acme/conf/local.toml".into(),
                to: "/wt/conf/local.toml".into(),
                directory: Some("/wt/conf".into()),
            },
        ]
    );
    assert_eq!(
        seed_failure(".env", "denied"),
        "copying '.env' into the workspace: denied"
    );
}

#[test]
fn a_workspace_remembers_what_was_seeded() {
    let ws = create("/wt/checkout", "al/job-1", &texts(&[".env"]));
    assert_eq!(
        ws,
        JobWorkspace {
            path: "/wt/checkout".into(),
            branch: "al/job-1".into(),
            seeded: texts(&[".env"]),
        }
    );
    assert_eq!(
        commit(&ws, "m", &vec![ok("")]),
        CommitStep::Run(GitCall {
            dir: "/wt/checkout".into(),
            args: texts(&["reset", "--quiet", "--", ".env"]),
            operation: "reset".into(),
        })
    );
    assert_eq!(
        discard("/r", &ws),
        GitCall {
            dir: "/r".into(),
            args: texts(&["worktree", "remove", "--force", "/wt/checkout"]),
            operation: "worktree remove".into(),
        }
    );
}

#[test]
fn publishing_needs_the_remote_to_be_there() {
    let say = |listed: Option<GitOutput>, pushed: Option<GitOutput>| {
        publish("/r", "al/job-1", DEFAULT_REMOTE, &listed, &pushed)
    };
    match say(None, None) {
        PublishStep::Run(call) => assert_eq!(call.args, vec!["remote"]),
        other => panic!("{other:?}"),
    }
    assert_eq!(say(Some(ok("upstream")), None), PublishStep::Done(Ok(None)));
    match say(Some(ok("origin\n")), None) {
        PublishStep::Run(call) => assert_eq!(call.args, vec!["push", "origin", "al/job-1"]),
        other => panic!("{other:?}"),
    }
    assert_eq!(
        say(Some(ok("origin\n")), Some(ok(""))),
        PublishStep::Done(Ok(Some("origin".into())))
    );
    assert_eq!(
        say(Some(ok("origin\n")), Some(failed("denied"))),
        PublishStep::Done(Err("push origin al/job-1 failed (exit 1): denied".into()))
    );
    assert_eq!(
        say(Some(failed("x")), None),
        PublishStep::Done(Err("remote failed (exit 1): x".into()))
    );
}
