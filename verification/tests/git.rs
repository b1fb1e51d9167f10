use assembly_line::git::{
    add_worktree, branch_checked_out, can_measure, branch_exists, branch_tip, commit_all, commit_all_except,
    current_branch, delete_branch, diff_stat, diff_stat_against, file_at_ref, has_commits,
    head_sha, is_dirty, list_remotes, prune_worktrees, push_branch, remote_exists,
    remove_worktree, sha_at_ref, spawn_failure, status, CommitStep, DiffStat, FileStep, GitCall,
    GitOutput, WorktreeStart,
};

fn ok(stdout: &str) -> GitOutput {
    GitOutput {
        exit_code: 0,
        stdout: stdout.to_string(),
        stderr: String::new(),
    }
}

fn failed(code: i32, stderr: &str) -> GitOutput {
    GitOutput {
        exit_code: code,
        stdout: "ignored".to_string(),
        stderr: stderr.to_string(),
    }
}

fn call(args: &[&str], operation: &str) -> GitCall {
    GitCall {
        dir: "/r".to_string(),
        args: args.iter().map(|a| a.to_string()).collect(),
        operation: operation.to_string(),
    }
}

#[test]
fn a_failure_carries_gits_own_words() {
    let output = failed(128, "  fatal: not a repository\n");
    assert!(!output.succeeded());
    assert_eq!(
        head_sha("/r").answer(&output),
        Err("rev-parse HEAD failed (exit 128): fatal: not a repository".to_string())
    );
    assert_eq!(
        output.stdout_verbatim_or_error("show x:y"),
        Err("show x:y failed (exit 128): fatal: not a repository".to_string())
    );
    assert_eq!(
        prune_worktrees("/r").done(&failed(-1, "")),
        Err("worktree prune failed (exit -1): ".to_string())
    );
}

#[test]
fn an_answer_is_trimmed_and_a_file_is_not() {
    let output = ok(" abc123\n");
    assert_eq!(output.stdout_or_error("x"), Ok("abc123".to_string()));
    assert_eq!(
        output.stdout_verbatim_or_error("x"),
        Ok(" abc123\n".to_string())
    );
    assert_eq!(prune_worktrees("/r").done(&output), Ok(()));
}

#[test]
fn a_process_killed_by_a_signal_exits_with_minus_one() {
    let output = GitOutput::of_process(None, "o".into(), "e".into());
    assert_eq!(output.exit_code, -1);
    assert_eq!((output.stdout.as_str(), output.stderr.as_str()), ("o", "e"));
    assert_eq!(
        GitOutput::of_process(Some(7), String::new(), String::new()).exit_code,
        7
    );
}

#[test]
fn every_operation_says_what_it_runs_and_where() {
    assert_eq!(head_sha("/r"), call(&["rev-parse", "HEAD"], "rev-parse HEAD"));
    assert_eq!(
        sha_at_ref("/r", "v1"),
        call(&["rev-parse", "v1^{commit}"], "rev-parse v1")
    );
    assert_eq!(
        branch_tip("/r", "al/job-1"),
        call(&["rev-parse", "refs/heads/al/job-1"], "rev-parse al/job-1")
    );
    assert_eq!(
        current_branch("/r"),
        call(&["branch", "--show-current"], "branch --show-current")
    );
    assert_eq!(
        has_commits("/r"),
        call(&["rev-parse", "--verify", "HEAD"], "rev-parse --verify HEAD")
    );
    assert_eq!(
        branch_exists("/r", "b"),
        call(
            &["show-ref", "--verify", "--quiet", "refs/heads/b"],
            "show-ref b"
        )
    );
    assert_eq!(
        delete_branch("/r", "b"),
        call(&["branch", "-D", "b"], "branch -D b")
    );
    assert_eq!(list_remotes("/r"), call(&["remote"], "remote"));
    assert_eq!(
        push_branch("/r", "origin", "b"),
        call(&["push", "origin", "b"], "push origin b")
    );
    assert_eq!(
        remove_worktree("/r", "/wt"),
        call(&["worktree", "remove", "--force", "/wt"], "worktree remove")
    );
    assert_eq!(
        prune_worktrees("/r"),
        call(&["worktree", "prune"], "worktree prune")
    );
    assert_eq!(status("/r"), call(&["status", "--porcelain"], "status"));
    assert_eq!(
        diff_stat_against("/r", "abc"),
        call(&["diff", "--numstat", "abc..HEAD"], "diff --numstat")
    );
}

#[test]
fn a_worktree_creates_its_branch_or_finds_it() {
    let fresh = WorktreeStart::CreatingBranch { at: "abc".into() };
    let again = WorktreeStart::OnExistingBranch { tip: "def".into() };
    assert_eq!(
        add_worktree("/r", "/wt", "b", &fresh),
        call(&["worktree", "add", "-b", "b", "/wt", "abc"], "worktree add b")
    );
    assert_eq!(
        add_worktree("/r", "/wt", "b", &again),
        call(&["worktree", "add", "/wt", "b"], "worktree add b")
    );
    assert_eq!(fresh.start_commit(), "abc");
    assert_eq!(again.start_commit(), "def");
}

#[test]
fn a_detached_head_has_no_branch() {
    assert_eq!(branch_checked_out(&ok("\n")), Ok(None));
    assert_eq!(branch_checked_out(&ok("main\n")), Ok(Some("main".into())));
    assert_eq!(
        branch_checked_out(&failed(1, "no")),
        Err("branch --show-current failed (exit 1): no".to_string())
    );
}

#[test]
fn a_remote_is_found_by_its_whole_name() {
    let listed = ok("upstream\norigin\n");
    assert_eq!(remote_exists(&listed, "origin"), Ok(true));
    assert_eq!(remote_exists(&listed, "orig"), Ok(false));
    assert_eq!(remote_exists(&ok(""), "origin"), Ok(false));
    assert_eq!(
        remote_exists(&failed(2, "x"), "origin"),
        Err("remote failed (exit 2): x".to_string())
    );
}

#[test]
fn a_worktree_is_dirty_when_status_says_anything() {
    assert_eq!(is_dirty(&ok("\n")), Ok(false));
    assert_eq!(is_dirty(&ok("?? new\n")), Ok(true));
    assert_eq!(
        is_dirty(&failed(1, "x")),
        Err("status failed (exit 1): x".to_string())
    );
}

#[test]
fn a_file_is_shown_only_where_the_ref_carries_it() {
    let spec = "main:.assembly/config.toml";
    let step = file_at_ref("/r", "main", ".assembly/config.toml", None, None);
    match step {
        FileStep::Run(first) => assert_eq!(
            first,
            call(
                &["cat-file", "-e", spec],
                "cat-file -e main:.assembly/config.toml"
            )
        ),
        other => panic!("{other:?}"),
    }
    assert_eq!(
        file_at_ref("/r", "main", ".assembly/config.toml", Some(&failed(128, "x")), None),
        FileStep::Done(Ok(None))
    );
    match file_at_ref("/r", "main", ".assembly/config.toml", Some(&ok("")), None) {
        FileStep::Run(second) => assert_eq!(second.args, vec!["show", spec]),
        other => panic!("{other:?}"),
    }
    assert_eq!(
        file_at_ref("/r", "main", ".assembly/config.toml", Some(&ok("")), Some(&ok(" a\n\n"))),
        FileStep::Done(Ok(Some(" a\n\n".into())))
    );
    assert_eq!(
        file_at_ref("/r", "main", ".assembly/config.toml", Some(&ok("")), Some(&failed(1, "x"))),
        FileStep::Done(Err(
            "show main:.assembly/config.toml failed (exit 1): x".into()
        ))
    );
}

#[test]
fn a_diff_is_added_up_line_by_line() {
    let output = ok("10\t2\tsrc/a.rs\n-\t-\tlogo.png\n\n5\t0\twith\ttab\nodd line\n");
    assert_eq!(
        diff_stat(&output),
        Ok(DiffStat {
            files: 4,
            insertions: 15,
            deletions: 2,
        })
    );
    assert_eq!(diff_stat(&ok("")), Ok(DiffStat::default()));
    assert_eq!(
        diff_stat(&failed(1, "x")),
        Err("diff --numstat failed (exit 1): x".to_string())
    );
}

fn run(args: &[&str], operation: &str) -> CommitStep {
    CommitStep::Run(call(args, operation))
}

#[test]
fn a_commit_goes_one_step_at_a_time() {
    let m = "job 1: do it";
    let mut done = vec![];
    assert_eq!(commit_all("/r", m, &done), run(&["add", "-A"], "add -A"));
    done.push(ok(""));
    assert_eq!(commit_all("/r", m, &done), run(&["diff", "--cached", "--quiet"], "diff --cached"));
    done.push(failed(1, ""));
    assert_eq!(
        commit_all("/r", m, &done),
        run(&["commit", "--no-verify", "-m", m], "commit")
    );
    done.push(ok("[al/job-1 abc] job 1"));
    assert_eq!(commit_all("/r", m, &done), run(&["rev-parse", "HEAD"], "rev-parse HEAD"));
    done.push(ok("abc\n"));
    assert_eq!(
        commit_all("/r", m, &done),
        CommitStep::Done(Ok(Some("abc".into())))
    );
}

#[test]
fn a_clean_tree_commits_nothing() {
    assert_eq!(
        commit_all("/r", "m", &vec![ok(""), ok("")]),
        CommitStep::Done(Ok(None))
    );
}

#[test]
fn seeded_files_are_unstaged_and_looked_for_afterwards() {
    let seeded = vec![".env".to_string(), "a b".to_string()];
    let mut done = vec![ok("")];
    assert_eq!(
        commit_all_except("/r", "m", &seeded, &done),
        run(&["reset", "--quiet", "--", ".env"], "reset")
    );
    // A path that was never staged is no reason to stop.
    done.push(failed(1, "nothing to unstage"));
    assert_eq!(
        commit_all_except("/r", "m", &seeded, &done),
        run(&["reset", "--quiet", "--", "a b"], "reset")
    );
    done.push(ok(""));
    done.push(failed(1, ""));
    done.push(ok(""));
    assert_eq!(
        commit_all_except("/r", "m", &seeded, &done),
        run(&["ls-files", "--", ".env", "a b"], "ls-files")
    );
    let mut clean = done.clone();
    clean.push(ok("\n"));
    assert_eq!(
        commit_all_except("/r", "m", &seeded, &clean),
        run(&["rev-parse", "HEAD"], "rev-parse HEAD")
    );
    done.push(ok(".env\na b\n"));
    assert_eq!(
        commit_all_except("/r", "m", &seeded, &done),
        CommitStep::Done(Err(
            "refusing to continue: seeded file(s) were committed by the agent: .env, a b".into()
        ))
    );
}

#[test]
fn a_commit_stops_at_the_first_step_that_fails() {
    let stop = |done: Vec<GitOutput>| commit_all("/r", "m", &done);
    assert_eq!(
        stop(vec![failed(1, "x")]),
        CommitStep::Done(Err("add -A failed (exit 1): x".into()))
    );
    assert_eq!(
        stop(vec![ok(""), failed(1, ""), failed(3, "y")]),
        CommitStep::Done(Err("commit failed (exit 3): y".into()))
    );
    assert_eq!(
        stop(vec![ok(""), failed(1, ""), ok(""), failed(2, "z")]),
        CommitStep::Done(Err("rev-parse HEAD failed (exit 2): z".into()))
    );
    let seeded = vec![".env".to_string()];
    assert_eq!(
        commit_all_except(
            "/r",
            "m",
            &seeded,
            &vec![ok(""), ok(""), failed(1, ""), ok(""), failed(2, "z")]
        ),
        CommitStep::Done(Err("ls-files failed (exit 2): z".into()))
    );
}

#[test]
fn a_missing_git_is_told_with_what_was_run() {
    assert_eq!(
        spawn_failure(&list_remotes("/r").args, "No such file"),
        "running `git remote`: No such file"
    );
    assert_eq!(
        spawn_failure(&head_sha("/r").args, "e"),
        "running `git rev-parse HEAD`: e"
    );
}

#[test]
fn counts_too_great_to_add_up_are_noticed() {
    let most = usize::MAX;
    assert!(can_measure(&ok(&format!("{most}\t0\ta\n0\t{most}\tb\n"))));
    assert!(!can_measure(&ok(&format!("{most}\t0\ta\n1\t0\tb\n"))));
    assert!(!can_measure(&ok(&format!("0\t{most}\ta\n0\t1\tb\n"))));
    assert!(can_measure(&failed(1, "nothing to add up")));
    // A count that is no number of that size counts for nothing.
    assert!(can_measure(&ok(&format!("{most}0\t0\ta\n{most}\t0\tb\n"))));
}
