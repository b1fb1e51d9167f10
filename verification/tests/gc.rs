use assembly_line::gc::{
    collectable, reason_given, reason_to_collect, pruning, remove, state_dir, state_to_look_for, total,
    FoundDirectory, FoundRepository, RemovalOutcome, Removed, RepositoryLeftovers, Standing,
    StaleWorktree,
};
use assembly_line::time::Span;

/// A live job's worktree, last written to a moment ago.
fn fresh() -> Standing {
    Standing {
        repo_exists: true,
        has_state: true,
        idle: Span::new(0, 40_000),
    }
}

fn stale(path: &str, because: &str) -> StaleWorktree {
    StaleWorktree {
        path: path.to_string(),
        because: because.to_string(),
    }
}

#[test]
fn a_job_whose_state_is_gone_is_collectable() {
    let standing = Standing {
        has_state: false,
        ..fresh()
    };
    let reason = reason_to_collect(Some("/tmp/x/repo"), 1, &standing, &None).unwrap();
    assert!(reason.contains("no state directory"), "{reason}");
    assert_eq!(reason, "job 1 has no state directory");
}

#[test]
fn worktrees_of_a_repository_that_is_gone_are_collectable() {
    let standing = Standing {
        repo_exists: false,
        has_state: false,
        ..fresh()
    };
    let reason = reason_to_collect(Some("/tmp/x/repo"), 1, &standing, &None).unwrap();
    assert!(reason.contains("no longer exists"), "{reason}");
    assert_eq!(reason, "/tmp/x/repo no longer exists");
}

/// Without the marker naming its repository there is no way to tell whether
/// the job still exists, so the leftovers are collectable by default.
#[test]
fn worktrees_with_no_known_repository_are_collectable() {
    let reason = reason_to_collect(None, 1, &fresh(), &None).unwrap();
    assert!(reason.contains("repository is unknown"), "{reason}");
}

/// Age never collects on its own — only when `--older-than` asked for it.
#[test]
fn age_collects_only_when_asked_for() {
    assert_eq!(
        reason_to_collect(Some("/tmp/x/repo"), 1, &fresh(), &None),
        None,
        "a live job's worktree must survive with no --older-than"
    );

    let reason = reason_to_collect(
        Some("/tmp/x/repo"),
        1,
        &fresh(),
        &Some(Span::from_secs(0)),
    )
    .unwrap_or_default();
    assert!(
        reason.contains("untouched for"),
        "an idle threshold of zero should collect: {reason}"
    );
}

#[test]
fn a_worktree_younger_than_the_threshold_is_kept() {
    assert_eq!(
        reason_to_collect(
            Some("/tmp/x/repo"),
            1,
            &fresh(),
            &Some(Span::from_secs(3600))
        ),
        None
    );
}

#[test]
fn idle_time_is_told_in_whole_seconds() {
    let standing = Standing {
        idle: Span::new(90_061, 999_999_999),
        ..fresh()
    };
    assert_eq!(
        reason_to_collect(Some("/r"), 1, &standing, &Some(Span::from_secs(1))).unwrap(),
        "untouched for 1day 1h 1m 1s"
    );
    assert_eq!(
        reason_given(Some("/r"), 1, &standing, &Some(Span::from_secs(1)), "ages").unwrap(),
        "untouched for ages"
    );
}

#[test]
fn exactly_the_threshold_is_not_over_it() {
    let standing = Standing {
        idle: Some(Span::from_secs(60)),
        ..fresh()
    };
    let limit = Some(Span::from_secs(60));
    assert_eq!(reason_to_collect(Some("/r"), 1, &standing, &limit), None);
    let unreadable = Standing {
        idle: None,
        ..fresh()
    };
    assert_eq!(
        reason_to_collect(Some("/r"), 1, &unreadable, &Some(Span::from_secs(0))),
        None
    );
}

#[test]
fn removing_leftovers_deletes_them_and_counts_only_what_went() {
    let leftovers = RepositoryLeftovers {
        repo: None,
        stale: vec![
            stale("/tmp/wt/2", "its repository is unknown"),
            stale("/tmp/wt/1", "its repository is unknown"),
        ],
    };
    assert_eq!(pruning(&leftovers, true), None);

    let removed = remove(
        &vec![leftovers],
        &vec![RemovalOutcome {
            failures: vec![Some("No such file or directory".into()), None],
            prune_failure: None,
        }],
    );

    assert_eq!(removed.directories, 1, "only what actually went is counted");
    assert_eq!(removed.warnings.len(), 1, "{:?}", removed.warnings);
    assert_eq!(
        removed.warnings[0],
        "could not remove /tmp/wt/2: No such file or directory"
    );
}

#[test]
fn a_failed_prune_is_a_warning() {
    let leftovers = RepositoryLeftovers {
        repo: Some("/work/acme".into()),
        stale: vec![stale("/tmp/wt/1", "job 1 has no state directory")],
    };
    let call = pruning(&leftovers, true).unwrap();
    assert_eq!(call.dir, "/work/acme");
    assert_eq!(call.args, vec!["worktree", "prune"]);
    assert_eq!(pruning(&leftovers, false), None);
    assert_eq!(
        remove(
            &vec![leftovers],
            &vec![RemovalOutcome {
                failures: vec![None],
                prune_failure: Some("git broke".into()),
            }],
        ),
        Removed {
            directories: 1,
            warnings: vec!["could not prune worktrees in /work/acme: git broke".into()],
        }
    );
}

#[test]
fn a_repository_that_lost_nothing_is_not_pruned() {
    let leftovers = RepositoryLeftovers {
        repo: Some("/work/acme".into()),
        stale: vec![],
    };
    assert_eq!(pruning(&leftovers, true), None);
}

#[test]
fn only_numbered_directories_are_looked_at() {
    let at = |name: &str, standing: Standing| FoundDirectory {
        name: name.to_string(),
        path: format!("/wt/acme/{name}"),
        standing,
    };
    let gone = Standing {
        has_state: false,
        ..fresh()
    };
    let found = vec![
        FoundRepository {
            repo: Some("/work/acme".into()),
            directories: vec![
                at("repo", gone),
                at("2", gone),
                at("1", fresh()),
                at("10", gone),
            ],
        },
        FoundRepository {
            repo: None,
            directories: vec![at("3", fresh())],
        },
    ];
    let leftovers = collectable(&found, &None);
    assert_eq!(
        leftovers,
        vec![
            RepositoryLeftovers {
                repo: Some("/work/acme".into()),
                stale: vec![
                    stale("/wt/acme/2", "job 2 has no state directory"),
                    stale("/wt/acme/10", "job 10 has no state directory"),
                ],
            },
            RepositoryLeftovers {
                repo: None,
                stale: vec![stale("/wt/acme/3", "its repository is unknown")],
            },
        ]
    );
    assert_eq!(total(&leftovers), 3);
    assert_eq!(total(&vec![]), 0);
}

#[test]
fn a_jobs_state_is_under_its_repository() {
    assert_eq!(state_dir("/work/acme", 7), "/work/acme/.assembly/jobs/7");
    assert_eq!(
        state_to_look_for(Some("/work/acme"), "7").as_deref(),
        Some("/work/acme/.assembly/jobs/7")
    );
    assert_eq!(state_to_look_for(Some("/work/acme"), "notes"), None);
    assert_eq!(state_to_look_for(None, "7"), None);
}
