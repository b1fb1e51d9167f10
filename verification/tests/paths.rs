use assembly_line::filepath::{ancestors, file_name_of, join_path, parent_of};
use assembly_line::paths::{
    create_job, git_marker, git_root, jobs_root, latest_job_id, marker_path, next_job_id, open_job,
    record_repository_for_worktrees, repo_slug, repo_worktrees_root, repository_owning_worktrees,
    worktree_root, worktrees_root_given, JobPaths, REPOSITORY_MARKER, WORKTREE_ROOT_VAR,
};
use std::path::Path;

fn names(list: &[&str]) -> Vec<String> {
    list.iter().map(|n| n.to_string()).collect()
}

#[test]
fn finds_the_git_root_by_walking_up() {
    let marked = names(&["/tmp/x/repo"]);
    assert_eq!(
        git_root("/tmp/x/repo/a/b/c", &marked).unwrap(),
        "/tmp/x/repo"
    );
    assert_eq!(git_root("/tmp/x/repo", &marked).unwrap(), "/tmp/x/repo");
}

#[test]
fn returns_none_outside_a_repo() {
    assert!(git_root("/tmp/elsewhere", &vec![]).is_none());
    assert!(git_root("/tmp/elsewhere", &names(&["/tmp/x/repo"])).is_none());
}

#[test]
fn the_nearest_repository_wins() {
    let marked = names(&["/tmp", "/tmp/x/repo"]);
    assert_eq!(
        git_root("/tmp/x/repo/a", &marked).unwrap(),
        "/tmp/x/repo"
    );
    assert_eq!(git_root("/tmp/x", &marked).unwrap(), "/tmp");
    assert_eq!(git_marker("/tmp/x"), "/tmp/x/.git");
}

#[test]
fn allocates_monotonic_run_ids() {
    assert_eq!(next_job_id(&names(&[])), 1);
    assert_eq!(latest_job_id(&names(&[])), None);

    assert_eq!(next_job_id(&names(&["1"])), 2);
    assert_eq!(latest_job_id(&names(&["1"])), Some(1));

    assert_eq!(next_job_id(&names(&["1", "2"])), 3);
    assert_eq!(latest_job_id(&names(&["1", "2"])), Some(2));
}

#[test]
fn ignores_non_numeric_directories_when_allocating() {
    assert_eq!(next_job_id(&names(&["scratch", "7"])), 8);
}

#[test]
fn ids_are_read_as_numbers_are() {
    assert_eq!(latest_job_id(&names(&["9", "10", "+11", "007"])), Some(11));
    assert_eq!(
        latest_job_id(&names(&["-1", "", "+", "1 ", "18446744073709551616"])),
        None
    );
    assert_eq!(
        latest_job_id(&names(&["18446744073709551615"])),
        Some(u64::MAX)
    );
}

#[test]
fn create_run_lays_out_the_directory() {
    let root = jobs_root("/work/acme");
    assert_eq!(root, "/work/acme/.assembly/jobs");
    let p = create_job(&root, 42);

    assert_eq!(p.id, 42);
    assert_eq!(p.dir, "/work/acme/.assembly/jobs/42");
    assert_eq!(p.events(), join_path(&p.dir, "events.jsonl"));
    assert_eq!(p.meta(), join_path(&p.dir, "meta.json"));
    assert_eq!(p.log(), join_path(&p.dir, "job.log"));

    assert_eq!(open_job(&root, 42, true).unwrap().dir, p.dir);
}

#[test]
fn open_run_fails_for_a_missing_run() {
    assert!(open_job(&jobs_root("/tmp/x"), 99, false).is_err());
    assert_eq!(
        open_job(&jobs_root("/tmp/x"), 99, false),
        Err("no such job: 99".to_string())
    );
}

#[test]
fn worktrees_live_under_home_not_in_the_repo() {
    let repo = "/work/acme";
    let root = worktrees_root_given(None, Some("/home/dev")).unwrap();
    let root = worktree_root(Some(&root), repo, 42).unwrap();

    assert!(Path::new(&root).starts_with("/home/dev"), "{root}");
    assert!(!Path::new(&root).starts_with(repo), "{root}");
    assert!(
        Path::new(&root).ends_with(format!("{}/42", repo_slug(repo))),
        "{root}"
    );
}

#[test]
fn two_repositories_on_the_same_run_id_do_not_share_a_worktree_root() {
    // Job ids restart at 1 in every repository, so the id alone cannot key the
    // directory — the first job of two repos would land in the same place.
    let alpha = worktree_root(Some("/wt"), "/work/alpha", 1).unwrap();
    let beta = worktree_root(Some("/wt"), "/work/beta", 1).unwrap();
    assert_ne!(alpha, beta);
}

#[test]
fn a_repo_slug_names_the_repository_and_still_separates_same_named_ones() {
    let slug = repo_slug("/work/my-repo");

    assert!(slug.starts_with("my-repo-"), "{slug}");
    assert_eq!(slug, repo_slug("/work/my-repo"), "not stable");
    assert_ne!(
        slug,
        repo_slug("/elsewhere/my-repo"),
        "same name at a different path must not collide"
    );
}

#[test]
fn a_repo_slug_is_usable_as_a_directory_name() {
    let slug = repo_slug("/work/we ird:na/me?");
    assert!(
        slug.bytes()
            .all(|b| b.is_ascii_alphanumeric() || b == b'_' || b == b'-'),
        "{slug}"
    );
}

/// The offset basis is what a text of no bytes hashes to, and the others are
/// published values of the same hash.
#[test]
fn a_slug_ends_in_the_fnv_hash_of_the_path() {
    assert_eq!(repo_slug(""), "repo-cbf29ce484222325");
    assert_eq!(repo_slug("a"), "a-af63dc4c8601ec8c");
    assert_eq!(repo_slug("foobar"), "foobar-85944171f73967e8");
}

#[test]
fn a_slug_hashes_every_byte_of_a_name() {
    let hash = "/work/caf\u{e9}".bytes().fold(0xcbf2_9ce4_8422_2325_u64, |h, b| {
        (h ^ u64::from(b)).wrapping_mul(0x0000_0100_0000_01b3)
    });
    assert_eq!(repo_slug("/work/caf\u{e9}"), format!("caf--{hash:016x}"));
    assert_eq!(repo_slug("/").split('-').next(), Some("repo"));
}

#[test]
fn the_repository_owning_a_worktree_directory_can_be_read_back() {
    let record = record_repository_for_worktrees(Some("/wt"), "/tmp/x/some-repo").unwrap();
    assert_eq!(record.dir, format!("/wt/{}", repo_slug("/tmp/x/some-repo")));
    assert_eq!(record.marker, format!("{}/{REPOSITORY_MARKER}", record.dir));
    assert_eq!(
        record.marker,
        marker_path(&repo_worktrees_root(Some("/wt"), "/tmp/x/some-repo").unwrap())
    );
    assert_eq!(
        repository_owning_worktrees(Some(&record.body)).unwrap(),
        "/tmp/x/some-repo"
    );
}

#[test]
fn a_worktree_directory_without_a_marker_owns_nothing() {
    assert!(repository_owning_worktrees(None).is_none());
}

#[test]
fn a_marker_may_end_in_newlines() {
    assert_eq!(
        repository_owning_worktrees(Some("/work/acme\n\n")).unwrap(),
        "/work/acme"
    );
    assert_eq!(
        repository_owning_worktrees(Some("/work/a\nb")).unwrap(),
        "/work/a\nb"
    );
}

#[test]
fn the_override_wins_over_home_and_is_used_verbatim() {
    let chosen = worktrees_root_given(Some("/fast/disk/wt"), Some("/home/dev"));
    assert_eq!(chosen.unwrap(), "/fast/disk/wt");
}

#[test]
fn without_an_override_worktrees_land_under_home() {
    let chosen = worktrees_root_given(None::<&str>, Some("/home/dev"));
    assert_eq!(chosen.unwrap(), "/home/dev/.assembly/wt");
}

#[test]
fn with_neither_set_there_is_no_worktree_root_to_guess() {
    assert!(worktrees_root_given(None::<&str>, None::<&str>).is_none());
    assert_eq!(repo_worktrees_root(None, "/work/acme"), None);
    assert_eq!(worktree_root(None, "/work/acme", 1), None);
    assert_eq!(
        record_repository_for_worktrees(None, "/work/acme"),
        Err("HOME is unset, so worktrees have nowhere to live".to_string())
    );
}

#[test]
fn an_override_alone_is_enough_even_with_no_home() {
    let chosen = worktrees_root_given(Some("/scratch"), None::<&str>);
    assert_eq!(chosen.unwrap(), "/scratch");
    assert_eq!(WORKTREE_ROOT_VAR, "ASSEMBLY_WORKTREE_ROOT");
}

#[test]
fn a_checkout_is_one_level_below_its_job() {
    let paths = JobPaths {
        id: 3,
        dir: "/work/acme/.assembly/jobs/3".into(),
    };
    assert_eq!(
        paths.worktree(Some("/wt"), "/work/acme").unwrap(),
        format!("/wt/{}/3/checkout", repo_slug("/work/acme"))
    );
    assert_eq!(paths.worktree(None, "/work/acme"), None);
}

const SAMPLES: [&str; 24] = [
    "", "/", "//", "a", "a/", "/a", "/a/", "a/b", "a//b", "a/b/", "/a/b/c", ".", "./", "./a",
    "a/.", "a/./b", "..", "a/..", "../a", "/..", "/.", "//a//b//", "./.", "a/b/.././c",
];

#[test]
fn joining_is_what_the_standard_library_does() {
    for base in SAMPLES {
        for path in SAMPLES {
            let expected = Path::new(base).join(path);
            assert_eq!(
                join_path(base, path),
                expected.to_str().unwrap(),
                "{base:?} {path:?}"
            );
        }
    }
}

#[test]
fn parents_and_names_are_what_the_standard_library_says() {
    for path in SAMPLES {
        let std_path = Path::new(path);
        assert_eq!(
            parent_of(path).as_deref(),
            std_path.parent().map(|p| p.to_str().unwrap()),
            "{path:?}"
        );
        assert_eq!(
            file_name_of(path).as_deref(),
            std_path.file_name().map(|p| p.to_str().unwrap()),
            "{path:?}"
        );
        let above: Vec<&str> = std_path.ancestors().map(|p| p.to_str().unwrap()).collect();
        assert_eq!(ancestors(path), above, "{path:?}");
    }
}
