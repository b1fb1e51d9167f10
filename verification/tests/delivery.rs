use assembly_line::config::{Delivery, DeliveryMode};
use assembly_line::delivery::{deliver, Delivered, DeliverStep};
use assembly_line::git::GitOutput;

fn output(code: i32, stdout: &str, stderr: &str) -> GitOutput {
    GitOutput {
        exit_code: code,
        stdout: stdout.to_string(),
        stderr: stderr.to_string(),
    }
}

fn step(
    mode: DeliveryMode,
    listed: Option<GitOutput>,
    pushed: Option<GitOutput>,
    answer: Option<Result<GitOutput, String>>,
) -> DeliverStep {
    deliver(
        "/r",
        &Delivery { mode },
        "origin",
        "al/job-1",
        "main",
        &listed,
        &pushed,
        &answer,
    )
}

#[test]
fn delivery_is_skipped_when_it_is_turned_off() {
    let outcome = step(DeliveryMode::NoDelivery, None, None, None);
    assert_eq!(
        outcome,
        DeliverStep::Done(Ok(Delivered::Skipped(
            "delivery mode is \"none\"".to_string()
        )))
    );
}

#[test]
fn delivery_without_a_remote_is_skipped_rather_than_failing() {
    match step(DeliveryMode::Pr, Some(output(0, "", "")), None, None) {
        DeliverStep::Done(Ok(Delivered::Skipped(why))) => assert_eq!(
            why,
            "the repository has no 'origin' remote, so the branch stays local"
        ),
        other => panic!("expected a skip, got {other:?}"),
    }
}

#[test]
fn a_pull_request_is_asked_for_once_the_branch_is_pushed() {
    let listed = || Some(output(0, "origin\n", ""));
    match step(DeliveryMode::Pr, None, None, None) {
        DeliverStep::Run(call) => assert_eq!(call.args, vec!["remote"]),
        other => panic!("{other:?}"),
    }
    match step(DeliveryMode::Pr, listed(), None, None) {
        DeliverStep::Run(call) => {
            assert_eq!(call.dir, "/r");
            assert_eq!(call.args, vec!["push", "origin", "al/job-1"]);
        }
        other => panic!("{other:?}"),
    }
    match step(DeliveryMode::Pr, listed(), Some(output(0, "", "")), None) {
        DeliverStep::AskForPullRequest { dir, args } => {
            assert_eq!(dir, "/r");
            assert_eq!(
                args,
                vec!["pr", "create", "--base", "main", "--head", "al/job-1", "--fill"]
            );
        }
        other => panic!("{other:?}"),
    }
}

#[test]
fn git_failing_is_the_only_failure() {
    assert_eq!(
        step(DeliveryMode::Pr, Some(output(1, "", "x")), None, None),
        DeliverStep::Done(Err("remote failed (exit 1): x".into()))
    );
    assert_eq!(
        step(
            DeliveryMode::Pr,
            Some(output(0, "origin", "")),
            Some(output(1, "", "rejected\n")),
            None
        ),
        DeliverStep::Done(Err("push origin al/job-1 failed (exit 1): rejected".into()))
    );
}

#[test]
fn whatever_gh_says_the_branch_is_pushed() {
    let ended = |answer: Result<GitOutput, String>| {
        match step(
            DeliveryMode::Pr,
            Some(output(0, "origin", "")),
            Some(output(0, "", "")),
            Some(answer),
        ) {
            DeliverStep::Done(Ok(delivered)) => delivered,
            other => panic!("{other:?}"),
        }
    };
    assert_eq!(
        ended(Err("not found".into())),
        Delivered::Pushed {
            branch: "al/job-1".into(),
            because: "could not run `gh`: not found".into(),
        }
    );
    assert_eq!(
        ended(Ok(output(1, "", " no auth \n"))),
        Delivered::Pushed {
            branch: "al/job-1".into(),
            because: "no auth".into(),
        }
    );
    assert_eq!(
        ended(Ok(output(0, "https://example.test/pull/3\n", "hint"))),
        Delivered::Opened {
            url: "https://example.test/pull/3".into(),
        }
    );
}

#[test]
fn every_delivery_is_told_in_one_line() {
    assert_eq!(
        Delivered::Skipped("why".into()).message(),
        "not delivered: why"
    );
    assert_eq!(
        Delivered::Pushed {
            branch: "b".into(),
            because: "c".into()
        }
        .message(),
        "pushed b \u{2014} no pull request opened: c"
    );
    assert_eq!(Delivered::Opened { url: "u".into() }.message(), "opened u");
}
