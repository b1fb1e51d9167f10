use assembly_line::event::{Event, EventKind};
use assembly_line::report::{rounds_fit, DiffSummary, JobReport};
use assembly_line::state::JobState;
use assembly_line::time::{Span, Timestamp};

fn at(secs: i64, kind: EventKind) -> Event {
    Event {
        at: Timestamp::new(secs, 0).unwrap(),
        kind,
    }
}

fn started(secs: i64, round: u32) -> Event {
    at(secs, EventKind::JobStarted { round })
}

fn committed(secs: i64) -> Event {
    at(
        secs,
        EventKind::JobCommitted {
            sha: "abc".into(),
            files: 3,
            insertions: 40,
            deletions: 2,
        },
    )
}

#[test]
fn a_job_with_no_events_is_pending() {
    let report = JobReport::from_events(7, &[]);
    assert_eq!(
        report,
        JobReport {
            id: 7,
            state: JobState::Pending,
            rounds: 1,
            duration: None,
            diff: None,
            detail: None,
            branch: None,
        }
    );
    assert_eq!(report.to_summary_line(), "job 7: pending (round 1)");
}

#[test]
fn a_rejected_job_says_why() {
    let report = JobReport::from_events(
        7,
        &[
            started(0, 1),
            at(5, EventKind::JobFinished { exit_code: 0 }),
            started(10, 2),
            committed(12),
            at(
                12,
                EventKind::JobBranchPublished {
                    branch: "al/job-7".into(),
                    pushed_to: None,
                },
            ),
            at(
                13,
                EventKind::JobVerifyFailed {
                    reason: "exit 1".into(),
                },
            ),
            at(
                14,
                EventKind::JobFailed {
                    reason: "verify failed".into(),
                },
            ),
        ],
    );
    assert_eq!(
        report.to_summary_line(),
        "job 7: failed (round 2, 3 files +40/-2) \u{2014} verify failed"
    );
    assert_eq!(report.duration, Some(Span::from_secs(4)));
    assert_eq!(report.branch.as_deref(), Some("al/job-7"));
}

#[test]
fn a_rejection_alone_is_already_a_detail() {
    let report = JobReport::from_events(
        1,
        &[
            started(0, 1),
            at(
                1,
                EventKind::JobVerifyFailed {
                    reason: "exit 1".into(),
                },
            ),
        ],
    );
    assert_eq!(report.state, JobState::Running);
    assert_eq!(
        report.detail.as_deref(),
        Some("verify rejected the work: exit 1")
    );
}

#[test]
fn a_new_round_clears_the_last_ones_reason_and_diff() {
    let report = JobReport::from_events(
        1,
        &[
            started(0, 1),
            committed(1),
            at(
                1,
                EventKind::JobBranchPublished {
                    branch: "al/job-1".into(),
                    pushed_to: Some("origin".into()),
                },
            ),
            at(
                2,
                EventKind::JobFailed {
                    reason: "exit 1".into(),
                },
            ),
            started(9, 2),
        ],
    );
    assert_eq!(report.state, JobState::Running);
    assert_eq!(report.rounds, 2);
    assert_eq!(report.diff, None);
    assert_eq!(report.detail, None);
    assert_eq!(report.duration, None, "the last round has not ended");
    assert_eq!(
        report.branch.as_deref(),
        Some("al/job-1"),
        "a published branch stays known"
    );
}

/// Rounds are counted at least one by one, whatever the events call them.
#[test]
fn rounds_never_count_backwards() {
    let rounds = |numbers: &[u32]| {
        let events: Vec<Event> = numbers.iter().map(|n| started(0, *n)).collect();
        JobReport::from_events(1, &events).rounds
    };
    assert_eq!(rounds(&[1, 1, 1]), 3);
    assert_eq!(rounds(&[5, 2]), 6);
    assert_eq!(rounds(&[0]), 1);
}

#[test]
fn a_clock_that_ran_backwards_gives_no_duration() {
    let report = JobReport::from_events(
        1,
        &[
            started(10, 1),
            at(5, EventKind::JobFinished { exit_code: 0 }),
        ],
    );
    assert_eq!(report.duration, None);
    let no_start = JobReport::from_events(1, &[at(5, EventKind::JobFinished { exit_code: 0 })]);
    assert_eq!(no_start.duration, None);
    assert_eq!(no_start.state, JobState::Succeeded);
}

#[test]
fn one_file_is_not_files() {
    let told = |files: usize| {
        DiffSummary {
            files,
            insertions: 1,
            deletions: 0,
        }
        .to_text()
    };
    assert_eq!(told(0), "0 files +1/-0");
    assert_eq!(told(1), "1 file +1/-0");
    assert_eq!(told(2), "2 files +1/-0");
}

#[test]
fn the_report_agrees_with_replay() {
    let events = [
        started(0, 1),
        committed(1),
        at(2, EventKind::JobFinished { exit_code: 0 }),
        started(3, 2),
        at(
            4,
            EventKind::JobFailed {
                reason: "exit 1".into(),
            },
        ),
    ];
    for upto in 0..=events.len() {
        assert_eq!(
            JobReport::from_events(1, &events[..upto]).state,
            JobState::replay(&events[..upto])
        );
    }
}

#[test]
fn rounds_are_countable_up_to_a_limit() {
    assert!(rounds_fit(&[]));
    assert!(rounds_fit(&[started(0, u32::MAX)]));
    assert!(!rounds_fit(&[started(0, u32::MAX), started(1, 1)]));
    assert!(rounds_fit(&[started(0, u32::MAX - 1), started(1, 1)]));
}
