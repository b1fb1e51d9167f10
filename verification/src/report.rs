//! The account of a job that its event log gives.

use crate::event::{Event, EventKind, EventKindView, EventView};
use crate::number::{decimal, decimal_of};
use crate::state::{replayed, JobState};
use crate::text::{opt_view, views};
use crate::time::{nanos_between, Span, Timestamp};
use vstd::prelude::*;

verus! {

/// How much a job changed, as recorded when its work was committed.
#[derive(Debug, Clone, Copy, PartialEq, Eq, Structural)]
pub struct DiffSummary {
    pub files: usize,
    pub insertions: usize,
    pub deletions: usize,
}

impl DiffSummary {
    /// `3 files +40/-2`.
    pub open spec fn text(self) -> Seq<char> {
        decimal(self.files as nat) + " file"@ + (if self.files == 1 {
            ""@
        } else {
            "s"@
        }) + " +"@ + decimal(self.insertions as nat) + "/-"@ + decimal(self.deletions as nat)
    }

    /// `3 files +40/-2`.
    pub fn to_text(&self) -> (text: String)
        ensures
            text@ == self.text(),
    {
        let mut text = decimal_of(self.files as u64);
        text.append(" file");
        text.append(
            if self.files == 1 {
                ""
            } else {
                "s"
            },
        );
        text.append(" +");
        text.append(decimal_of(self.insertions as u64).as_str());
        text.append("/-");
        text.append(decimal_of(self.deletions as u64).as_str());
        text
    }
}

/// Everything a job's event log says about it.
#[derive(Debug, Clone, PartialEq, Eq)]
pub struct JobReport {
    pub id: u64,
    pub state: JobState,
    /// How many rounds this job has had. 1 unless it has been revised.
    pub rounds: u32,
    /// Wall time of the most recent round, or `None` if it has not ended.
    pub duration: Option<Span>,
    /// What the job committed, or `None` if the agent changed nothing.
    pub diff: Option<DiffSummary>,
    /// Failure reason, when there is one.
    pub detail: Option<String>,
    /// The branch the job's work is on, once it has been published. This is
    /// the job's whole durable output, so a report without it is a job that
    /// has not produced anything yet.
    pub branch: Option<String>,
}

pub struct JobReportView {
    pub id: nat,
    pub state: JobState,
    pub rounds: nat,
    /// In nanoseconds.
    pub duration: Option<nat>,
    pub diff: Option<DiffSummary>,
    pub detail: Option<Seq<char>>,
    pub branch: Option<Seq<char>>,
}

impl View for JobReport {
    type V = JobReportView;

    open spec fn view(&self) -> JobReportView {
        JobReportView {
            id: self.id as nat,
            state: self.state,
            rounds: self.rounds as nat,
            duration: opt_view(self.duration),
            diff: self.diff,
            detail: opt_view(self.detail),
            branch: opt_view(self.branch),
        }
    }
}

/// A job's facts, accumulated as its event stream is folded.
pub struct JobProgressView {
    pub state: JobState,
    pub rounds: nat,
    pub attempt_started_at: Option<(int, int)>,
    /// In nanoseconds.
    pub last_attempt_duration: Option<nat>,
    pub committed_diff: Option<DiffSummary>,
    pub detail: Option<Seq<char>>,
    pub branch: Option<Seq<char>>,
}

/// The facts of a job nothing has happened to.
pub open spec fn no_progress() -> JobProgressView {
    JobProgressView {
        state: JobState::Pending,
        rounds: 0,
        attempt_started_at: None,
        last_attempt_duration: None,
        committed_diff: None,
        detail: None,
        branch: None,
    }
}

/// What a rejection by `verify` is told as.
pub open spec fn rejection(reason: Seq<char>) -> Seq<char> {
    "verify rejected the work: "@ + reason
}

impl JobProgressView {
    /// How long the round under way had lasted at `end`.
    pub open spec fn time_spent_until(self, end: (int, int)) -> Option<nat> {
        match self.attempt_started_at {
            Some(start) => if nanos_between(start, end) >= 0 {
                Some(nanos_between(start, end) as nat)
            } else {
                None
            },
            None => None,
        }
    }

    /// The facts after one more event.
    pub open spec fn after_event(self, event: EventView) -> JobProgressView {
        match event.kind {
            EventKindView::JobStarted { round } => JobProgressView {
                state: JobState::Running,
                rounds: if round as nat > self.rounds + 1 {
                    round as nat
                } else {
                    self.rounds + 1
                },
                attempt_started_at: Some(event.at),
                last_attempt_duration: None,
                committed_diff: None,
                detail: None,
                ..self
            },
            EventKindView::JobCommitted { files, insertions, deletions, .. } => JobProgressView {
                committed_diff: Some(DiffSummary { files, insertions, deletions }),
                ..self
            },
            EventKindView::JobBranchPublished { branch, .. } => JobProgressView {
                branch: Some(branch),
                ..self
            },
            EventKindView::JobVerifyFailed { reason } => JobProgressView {
                detail: Some(rejection(reason)),
                ..self
            },
            EventKindView::JobFinished { .. } => JobProgressView {
                state: JobState::Succeeded,
                last_attempt_duration: self.time_spent_until(event.at),
                ..self
            },
            EventKindView::JobFailed { reason } => JobProgressView {
                state: JobState::Failed,
                last_attempt_duration: self.time_spent_until(event.at),
                detail: Some(reason),
                ..self
            },
        }
    }
}

/// The facts a stream of events adds up to.
pub open spec fn progress_of(events: Seq<EventView>) -> JobProgressView
    decreases events.len(),
{
    if events.len() == 0 {
        no_progress()
    } else {
        progress_of(events.drop_last()).after_event(events.last())
    }
}

/// The report of a job, from the facts.
pub open spec fn report_of(id: nat, progress: JobProgressView) -> JobReportView {
    JobReportView {
        id,
        state: progress.state,
        rounds: if progress.rounds > 1 {
            progress.rounds
        } else {
            1
        },
        duration: progress.last_attempt_duration,
        diff: progress.committed_diff,
        detail: progress.detail,
        branch: progress.branch,
    }
}

/// A job's facts, accumulated as its event stream is folded.
struct JobProgress {
    state: JobState,
    rounds: u32,
    attempt_started_at: Option<Timestamp>,
    last_attempt_duration: Option<Span>,
    committed_diff: Option<DiffSummary>,
    detail: Option<String>,
    branch: Option<String>,
}

impl View for JobProgress {
    type V = JobProgressView;

    closed spec fn view(&self) -> JobProgressView {
        JobProgressView {
            state: self.state,
            rounds: self.rounds as nat,
            attempt_started_at: opt_view(self.attempt_started_at),
            last_attempt_duration: opt_view(self.last_attempt_duration),
            committed_diff: self.committed_diff,
            detail: opt_view(self.detail),
            branch: opt_view(self.branch),
        }
    }
}

impl JobProgress {
    /// Fold one event in.
    fn after_event(self, event: &Event) -> (progress: JobProgress)
        requires
            self@.after_event(event@).rounds <= u32::MAX,
        ensures
            progress@ == self@.after_event(event@),
    {
        let spent = self.time_spent_until(&event.at);
        match &event.kind {
            // A new round restarts the clock and clears the previous round's
            // duration, reason and diff, so a revised job reports its final
            // round.
            EventKind::JobStarted { round } => JobProgress {
                state: JobState::Running,
                rounds: if *round > self.rounds && *round - 1 > self.rounds {
                    *round
                } else {
                    self.rounds + 1
                },
                attempt_started_at: Some(event.at),
                last_attempt_duration: None,
                committed_diff: None,
                detail: None,
                ..self
            },
            EventKind::JobCommitted { files, insertions, deletions, .. } => JobProgress {
                committed_diff: Some(
                    DiffSummary { files: *files, insertions: *insertions, deletions: *deletions },
                ),
                ..self
            },
            // Publishing moves a ref, not the job's own progress — but it is
            // where the branch's name enters the record.
            EventKind::JobBranchPublished { branch, .. } => JobProgress {
                branch: Some(branch.clone()),
                ..self
            },
            // A progress marker, like `JobCommitted` — the transition to
            // `Failed` comes from the `JobFailed` that follows it, whose
            // reason then overwrites this one.
            EventKind::JobVerifyFailed { reason } => {
                let mut detail = String::from_str("verify rejected the work: ");
                detail.append(reason.as_str());
                JobProgress { detail: Some(detail), ..self }
            },
            EventKind::JobFinished { .. } => JobProgress {
                state: JobState::Succeeded,
                last_attempt_duration: spent,
                ..self
            },
            EventKind::JobFailed { reason } => JobProgress {
                state: JobState::Failed,
                last_attempt_duration: spent,
                detail: Some(reason.clone()),
                ..self
            },
        }
    }

    fn time_spent_until(&self, end: &Timestamp) -> (spent: Option<Span>)
        ensures
            opt_view(spent) == self@.time_spent_until(end@),
    {
        match &self.attempt_started_at {
            Some(start) => end.since(start),
            None => None,
        }
    }
}

proof fn lemma_rounds_only_grow(events: Seq<EventView>, upto: int)
    requires
        0 <= upto <= events.len(),
    ensures
        progress_of(events.take(upto)).rounds <= progress_of(events).rounds,
    decreases events.len() - upto,
{
    if upto == events.len() {
        assert(events.take(upto) =~= events);
    } else {
        lemma_rounds_only_grow(events, upto + 1);
        assert(events.take(upto + 1).drop_last() =~= events.take(upto));
    }
}

/// Whether the rounds that the events tell of can be counted.
pub fn rounds_fit(events: &[Event]) -> (yes: bool)
    ensures
        yes == (progress_of(views(events@)).rounds <= u32::MAX),
{
    let ghost all = views(events@);
    let mut rounds: u32 = 0;
    let mut at: usize = 0;
    while at < events.len()
        invariant
            at <= events.len(),
            all == views(events@),
            rounds == progress_of(all.take(at as int)).rounds,
        decreases events.len() - at,
    {
        proof {
            assert(all.take(at + 1).drop_last() =~= all.take(at as int));
            assert(all.take(at + 1).last() == events@[at as int]@);
            lemma_rounds_only_grow(all, at + 1);
        }
        if let EventKind::JobStarted { round } = &events[at].kind {
            if rounds == u32::MAX {
                return false;
            }
            rounds = if *round > rounds + 1 {
                *round
            } else {
                rounds + 1
            };
        }
        at = at + 1;
    }
    assert(all.take(at as int) =~= all);
    true
}

impl JobReport {
    /// Fold a job's event stream into the account `status` prints.
    ///
    /// A job with no events yet reports as `Pending` with one round, which is
    /// what a directory allocated but not yet run looks like.
    pub fn from_events(id: u64, events: &[Event]) -> (report: JobReport)
        requires
            progress_of(views(events@)).rounds <= u32::MAX,
        ensures
            report@ == report_of(id as nat, progress_of(views(events@))),
    {
        let ghost all = views(events@);
        let mut progress = JobProgress {
            state: JobState::Pending,
            rounds: 0,
            attempt_started_at: None,
            last_attempt_duration: None,
            committed_diff: None,
            detail: None,
            branch: None,
        };
        let mut at: usize = 0;
        while at < events.len()
            invariant
                at <= events.len(),
                all == views(events@),
                progress_of(all).rounds <= u32::MAX,
                progress@ == progress_of(all.take(at as int)),
            decreases events.len() - at,
        {
            proof {
                assert(all.take(at + 1).drop_last() =~= all.take(at as int));
                assert(all.take(at + 1).last() == events@[at as int]@);
                lemma_rounds_only_grow(all, at + 1);
            }
            progress = progress.after_event(&events[at]);
            at = at + 1;
        }
        assert(all.take(at as int) =~= all);
        JobReport {
            id,
            state: progress.state,
            rounds: if progress.rounds > 1 {
                progress.rounds
            } else {
                1
            },
            duration: progress.last_attempt_duration,
            diff: progress.committed_diff,
            detail: progress.detail,
            branch: progress.branch,
        }
    }

    /// The single line printed at the end of a job:
    /// `job 7: failed (round 2, 3 files +40/-2) — verify failed`.
    pub fn to_summary_line(&self) -> (line: String)
        ensures
            line@ == self@.summary_line(),
    {
        let mut line = String::from_str("job ");
        line.append(decimal_of(self.id).as_str());
        line.append(": ");
        line.append(self.state.label());
        line.append(" (round ");
        line.append(decimal_of(self.rounds as u64).as_str());
        if let Some(diff) = &self.diff {
            line.append(", ");
            line.append(diff.to_text().as_str());
        }
        line.append(")");
        if let Some(why) = &self.detail {
            line.append(" — ");
            line.append(why.as_str());
        }
        assert(line@ =~= self@.summary_line());
        line
    }
}

impl JobReportView {
    /// What a job came to, in one line.
    pub open spec fn summary_line(self) -> Seq<char> {
        "job "@ + decimal(self.id) + ": "@ + self.state.label_text() + " (round "@ + decimal(
            self.rounds,
        ) + (match self.diff {
            Some(diff) => ", "@ + diff.text(),
            None => Seq::empty(),
        }) + ")"@ + (match self.detail {
            Some(why) => " — "@ + why,
            None => Seq::empty(),
        })
    }
}

/// The state a report gives is the state the log replays to.
pub proof fn law_report_agrees_with_replay(events: Seq<EventView>)
    ensures
        progress_of(events).state == replayed(JobState::Pending, events),
    decreases events.len(),
{
    if events.len() > 0 {
        law_report_agrees_with_replay(events.drop_last());
    }
}

/// A new round starts afresh: the last round's duration, reason and diff are
/// gone, the job is running again, and the branch is still known.
pub proof fn law_new_round_starts_afresh(id: nat, events: Seq<EventView>, start: EventView)
    requires
        start.kind is JobStarted,
    ensures
        ({
            let before = progress_of(events);
            let after = progress_of(events.push(start));
            &&& after.state == JobState::Running
            &&& after.detail is None
            &&& after.committed_diff is None
            &&& after.branch == before.branch
            &&& after.rounds > before.rounds
            &&& report_of(id, after).duration is None
        }),
{
    assert(events.push(start).drop_last() =~= events);
}

/// Only a round that has ended has a duration: while the job is pending or
/// running, the report gives none.
pub proof fn law_an_unfinished_round_has_no_duration(id: nat, events: Seq<EventView>)
    ensures
        report_of(id, progress_of(events)).duration is Some ==> progress_of(events).state
            == JobState::Succeeded || progress_of(events).state == JobState::Failed,
    decreases events.len(),
{
    if events.len() > 0 {
        law_an_unfinished_round_has_no_duration(id, events.drop_last());
    }
}

/// A branch once published stays in the record, whatever happens next.
pub proof fn law_published_branch_stays_known(events: Seq<EventView>, later: Seq<EventView>)
    requires
        progress_of(events).branch is Some,
    ensures
        progress_of(events + later).branch is Some,
    decreases later.len(),
{
    if later.len() == 0 {
        assert(events + later =~= events);
    } else {
        law_published_branch_stays_known(events, later.drop_last());
        assert((events + later).drop_last() =~= events + later.drop_last());
    }
}

proof fn lemma_one_more(events: Seq<EventView>, event: EventView)
    ensures
        progress_of(events.push(event)) == progress_of(events).after_event(event),
{
    assert(events.push(event).drop_last() =~= events);
}

/// Whether an event starts a round or ends one.
pub open spec fn bounds_a_round(kind: EventKindView) -> bool {
    kind is JobStarted || kind is JobFinished || kind is JobFailed
}

proof fn lemma_within_a_round(before: Seq<EventView>, within: Seq<EventView>)
    requires
        forall|i: int| 0 <= i < within.len() ==> !bounds_a_round((#[trigger] within[i]).kind),
    ensures
        ({
            let then = progress_of(before);
            let now = progress_of(before + within);
            &&& now.attempt_started_at == then.attempt_started_at
            &&& now.last_attempt_duration == then.last_attempt_duration
            &&& now.state == then.state
            &&& now.rounds == then.rounds
        }),
    decreases within.len(),
{
    if within.len() == 0 {
        assert(before + within =~= before);
    } else {
        let rest = within.drop_last();
        assert forall|i: int| 0 <= i < rest.len() implies !bounds_a_round(
            (#[trigger] rest[i]).kind,
        ) by {
            assert(rest[i] == within[i]);
        }
        lemma_within_a_round(before, rest);
        assert(before + within =~= (before + rest).push(within.last()));
        lemma_one_more(before + rest, within.last());
        assert(!bounds_a_round(within[within.len() - 1].kind));
    }
}

/// A round that has ended, either way, took the time from its start to its
/// end, whatever happened in it and before it: to the nanosecond, as long as
/// neither moment falls into a leap second.
pub proof fn law_a_round_lasts_from_its_start_to_its_end(
    id: nat,
    before: Seq<EventView>,
    start: EventView,
    within: Seq<EventView>,
    end: EventView,
)
    requires
        start.kind is JobStarted,
        forall|i: int| 0 <= i < within.len() ==> !bounds_a_round((#[trigger] within[i]).kind),
        end.kind is JobFinished || end.kind is JobFailed,
    ensures
        ({
            let report = report_of(id, progress_of((before.push(start) + within).push(end)));
            let took = (end.at.0 - start.at.0) * 1_000_000_000 + end.at.1 - start.at.1;
            &&& nanos_between(start.at, end.at) >= 0 ==> report.duration == Some(
                nanos_between(start.at, end.at) as nat,
            )
            &&& start.at.1 < 1_000_000_000 && end.at.1 < 1_000_000_000 ==> report.duration == (
            if took >= 0 {
                Some(took as nat)
            } else {
                None
            })
        }),
{
    lemma_one_more(before, start);
    lemma_within_a_round(before.push(start), within);
    lemma_one_more(before.push(start) + within, end);
}

/// A job that was started and never again is running until its round ends,
/// however much is recorded meanwhile.
pub proof fn law_a_job_runs_until_its_round_ends(
    id: nat,
    before: Seq<EventView>,
    start: EventView,
    within: Seq<EventView>,
)
    requires
        start.kind is JobStarted,
        forall|i: int| 0 <= i < within.len() ==> !bounds_a_round((#[trigger] within[i]).kind),
    ensures
        report_of(id, progress_of(before.push(start) + within)).state == JobState::Running,
        report_of(id, progress_of(before.push(start) + within)).duration is None,
        report_of(id, progress_of(before.push(start) + within)).rounds == report_of(
            id,
            progress_of(before.push(start)),
        ).rounds,
{
    lemma_one_more(before, start);
    lemma_within_a_round(before.push(start), within);
}

/// Each event adds what it tells and leaves the rest of the report alone: a
/// commit its counts, a publication its branch, a failure its reason, and an
/// end its state.
pub proof fn law_each_event_tells_only_of_itself(
    id: nat,
    events: Seq<EventView>,
    event: EventView,
)
    ensures
        ({
            let then = report_of(id, progress_of(events));
            let now = report_of(id, progress_of(events.push(event)));
            &&& now.id == id
            &&& !(event.kind is JobStarted) ==> now.rounds == then.rounds
            &&& !(event.kind is JobBranchPublished) ==> now.branch == then.branch
            &&& !bounds_a_round(event.kind) ==> now.state == then.state && now.duration
                == then.duration
            &&& !(event.kind is JobStarted || event.kind is JobCommitted) ==> now.diff == then.diff
            &&& (event.kind is JobCommitted || event.kind is JobBranchPublished || event.kind is JobFinished)
                ==> now.detail == then.detail
            &&& match event.kind {
                EventKindView::JobCommitted { files, insertions, deletions, .. } => now.diff
                    matches Some(diff) && diff.files == files && diff.insertions == insertions
                    && diff.deletions == deletions,
                EventKindView::JobBranchPublished { branch, .. } => now.branch == Some(branch),
                EventKindView::JobVerifyFailed { reason } => now.detail matches Some(detail)
                    && reason.is_suffix_of(detail),
                EventKindView::JobFailed { reason } => now.state == JobState::Failed && now.detail
                    == Some(reason),
                EventKindView::JobFinished { .. } => now.state == JobState::Succeeded,
                EventKindView::JobStarted { .. } => now.state == JobState::Running,
            }
        }),
{
    lemma_one_more(events, event);
    if let EventKindView::JobVerifyFailed { reason } = event.kind {
        let told = "verify rejected the work: "@ + reason;
        assert(told.skip(told.len() - reason.len()) =~= reason);
    }
}

/// How many of the events start a round.
pub open spec fn starts(events: Seq<EventView>) -> nat {
    events.filter(|event: EventView| event.kind is JobStarted).len()
}

/// Rounds are counted one by one, and no lower than any of them is numbered:
/// there are as many as there were starts, unless one was numbered higher. A
/// job with no round yet is told of as being in its first.
pub proof fn law_rounds_are_counted_and_never_undercounted(
    id: nat,
    events: Seq<EventView>,
    round: u32,
    at: (int, int),
)
    ensures
        ({
            let then = progress_of(events).rounds;
            let started = EventView { at, kind: EventKindView::JobStarted { round } };
            let now = progress_of(events.push(started)).rounds;
            &&& then >= starts(events)
            &&& now > then && now >= round
            &&& now == then + 1 || now == round
            &&& report_of(id, progress_of(events)).rounds >= 1
            &&& then >= 1 ==> report_of(id, progress_of(events)).rounds == then
            &&& starts(events) == 0 ==> report_of(id, progress_of(events)).rounds == 1
        }),
    decreases events.len(),
{
    reveal(Seq::filter);
    let started = EventView { at, kind: EventKindView::JobStarted { round } };
    lemma_one_more(events, started);
    if events.len() > 0 {
        let rest = events.drop_last();
        law_rounds_are_counted_and_never_undercounted(id, rest, round, at);
        assert(rest.push(events.last()) =~= events);
        lemma_one_more(rest, events.last());
        if starts(events) == 0 {
            lemma_no_rounds(events);
        }
    }
}

proof fn lemma_no_rounds(events: Seq<EventView>)
    requires
        starts(events) == 0,
    ensures
        progress_of(events).rounds == 0,
    decreases events.len(),
{
    reveal(Seq::filter);
    if events.len() > 0 {
        lemma_no_rounds(events.drop_last());
    }
}

/// A log in which every round is numbered no higher than it stands counts as
/// many rounds as it has starts.
#[verifier::rlimit(40)]
pub proof fn law_rounds_numbered_in_turn_are_counted_exactly(id: nat, events: Seq<EventView>)
    requires
        forall|i: int|
            0 <= i < events.len() ==> ((#[trigger] events[i]).kind matches EventKindView::JobStarted {
                round,
            } ==> round <= starts(events.take(i + 1))),
    ensures
        progress_of(events).rounds == starts(events),
        starts(events) >= 1 ==> report_of(id, progress_of(events)).rounds == starts(events),
    decreases events.len(),
{
    reveal(Seq::filter);
    if events.len() > 0 {
        let rest = events.drop_last();
        assert forall|i: int| 0 <= i < rest.len() implies ((
        #[trigger] rest[i]).kind matches EventKindView::JobStarted { round } ==> round <= starts(
            rest.take(i + 1),
        )) by {
            assert(rest[i] == events[i]);
            assert(rest.take(i + 1) =~= events.take(i + 1));
        }
        law_rounds_numbered_in_turn_are_counted_exactly(id, rest);
        let last = events[events.len() - 1];
        assert(events.take(events.len() as int) =~= events);
        assert(last == events.last());
    }
}

/// The line a job is summed up in names it, its state and its round, and tells
/// its reason whole, at the end.
pub proof fn law_the_summary_tells_the_reason_whole(report: JobReportView)
    ensures
        exists|a: Seq<char>, b: Seq<char>, c: Seq<char>, d: Seq<char>|
            report.summary_line() == #[trigger] (a + decimal(report.id) + b
                + report.state.label_text() + c + decimal(report.rounds) + d),
        report.detail matches Some(why) ==> why.is_suffix_of(report.summary_line()),
        report.detail is None ==> report.summary_line().last() == ')',
{
    let a = "job "@;
    let b = ": "@;
    let c = " (round "@;
    let d = (match report.diff {
        Some(diff) => ", "@ + diff.text(),
        None => Seq::empty(),
    }) + ")"@ + (match report.detail {
        Some(why) => " — "@ + why,
        None => Seq::empty(),
    });
    let line = report.summary_line();
    assert(line =~= a + decimal(report.id) + b + report.state.label_text() + c + decimal(
        report.rounds,
    ) + d);
    reveal_strlit(")");
    if let Some(why) = report.detail {
        assert(line.skip(line.len() - why.len()) =~= why);
    }
}

/// The counts are told in full: files, then lines added, then lines taken
/// away; and `file` is in the plural exactly when there is not one.
pub proof fn law_the_counts_are_told_in_full(diff: DiffSummary)
    ensures
        decimal(diff.files as nat).is_prefix_of(diff.text()),
        decimal(diff.deletions as nat).is_suffix_of(diff.text()),
        exists|a: Seq<char>, b: Seq<char>|
            diff.text() == #[trigger] (decimal(diff.files as nat) + a + decimal(
                diff.insertions as nat,
            ) + b + decimal(diff.deletions as nat)),
        diff.text()[decimal(diff.files as nat).len() as int + 5] == 's' <==> diff.files != 1,
{
    let text = diff.text();
    let first = decimal(diff.files as nat);
    let last = decimal(diff.deletions as nat);
    let a = " file"@ + (if diff.files == 1 {
        ""@
    } else {
        "s"@
    }) + " +"@;
    reveal_strlit(" file");
    reveal_strlit("");
    reveal_strlit("s");
    reveal_strlit(" +");
    assert(text =~= first + a + decimal(diff.insertions as nat) + "/-"@ + last);
    assert(text[first.len() as int + 5] == a[5]);
    assert(text.take(first.len() as int) =~= first);
    assert(text.skip(text.len() - last.len()) =~= last);
}

/// A new round takes back what the last one left to tell, but for its branch;
/// and of a job nothing has happened to there is nothing to tell.
pub proof fn law_a_new_round_starts_afresh(id: nat, events: Seq<EventView>, start: EventView)
    requires
        start.kind is JobStarted,
    ensures
        ({
            let then = report_of(id, progress_of(events));
            let now = report_of(id, progress_of(events.push(start)));
            &&& now.state == JobState::Running
            &&& now.duration is None && now.diff is None && now.detail is None
            &&& now.branch == then.branch
        }),
        ({
            let nothing = report_of(id, progress_of(Seq::empty()));
            &&& nothing.state == JobState::Pending
            &&& nothing.duration is None && nothing.diff is None && nothing.detail is None
                && nothing.branch is None
        }),
{
    lemma_one_more(events, start);
}

} // verus!
