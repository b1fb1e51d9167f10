//! Where a job stands, derived purely from its events.

use crate::event::{Event, EventKind, EventKindView, EventView};
use crate::text::views;
use vstd::prelude::*;

verus! {

/// A job's state, derived purely from its event stream.
///
/// Nothing may live here that cannot be reconstructed from `events.jsonl`.
#[derive(Debug, Clone, Copy, PartialEq, Eq, Structural)]
pub enum JobState {
    Pending,
    Running,
    Succeeded,
    Failed,
}

impl Default for JobState {
    fn default() -> (state: JobState)
        ensures
            state == JobState::Pending,
    {
        JobState::Pending
    }
}

/// Whether an event moves a job, rather than marking progress.
pub open spec fn is_transition(kind: EventKindView) -> bool {
    kind is JobStarted || kind is JobFinished || kind is JobFailed
}

/// The state after one event.
pub open spec fn state_after(state: JobState, kind: EventKindView) -> JobState {
    match kind {
        EventKindView::JobStarted { .. } => JobState::Running,
        EventKindView::JobFinished { .. } => JobState::Succeeded,
        EventKindView::JobFailed { .. } => JobState::Failed,
        EventKindView::JobCommitted { .. } => state,
        EventKindView::JobBranchPublished { .. } => state,
        EventKindView::JobVerifyFailed { .. } => state,
    }
}

/// The state after events, one by one.
pub open spec fn replayed(state: JobState, events: Seq<EventView>) -> JobState
    decreases events.len(),
{
    if events.len() == 0 {
        state
    } else {
        state_after(replayed(state, events.drop_last()), events.last().kind)
    }
}

impl JobState {
    pub open spec fn label_text(self) -> Seq<char> {
        match self {
            JobState::Pending => "pending"@,
            JobState::Running => "running"@,
            JobState::Succeeded => "succeeded"@,
            JobState::Failed => "failed"@,
        }
    }

    pub fn label(self) -> (label: &'static str)
        ensures
            label@ == self.label_text(),
    {
        match self {
            JobState::Pending => "pending",
            JobState::Running => "running",
            JobState::Succeeded => "succeeded",
            JobState::Failed => "failed",
        }
    }

    /// Move this state on by one event.
    pub fn apply(&mut self, kind: &EventKind)
        ensures
            *final(self) == state_after(*old(self), kind@),
    {
        *self = self.after_kind(kind);
    }

    fn after_kind(self, kind: &EventKind) -> (state: JobState)
        ensures
            state == state_after(self, kind@),
    {
        match kind {
            EventKind::JobStarted { .. } => JobState::Running,
            EventKind::JobFinished { .. } => JobState::Succeeded,
            EventKind::JobFailed { .. } => JobState::Failed,
            // Progress markers, not transitions. Listed one by one rather
            // than behind a catch-all, so a new event kind is a compile error
            // here instead of a silent omission.
            EventKind::JobCommitted { .. } => self,
            EventKind::JobBranchPublished { .. } => self,
            EventKind::JobVerifyFailed { .. } => self,
        }
    }

    /// This state after `event`.
    pub fn after_event(self, event: &Event) -> (state: JobState)
        ensures
            state == state_after(self, event@.kind),
    {
        self.after_kind(&event.kind)
    }

    /// The state a whole event stream leads to.
    pub fn replay(events: &[Event]) -> (state: JobState)
        ensures
            state == replayed(JobState::Pending, views(events@)),
    {
        let mut state = JobState::Pending;
        let mut at: usize = 0;
        let ghost all = views(events@);
        while at < events.len()
            invariant
                at <= events.len(),
                all == views(events@),
                state == replayed(JobState::Pending, all.take(at as int)),
            decreases events.len() - at,
        {
            assert(all.take(at + 1).drop_last() =~= all.take(at as int));
            assert(all.take(at + 1).last() == events@[at as int]@);
            state = state.after_event(&events[at]);
            at = at + 1;
        }
        assert(all.take(at as int) =~= all);
        state
    }
}

/// Replaying a log in two parts gives what replaying it whole gives.
pub proof fn law_replay_continues(state: JobState, first: Seq<EventView>, then: Seq<EventView>)
    ensures
        replayed(state, first + then) == replayed(replayed(state, first), then),
    decreases then.len(),
{
    if then.len() == 0 {
        assert(first + then =~= first);
    } else {
        law_replay_continues(state, first, then.drop_last());
        assert((first + then).drop_last() =~= first + then.drop_last());
    }
}

/// A commit, a published branch and a verdict are progress, not completion:
/// they leave the state as it was.
pub proof fn law_progress_decides_nothing(state: JobState, events: Seq<EventView>)
    requires
        forall|i: int| 0 <= i < events.len() ==> !is_transition((#[trigger] events[i]).kind),
    ensures
        replayed(state, events) == state,
    decreases events.len(),
{
    if events.len() > 0 {
        law_progress_decides_nothing(state, events.drop_last());
        assert(!is_transition(events[events.len() - 1].kind));
    }
}

/// Where a job stands is decided by the last event that moves it, whatever
/// came before.
pub proof fn law_last_transition_decides(
    state: JobState,
    before: Seq<EventView>,
    decisive: EventView,
    after: Seq<EventView>,
)
    requires
        is_transition(decisive.kind),
        forall|i: int| 0 <= i < after.len() ==> !is_transition((#[trigger] after[i]).kind),
    ensures
        replayed(state, before.push(decisive) + after) == state_after(
            JobState::Pending,
            decisive.kind,
        ),
{
    law_replay_continues(state, before.push(decisive), after);
    law_progress_decides_nothing(replayed(state, before.push(decisive)), after);
    assert(before.push(decisive).drop_last() =~= before);
}

/// A job runs from its start, and stands where its end put it, whatever state
/// it was in and whatever progress is recorded after.
pub proof fn law_a_job_stands_where_its_last_event_put_it(
    state: JobState,
    before: Seq<EventView>,
    decisive: EventView,
    after: Seq<EventView>,
)
    requires
        forall|i: int|
            0 <= i < after.len() ==> {
                let kind = (#[trigger] after[i]).kind;
                kind is JobCommitted || kind is JobBranchPublished || kind is JobVerifyFailed
            },
    ensures
        ({
            let now = replayed(state, before.push(decisive) + after);
            &&& decisive.kind is JobStarted ==> now == JobState::Running
            &&& decisive.kind is JobFinished ==> now == JobState::Succeeded
            &&& decisive.kind is JobFailed ==> now == JobState::Failed
        }),
        replayed(state, after) == state,
{
    assert forall|i: int| 0 <= i < after.len() implies !is_transition(
        (#[trigger] after[i]).kind,
    ) by {}
    law_progress_decides_nothing(state, after);
    if is_transition(decisive.kind) {
        law_last_transition_decides(state, before, decisive, after);
    }
}

/// States are told apart by their labels.
pub proof fn law_labels_tell_states_apart(a: JobState, b: JobState)
    ensures
        a.label_text() == b.label_text() <==> a == b,
{
    reveal_strlit("pending");
    reveal_strlit("running");
    reveal_strlit("succeeded");
    reveal_strlit("failed");
    assert("pending"@[0] == 'p');
    assert("running"@[0] == 'r');
    assert("succeeded"@[0] == 's');
    assert("failed"@[0] == 'f');
}

} // verus!
