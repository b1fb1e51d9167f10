//! What happens to a job, and the log it is written to: one event per line,
//! only ever added to.

use crate::lines::{is_blank, lemma_first_index_is, lines, nonblank, nonblank_lines, pieces,
    without_return};
use crate::text::{opt_view, texts};
use crate::time::Timestamp;
use vstd::prelude::*;

verus! {

/// Everything that happens to one job.
///
/// A job's identity — its repository, ref, prompt and provider — lives in
/// `meta.json`, so no event repeats it.
#[derive(Debug, Clone, PartialEq, Eq)]
pub enum EventKind {
    /// A round began. Round 1 is the first attempt; higher rounds are revises.
    JobStarted { round: u32 },
    /// The checkout had changes, now recorded on the job's branch.
    JobCommitted { sha: String, files: usize, insertions: usize, deletions: usize },
    /// The branch was made durable. `pushed_to` names the remote it reached,
    /// or is `None` when the branch stayed a local ref — because the
    /// repository has no such remote, or because the remote refused the push.
    /// Both are complete outcomes, not degraded ones: the branch exists and
    /// holds the work.
    ///
    /// Emitted for failed jobs too, and whatever became of the push: a job
    /// leaves nothing but its branch, so this is what makes the work findable
    /// at all.
    JobBranchPublished { branch: String, pushed_to: Option<String> },
    /// `verify` ran to completion and rejected the work. Recorded before
    /// [`EventKind::JobFailed`], so a reader can tell a rejected job from one
    /// whose agent crashed.
    ///
    /// `reason` is how `verify` failed — `exit 1` — not what it printed; the
    /// command's output is in the job's log. Written only for a verdict
    /// `verify` actually reached.
    JobVerifyFailed { reason: String },
    JobFinished { exit_code: i32 },
    JobFailed { reason: String },
}

pub enum EventKindView {
    JobStarted { round: u32 },
    JobCommitted { sha: Seq<char>, files: usize, insertions: usize, deletions: usize },
    JobBranchPublished { branch: Seq<char>, pushed_to: Option<Seq<char>> },
    JobVerifyFailed { reason: Seq<char> },
    JobFinished { exit_code: i32 },
    JobFailed { reason: Seq<char> },
}

impl View for EventKind {
    type V = EventKindView;

    open spec fn view(&self) -> EventKindView {
        match self {
            EventKind::JobStarted { round } => EventKindView::JobStarted { round: *round },
            EventKind::JobCommitted { sha, files, insertions, deletions } =>
            EventKindView::JobCommitted {
                sha: sha@,
                files: *files,
                insertions: *insertions,
                deletions: *deletions,
            },
            EventKind::JobBranchPublished { branch, pushed_to } =>
            EventKindView::JobBranchPublished { branch: branch@, pushed_to: opt_view(*pushed_to) },
            EventKind::JobVerifyFailed { reason } => EventKindView::JobVerifyFailed {
                reason: reason@,
            },
            EventKind::JobFinished { exit_code } => EventKindView::JobFinished {
                exit_code: *exit_code,
            },
            EventKind::JobFailed { reason } => EventKindView::JobFailed { reason: reason@ },
        }
    }
}

/// Something that happened to a job, and when.
#[derive(Debug, Clone, PartialEq, Eq)]
pub struct Event {
    pub at: Timestamp,
    pub kind: EventKind,
}

pub struct EventView {
    pub at: (int, int),
    pub kind: EventKindView,
}

impl View for Event {
    type V = EventView;

    open spec fn view(&self) -> EventView {
        EventView { at: self.at@, kind: self.kind@ }
    }
}

/// The lines of a log that are there to be parsed: all but the blank ones.
pub fn event_lines(log: &str) -> (carrying: Vec<String>)
    ensures
        texts(carrying@) == nonblank(lines(log@)),
{
    nonblank_lines(log)
}

/// The events among lines that were parsed. A line that is no event is left
/// out.
pub open spec fn parsed_events(parsed: Seq<Option<Event>>) -> Seq<Event>
    decreases parsed.len(),
{
    if parsed.len() == 0 {
        Seq::empty()
    } else {
        let before = parsed_events(parsed.drop_last());
        match parsed.last() {
            Some(event) => before.push(event),
            None => before,
        }
    }
}

/// The events of a log, from what parsing its lines gave.
///
/// A line that does not parse is skipped, not fatal: the common cause is a
/// torn final line from a crash mid-write, and the events before it are still
/// the truth about what happened.
pub fn read_events(parsed: Vec<Option<Event>>) -> (events: Vec<Event>)
    ensures
        events@ == parsed_events(parsed@),
{
    let ghost all = parsed@;
    let mut events: Vec<Event> = Vec::new();
    assert(events@ =~= parsed_events(all.take(0)));
    for entry in it: parsed
        invariant
            it.seq() == all,
            events@ == parsed_events(all.take(it.index() as int)),
    {
        proof {
            assert(all.take(it.index() + 1).drop_last() =~= all.take(it.index() as int));
            assert(all.take(it.index() + 1).last() == entry);
        }
        if let Some(event) = entry {
            events.push(event);
        }
    }
    assert(all.take(all.len() as int) =~= all);
    events
}

proof fn lemma_parsed_events_add_up(first: Seq<Option<Event>>, then: Seq<Option<Event>>)
    ensures
        parsed_events(first + then) == parsed_events(first) + parsed_events(then),
    decreases then.len(),
{
    if then.len() == 0 {
        assert(first + then =~= first);
        assert(parsed_events(first) + parsed_events(then) =~= parsed_events(first));
    } else {
        lemma_parsed_events_add_up(first, then.drop_last());
        assert((first + then).drop_last() =~= first + then.drop_last());
        assert(parsed_events(first + then) =~= parsed_events(first) + parsed_events(then));
    }
}

/// A line that is no event costs only itself: the events before it and after
/// it are read as if it were not there.
pub proof fn law_unreadable_line_costs_only_itself(
    before: Seq<Option<Event>>,
    after: Seq<Option<Event>>,
)
    ensures
        parsed_events(before.push(None) + after) == parsed_events(before + after),
{
    lemma_parsed_events_add_up(before.push(None), after);
    lemma_parsed_events_add_up(before, after);
    assert(before.push(None).drop_last() =~= before);
}

/// What is written for one event, given how it is serialised: its line and
/// the newline that ends it.
pub fn framed(line: &str) -> (written: String)
    ensures
        written@ == line@.push('\n'),
{
    let mut written = String::from_str(line);
    written.push('\n');
    written
}

/// What a log holds after these lines were written to it.
pub open spec fn written(list: Seq<Seq<char>>) -> Seq<char>
    decreases list.len(),
{
    if list.len() == 0 {
        Seq::empty()
    } else {
        list[0].push('\n') + written(list.skip(1))
    }
}

/// Whether a line comes back from the log as it was written: it is all on one
/// line, does not end in a carriage return, and is not blank. A JSON object on
/// one line is such a line.
pub open spec fn is_whole_line(line: Seq<char>) -> bool {
    &&& forall|i: int| 0 <= i < line.len() ==> #[trigger] line[i] != '\n'
    &&& line.len() > 0 ==> line.last() != '\r'
    &&& !is_blank(line)
}

proof fn lemma_pieces_of_written(list: Seq<Seq<char>>, tail: Seq<char>)
    requires
        forall|k: int| 0 <= k < list.len() ==> is_whole_line(#[trigger] list[k]),
        forall|i: int| 0 <= i < tail.len() ==> #[trigger] tail[i] != '\n',
    ensures
        pieces(written(list) + tail, '\n') == list.push(tail),
    decreases list.len(),
{
    if list.len() == 0 {
        assert(written(list) + tail =~= tail);
        lemma_first_index_is(tail, '\n', tail.len() as int);
        assert(list.push(tail) =~= seq![tail]);
    } else {
        let line = list[0];
        let rest = list.skip(1);
        let log = written(list) + tail;
        assert(log =~= line.push('\n') + (written(rest) + tail));
        assert forall|i: int| 0 <= i < line.len() implies #[trigger] log[i] != '\n' by {
            assert(log[i] == line[i]);
        }
        assert(log[line.len() as int] == '\n');
        lemma_first_index_is(log, '\n', line.len() as int);
        assert(log.take(line.len() as int) =~= line);
        assert(log.skip(line.len() as int + 1) =~= written(rest) + tail);
        assert forall|k: int| 0 <= k < rest.len() implies is_whole_line(#[trigger] rest[k]) by {
            assert(rest[k] == list[k + 1]);
        }
        lemma_pieces_of_written(rest, tail);
        assert(seq![line] + rest.push(tail) =~= list.push(tail));
    }
}

proof fn lemma_carrying_all(list: Seq<Seq<char>>)
    requires
        forall|k: int| 0 <= k < list.len() ==> is_whole_line(#[trigger] list[k]),
    ensures
        nonblank(list) == list,
    decreases list.len(),
{
    if list.len() > 0 {
        lemma_carrying_all(list.drop_last());
        assert(is_whole_line(list[list.len() - 1]));
        assert(list.drop_last().push(list.last()) =~= list);
    } else {
        assert(nonblank(list) =~= list);
    }
}

/// Reading a log gives back the lines that were written to it, in order.
pub proof fn law_log_reads_back_what_was_written(list: Seq<Seq<char>>)
    requires
        forall|k: int| 0 <= k < list.len() ==> is_whole_line(#[trigger] list[k]),
    ensures
        nonblank(lines(written(list))) == list,
{
    let log = written(list);
    lemma_pieces_of_written(list, Seq::empty());
    assert(log + Seq::<char>::empty() =~= log);
    assert forall|k: int| 0 <= k < list.len() implies without_return(#[trigger] list[k])
        == list[k] by {
        assert(is_whole_line(list[k]));
    }
    assert(lines(log) =~= list);
    lemma_carrying_all(list);
}

/// A torn final line costs no line before it: the log reads back as what was
/// written whole, then the torn piece unless it is blank.
pub proof fn law_torn_line_loses_nothing_before_it(list: Seq<Seq<char>>, torn: Seq<char>)
    requires
        forall|k: int| 0 <= k < list.len() ==> is_whole_line(#[trigger] list[k]),
        forall|i: int| 0 <= i < torn.len() ==> #[trigger] torn[i] != '\n',
    ensures
        nonblank(lines(written(list) + torn)) == (if is_blank(torn) {
            list
        } else {
            list.push(torn)
        }),
{
    let log = written(list) + torn;
    lemma_pieces_of_written(list, torn);
    assert forall|k: int| 0 <= k < list.len() implies without_return(#[trigger] list[k])
        == list[k] by {
        assert(is_whole_line(list[k]));
    }
    lemma_carrying_all(list);
    if torn.len() == 0 {
        assert(lines(log) =~= list);
    } else {
        assert(lines(log) =~= list.push(torn));
        assert(list.push(torn).drop_last() =~= list);
    }
}

/// The events that are read from a log, each line parsed by `parse`.
pub open spec fn events_in(
    log: Seq<char>,
    parse: spec_fn(Seq<char>) -> Option<Event>,
) -> Seq<Event> {
    parsed_events(nonblank(lines(log)).map_values(parse))
}

proof fn lemma_all_parsed(parsed: Seq<Option<Event>>, events: Seq<Event>)
    requires
        parsed.len() == events.len(),
        forall|k: int| 0 <= k < events.len() ==> #[trigger] parsed[k] == Some(events[k]),
    ensures
        parsed_events(parsed) == events,
    decreases events.len(),
{
    if events.len() > 0 {
        lemma_all_parsed(parsed.drop_last(), events.drop_last());
        assert(parsed[parsed.len() - 1] == Some(events[events.len() - 1]));
        assert(events.drop_last().push(events.last()) =~= events);
    } else {
        assert(parsed_events(parsed) =~= events);
    }
}

/// Reading a log gives back the events that were written to it: none is lost,
/// none is added, and they keep their order. This holds of any way of writing
/// an event on a line of its own that parsing undoes.
pub proof fn law_events_read_back_as_written(
    events: Seq<Event>,
    write: spec_fn(Event) -> Seq<char>,
    parse: spec_fn(Seq<char>) -> Option<Event>,
)
    requires
        forall|k: int|
            0 <= k < events.len() ==> is_whole_line(write(#[trigger] events[k])) && parse(
                write(events[k]),
            ) == Some(events[k]),
    ensures
        events_in(written(events.map_values(write)), parse) == events,
{
    let list = events.map_values(write);
    assert forall|k: int| 0 <= k < list.len() implies is_whole_line(#[trigger] list[k]) by {
        assert(list[k] == write(events[k]));
    }
    law_log_reads_back_what_was_written(list);
    let parsed = list.map_values(parse);
    assert forall|k: int| 0 <= k < events.len() implies #[trigger] parsed[k] == Some(events[k]) by {
        assert(parsed[k] == parse(write(events[k])));
    }
    lemma_all_parsed(parsed, events);
}

/// A torn final line costs no event before it: as long as what is left of the
/// line is no event, the log reads back as the events that were written whole.
pub proof fn law_torn_line_costs_no_other_event(
    events: Seq<Event>,
    write: spec_fn(Event) -> Seq<char>,
    parse: spec_fn(Seq<char>) -> Option<Event>,
    torn: Seq<char>,
)
    requires
        forall|k: int|
            0 <= k < events.len() ==> is_whole_line(write(#[trigger] events[k])) && parse(
                write(events[k]),
            ) == Some(events[k]),
        forall|i: int| 0 <= i < torn.len() ==> #[trigger] torn[i] != '\n',
        parse(torn) is None,
    ensures
        events_in(written(events.map_values(write)) + torn, parse) == events,
{
    let list = events.map_values(write);
    assert forall|k: int| 0 <= k < list.len() implies is_whole_line(#[trigger] list[k]) by {
        assert(list[k] == write(events[k]));
    }
    law_torn_line_loses_nothing_before_it(list, torn);
    law_log_reads_back_what_was_written(list);
    law_events_read_back_as_written(events, write, parse);
    if !is_blank(torn) {
        let parsed = list.push(torn).map_values(parse);
        assert(parsed.drop_last() =~= list.map_values(parse));
        assert(parsed.last() == parse(torn));
    }
}

/// Adding to a log only adds: what was there is read as before, and the new
/// line after it.
pub proof fn law_appending_keeps_what_was_written(list: Seq<Seq<char>>, line: Seq<char>)
    ensures
        written(list.push(line)) == written(list) + line.push('\n'),
    decreases list.len(),
{
    let longer = list.push(line);
    if list.len() == 0 {
        assert(longer.skip(1) =~= Seq::<Seq<char>>::empty());
        assert(written(longer.skip(1)) == Seq::<char>::empty());
        assert(written(longer) =~= written(list) + line.push('\n'));
    } else {
        law_appending_keeps_what_was_written(list.skip(1), line);
        assert(longer.skip(1) =~= list.skip(1).push(line));
        assert(written(longer) =~= written(list) + line.push('\n'));
    }
}

/// What happens to one node of a graph of work, or to the run around it.
#[derive(Debug, Clone, PartialEq, Eq)]
pub enum NodeEventKind {
    /// Something that happened to the run, not to a node of it.
    RunLevel,
    NodeStarted { node: String, round: u32 },
    NodeFinished { node: String, exit_code: i32 },
    NodeFailed { node: String, reason: String },
    NodeSkipped { node: String, because: String },
    NodeCommitted { node: String, sha: String, files: usize, insertions: usize, deletions: usize },
    NodeBranchPublished { node: String, branch: String, pushed_to: Option<String> },
    NodeMerged { node: String, sha: String },
    NodeMergeConflicted { node: String, paths: Vec<String> },
    NodeAwaitingReview { node: String },
    NodeApproved { node: String },
    NodeRevisionRequested { node: String, feedback: String },
}

pub enum NodeEventKindView {
    RunLevel,
    NodeStarted { node: Seq<char>, round: u32 },
    NodeFinished { node: Seq<char>, exit_code: i32 },
    NodeFailed { node: Seq<char>, reason: Seq<char> },
    NodeSkipped { node: Seq<char>, because: Seq<char> },
    NodeCommitted {
        node: Seq<char>,
        sha: Seq<char>,
        files: usize,
        insertions: usize,
        deletions: usize,
    },
    NodeBranchPublished { node: Seq<char>, branch: Seq<char>, pushed_to: Option<Seq<char>> },
    NodeMerged { node: Seq<char>, sha: Seq<char> },
    NodeMergeConflicted { node: Seq<char>, paths: Seq<Seq<char>> },
    NodeAwaitingReview { node: Seq<char> },
    NodeApproved { node: Seq<char> },
    NodeRevisionRequested { node: Seq<char>, feedback: Seq<char> },
}

impl View for NodeEventKind {
    type V = NodeEventKindView;

    open spec fn view(&self) -> NodeEventKindView {
        match self {
            NodeEventKind::RunLevel => NodeEventKindView::RunLevel,
            NodeEventKind::NodeStarted { node, round } => NodeEventKindView::NodeStarted {
                node: node@,
                round: *round,
            },
            NodeEventKind::NodeFinished { node, exit_code } => NodeEventKindView::NodeFinished {
                node: node@,
                exit_code: *exit_code,
            },
            NodeEventKind::NodeFailed { node, reason } => NodeEventKindView::NodeFailed {
                node: node@,
                reason: reason@,
            },
            NodeEventKind::NodeSkipped { node, because } => NodeEventKindView::NodeSkipped {
                node: node@,
                because: because@,
            },
            NodeEventKind::NodeCommitted { node, sha, files, insertions, deletions } =>
            NodeEventKindView::NodeCommitted {
                node: node@,
                sha: sha@,
                files: *files,
                insertions: *insertions,
                deletions: *deletions,
            },
            NodeEventKind::NodeBranchPublished { node, branch, pushed_to } =>
            NodeEventKindView::NodeBranchPublished {
                node: node@,
                branch: branch@,
                pushed_to: opt_view(*pushed_to),
            },
            NodeEventKind::NodeMerged { node, sha } => NodeEventKindView::NodeMerged {
                node: node@,
                sha: sha@,
            },
            NodeEventKind::NodeMergeConflicted { node, paths } =>
            NodeEventKindView::NodeMergeConflicted { node: node@, paths: texts(paths@) },
            NodeEventKind::NodeAwaitingReview { node } => NodeEventKindView::NodeAwaitingReview {
                node: node@,
            },
            NodeEventKind::NodeApproved { node } => NodeEventKindView::NodeApproved { node: node@ },
            NodeEventKind::NodeRevisionRequested { node, feedback } =>
            NodeEventKindView::NodeRevisionRequested { node: node@, feedback: feedback@ },
        }
    }
}

impl NodeEventKindView {
    /// The node this happened to.
    pub open spec fn node(self) -> Option<Seq<char>> {
        match self {
            NodeEventKindView::RunLevel => None,
            NodeEventKindView::NodeStarted { node, .. } => Some(node),
            NodeEventKindView::NodeFinished { node, .. } => Some(node),
            NodeEventKindView::NodeFailed { node, .. } => Some(node),
            NodeEventKindView::NodeSkipped { node, .. } => Some(node),
            NodeEventKindView::NodeCommitted { node, .. } => Some(node),
            NodeEventKindView::NodeBranchPublished { node, .. } => Some(node),
            NodeEventKindView::NodeMerged { node, .. } => Some(node),
            NodeEventKindView::NodeMergeConflicted { node, .. } => Some(node),
            NodeEventKindView::NodeAwaitingReview { node } => Some(node),
            NodeEventKindView::NodeApproved { node } => Some(node),
            NodeEventKindView::NodeRevisionRequested { node, .. } => Some(node),
        }
    }
}

impl NodeEventKind {
    /// The node this happened to.
    pub fn node(&self) -> (name: Option<&String>)
        ensures
            match name {
                Some(name) => self@.node() == Some(name@),
                None => self@.node() is None,
            },
    {
        match self {
            NodeEventKind::RunLevel => None,
            NodeEventKind::NodeStarted { node, .. } => Some(node),
            NodeEventKind::NodeFinished { node, .. } => Some(node),
            NodeEventKind::NodeFailed { node, .. } => Some(node),
            NodeEventKind::NodeSkipped { node, .. } => Some(node),
            NodeEventKind::NodeCommitted { node, .. } => Some(node),
            NodeEventKind::NodeBranchPublished { node, .. } => Some(node),
            NodeEventKind::NodeMerged { node, .. } => Some(node),
            NodeEventKind::NodeMergeConflicted { node, .. } => Some(node),
            NodeEventKind::NodeAwaitingReview { node } => Some(node),
            NodeEventKind::NodeApproved { node } => Some(node),
            NodeEventKind::NodeRevisionRequested { node, .. } => Some(node),
        }
    }
}

/// Something that happened to a node, and when.
#[derive(Debug, Clone, PartialEq, Eq)]
pub struct NodeEvent {
    pub at: Timestamp,
    pub kind: NodeEventKind,
}

/// Exactly the lines that are events are read, in order.
pub proof fn law_exactly_the_events_are_read(parsed: Seq<Option<Event>>)
    ensures
        parsed_events(parsed) == parsed.filter_map(|entry: Option<Event>| entry),
    decreases parsed.len(),
{
    if parsed.len() > 0 {
        let rest = parsed.drop_last();
        law_exactly_the_events_are_read(rest);
        if let Some(event) = parsed.last() {
            assert(parsed_events(rest) + seq![event] =~= parsed_events(rest).push(event));
        }
    }
}

/// Every event of a node tells which node it is of, and only what concerns the
/// whole run tells of none.
pub proof fn law_an_event_names_its_node(kind: NodeEventKindView)
    ensures
        kind.node() is None <==> kind is RunLevel,
        kind matches NodeEventKindView::NodeStarted { node, .. } ==> kind.node() == Some(node),
        kind matches NodeEventKindView::NodeCommitted { node, .. } ==> kind.node() == Some(node),
        kind matches NodeEventKindView::NodeBranchPublished { node, .. } ==> kind.node() == Some(
            node,
        ),
        kind matches NodeEventKindView::NodeAwaitingReview { node } ==> kind.node() == Some(node),
        kind matches NodeEventKindView::NodeApproved { node } ==> kind.node() == Some(node),
        kind matches NodeEventKindView::NodeRevisionRequested { node, .. } ==> kind.node() == Some(
            node,
        ),
{
}

} // verus!
