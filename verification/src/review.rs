//! The review inbox: which nodes are waiting for a human, folded from the
//! event log.
//!
//! Review is a second axis, orthogonal to execution. A node is done because it
//! ran; whether anyone has looked at it is tracked here.

use crate::event::{NodeEvent, NodeEventKind, NodeEventKindView};
use crate::number::{decimal, decimal_of};
use crate::report::DiffSummary;
use crate::text::{opt_view, same_text, views};
use vstd::prelude::*;
use vstd::utf8::encode_utf8;

verus! {

/// Where a node stands with a human.
#[derive(Debug, Clone, Copy, PartialEq, Eq, Structural)]
pub enum ReviewState {
    /// The node declared no gate, so nobody is expected to look at it.
    NotGated,
    /// Merged on `verify` alone with its gate deferred. This is the inbox.
    Unreviewed,
    Approved,
    /// Sent back. The node's next round carries the feedback.
    RevisionRequested,
}

impl Default for ReviewState {
    fn default() -> (state: ReviewState)
        ensures
            state == ReviewState::NotGated,
    {
        ReviewState::NotGated
    }
}

impl ReviewState {
    pub open spec fn label_text(self) -> Seq<char> {
        match self {
            ReviewState::NotGated => "not gated"@,
            ReviewState::Unreviewed => "unreviewed"@,
            ReviewState::Approved => "approved"@,
            ReviewState::RevisionRequested => "revision requested"@,
        }
    }

    pub fn label(self) -> (label: &'static str)
        ensures
            label@ == self.label_text(),
    {
        match self {
            ReviewState::NotGated => "not gated",
            ReviewState::Unreviewed => "unreviewed",
            ReviewState::Approved => "approved",
            ReviewState::RevisionRequested => "revision requested",
        }
    }
}

/// One node's standing under review, and what is needed in order to judge
/// it: the branch to read and how much it changed.
#[derive(Debug, Clone, PartialEq, Eq)]
pub struct ReviewItem {
    pub node: String,
    pub state: ReviewState,
    /// The branch carrying the work — what is actually read.
    pub branch: Option<String>,
    pub diff: Option<DiffSummary>,
    /// The most recent feedback given, when the node was sent back.
    pub feedback: Option<String>,
}

pub struct ReviewItemView {
    pub node: Seq<char>,
    pub standing: ReviewProgressView,
}

/// One node's review facts.
pub struct ReviewProgressView {
    pub state: ReviewState,
    pub branch: Option<Seq<char>>,
    pub diff: Option<DiffSummary>,
    pub feedback: Option<Seq<char>>,
}

impl View for ReviewItem {
    type V = ReviewItemView;

    open spec fn view(&self) -> ReviewItemView {
        ReviewItemView {
            node: self.node@,
            standing: ReviewProgressView {
                state: self.state,
                branch: opt_view(self.branch),
                diff: self.diff,
                feedback: opt_view(self.feedback),
            },
        }
    }
}

/// Where a node stands that nothing has happened to.
pub open spec fn no_standing() -> ReviewProgressView {
    ReviewProgressView { state: ReviewState::NotGated, branch: None, diff: None, feedback: None }
}

impl ReviewProgressView {
    /// The facts after one more event of the node.
    pub open spec fn after_event(self, kind: NodeEventKindView) -> ReviewProgressView {
        match kind {
            NodeEventKindView::NodeCommitted { files, insertions, deletions, .. } =>
            ReviewProgressView {
                diff: Some(DiffSummary { files, insertions, deletions }),
                ..self
            },
            NodeEventKindView::NodeBranchPublished { branch, .. } => ReviewProgressView {
                branch: Some(branch),
                ..self
            },
            NodeEventKindView::NodeAwaitingReview { .. } => ReviewProgressView {
                state: ReviewState::Unreviewed,
                ..self
            },
            NodeEventKindView::NodeApproved { .. } => ReviewProgressView {
                state: ReviewState::Approved,
                ..self
            },
            NodeEventKindView::NodeRevisionRequested { feedback, .. } => ReviewProgressView {
                state: ReviewState::RevisionRequested,
                feedback: Some(feedback),
                ..self
            },
            NodeEventKindView::NodeStarted { .. } => ReviewProgressView {
                state: ReviewState::NotGated,
                diff: None,
                ..self
            },
            _ => self,
        }
    }
}

/// Where `node` stands among the items; their number when it is not there.
pub open spec fn place_of(items: Seq<ReviewItemView>, node: Seq<char>) -> int
    decreases items.len(),
{
    if items.len() == 0 || items[0].node == node {
        0
    } else {
        1 + place_of(items.skip(1), node)
    }
}

/// The items after one more event: the node's own item changed, or a new item
/// for a node not seen before.
pub open spec fn items_after(items: Seq<ReviewItemView>, kind: NodeEventKindView) -> Seq<
    ReviewItemView,
> {
    match kind.node() {
        None => items,
        Some(node) => {
            let at = place_of(items, node);
            if at < items.len() {
                items.update(
                    at,
                    ReviewItemView { node, standing: items[at].standing.after_event(kind) },
                )
            } else {
                items.push(ReviewItemView { node, standing: no_standing().after_event(kind) })
            }
        },
    }
}

/// The items a stream of events adds up to.
pub open spec fn items_of(kinds: Seq<NodeEventKindView>) -> Seq<ReviewItemView>
    decreases kinds.len(),
{
    if kinds.len() == 0 {
        Seq::empty()
    } else {
        items_after(items_of(kinds.drop_last()), kinds.last())
    }
}

/// What happened, event by event.
pub open spec fn kinds_of(events: Seq<NodeEvent>) -> Seq<NodeEventKindView> {
    Seq::new(events.len(), |i: int| events[i].kind@)
}

proof fn lemma_place_of(items: Seq<ReviewItemView>, node: Seq<char>, at: int)
    requires
        0 <= at <= items.len(),
        at < items.len() ==> items[at].node == node,
        forall|i: int| 0 <= i < at ==> (#[trigger] items[i]).node != node,
    ensures
        place_of(items, node) == at,
    decreases items.len(),
{
    if at > 0 {
        assert(items[0].node != node);
        assert forall|i: int| 0 <= i < at - 1 implies (#[trigger] items.skip(1)[i]).node != node by {
            assert(items.skip(1)[i] == items[i + 1]);
        }
        lemma_place_of(items.skip(1), node, at - 1);
    }
}

#[derive(Debug, Clone, PartialEq, Eq)]
pub struct ReviewInbox {
    pub run_id: u64,
    /// Every node the log mentions, in the order it was first seen.
    pub items: Vec<ReviewItem>,
}

impl ReviewItem {
    fn copy(&self) -> (copy: ReviewItem)
        ensures
            copy == *self,
    {
        ReviewItem {
            node: self.node.clone(),
            state: self.state,
            branch: self.branch.clone(),
            diff: self.diff,
            feedback: self.feedback.clone(),
        }
    }

    /// This item after one more event of its node.
    fn after_event(self, kind: &NodeEventKind) -> (item: ReviewItem)
        ensures
            item@ == (ReviewItemView {
                node: self@.node,
                standing: self@.standing.after_event(kind@),
            }),
    {
        match kind {
            NodeEventKind::NodeCommitted { files, insertions, deletions, .. } => ReviewItem {
                diff: Some(
                    DiffSummary { files: *files, insertions: *insertions, deletions: *deletions },
                ),
                ..self
            },
            NodeEventKind::NodeBranchPublished { branch, .. } => ReviewItem {
                branch: Some(branch.clone()),
                ..self
            },
            NodeEventKind::NodeAwaitingReview { .. } => ReviewItem {
                state: ReviewState::Unreviewed,
                ..self
            },
            NodeEventKind::NodeApproved { .. } => ReviewItem {
                state: ReviewState::Approved,
                ..self
            },
            NodeEventKind::NodeRevisionRequested { feedback, .. } => ReviewItem {
                state: ReviewState::RevisionRequested,
                feedback: Some(feedback.clone()),
                ..self
            },
            // A new round starts over: the node is back in flight, and
            // whatever it leaves is a matter for another look.
            NodeEventKind::NodeStarted { .. } => ReviewItem {
                state: ReviewState::NotGated,
                diff: None,
                ..self
            },
            _ => self,
        }
    }
}

/// Fold one event into the items.
fn fold_event(items: &mut Vec<ReviewItem>, kind: &NodeEventKind)
    ensures
        views(final(items)@) == items_after(views(old(items)@), kind@),
{
    let node = match kind.node() {
        None => {
            return;
        },
        Some(node) => node,
    };
    let ghost before = views(items@);
    let mut at: usize = 0;
    while at < items.len() && items[at].node != *node
        invariant
            at <= items.len(),
            before == views(items@),
            forall|i: int| 0 <= i < at ==> (#[trigger] before[i]).node != node@,
        decreases items.len() - at,
    {
        assert(before[at as int] == items@[at as int]@);
        at = at + 1;
    }
    proof {
        if at < items.len() {
            assert(before[at as int] == items@[at as int]@);
        }
        lemma_place_of(before, node@, at as int);
    }
    if at < items.len() {
        let item = items[at].copy().after_event(kind);
        items.set(at, item);
        assert(views(items@) =~= items_after(before, kind@));
    } else {
        let item = ReviewItem {
            node: node.clone(),
            state: ReviewState::NotGated,
            branch: None,
            diff: None,
            feedback: None,
        };
        items.push(item.after_event(kind));
        assert(views(items@) =~= items_after(before, kind@));
    }
}

/// `text` filled up with spaces to `width` characters.
pub open spec fn padded(text: Seq<char>, width: nat) -> Seq<char> {
    text + Seq::new(
        if width > text.len() {
            (width - text.len()) as nat
        } else {
            0
        },
        |i: int| ' ',
    )
}

/// `text` filled up with spaces to `width` characters.
fn pad(text: &str, width: usize) -> (filled: String)
    ensures
        filled@ == padded(text@, width as nat),
{
    let mut filled = String::from_str(text);
    let mut at: usize = text.unicode_len();
    let ghost begin = at;
    while at < width
        invariant
            begin == text@.len(),
            begin <= at,
            at <= width || at == begin,
            filled@ == text@ + Seq::new((at - begin) as nat, |i: int| ' '),
        decreases width - at,
    {
        filled.push(' ');
        at = at + 1;
        assert(filled@ =~= text@ + Seq::new((at - begin) as nat, |i: int| ' '));
    }
    assert(filled@ =~= padded(text@, width as nat));
    filled
}

/// The widest node name, in bytes.
pub open spec fn node_column(items: Seq<ReviewItemView>) -> nat
    decreases items.len(),
{
    if items.len() == 0 {
        0
    } else {
        let before = node_column(items.drop_last());
        let width = encode_utf8(items.last().node).len();
        if width > before {
            width
        } else {
            before
        }
    }
}

/// One line of the listing.
pub open spec fn row(item: ReviewItemView, column: nat) -> Seq<char> {
    "  ? "@ + padded(item.node, column) + "  "@ + padded(
        match item.standing.diff {
            Some(diff) => diff.text(),
            None => Seq::empty(),
        },
        16,
    ) + "  "@ + (match item.standing.branch {
        Some(branch) => branch,
        None => Seq::empty(),
    }) + "\n"@
}

/// The lines of the listing.
pub open spec fn rows(items: Seq<ReviewItemView>, column: nat) -> Seq<char>
    decreases items.len(),
{
    if items.len() == 0 {
        Seq::empty()
    } else {
        rows(items.drop_last(), column) + row(items.last(), column)
    }
}

/// The items that merged with their gate deferred and have not been ruled on.
pub open spec fn waiting(items: Seq<ReviewItem>) -> Seq<ReviewItem> {
    items.filter(|item: ReviewItem| item.state == ReviewState::Unreviewed)
}

/// What `assembly review` prints.
pub open spec fn listing(run_id: nat, items: Seq<ReviewItemView>) -> Seq<char> {
    if items.len() == 0 {
        "run "@ + decimal(run_id) + ": nothing awaiting review\n"@
    } else {
        "run "@ + decimal(run_id) + ": "@ + decimal(items.len()) + " awaiting review\n\n"@ + rows(
            items,
            node_column(items),
        ) + "\nassembly review "@ + decimal(run_id) + " --approve <node>\nassembly review "@
            + decimal(run_id) + " --revise <node> \"what to change\"\n"@
    }
}

fn row_of(item: &ReviewItem, column: usize) -> (line: String)
    ensures
        line@ == row(item@, column as nat),
{
    let mut line = String::from_str("  ? ");
    line.append(pad(item.node.as_str(), column).as_str());
    line.append("  ");
    let diff = match &item.diff {
        Some(diff) => diff.to_text(),
        None => String::new(),
    };
    line.append(pad(diff.as_str(), 16).as_str());
    line.append("  ");
    match &item.branch {
        Some(branch) => {
            line.append(branch.as_str());
        },
        None => {},
    }
    line.append("\n");
    assert(line@ =~= row(item@, column as nat));
    line
}

impl ReviewInbox {
    /// Fold an event stream into each node's review standing.
    ///
    /// The order is the order nodes first appear, which is the order they ran
    /// — more useful to read than alphabetical.
    pub fn from_events(run_id: u64, events: &[NodeEvent]) -> (inbox: ReviewInbox)
        ensures
            inbox.run_id == run_id,
            views(inbox.items@) == items_of(kinds_of(events@)),
    {
        let ghost all = kinds_of(events@);
        let mut items: Vec<ReviewItem> = Vec::new();
        let mut at: usize = 0;
        assert(views(items@) =~= items_of(all.take(0)));
        while at < events.len()
            invariant
                at <= events.len(),
                all == kinds_of(events@),
                views(items@) == items_of(all.take(at as int)),
            decreases events.len() - at,
        {
            assert(all.take(at + 1).drop_last() =~= all.take(at as int));
            assert(all.take(at + 1).last() == events@[at as int].kind@);
            fold_event(&mut items, &events[at].kind);
            at = at + 1;
        }
        assert(all.take(at as int) =~= all);
        ReviewInbox { run_id, items }
    }

    /// The inbox proper: nodes that merged with their gate deferred and have
    /// not been ruled on.
    pub fn awaiting_review(&self) -> (inbox: Vec<&ReviewItem>)
        ensures
            inbox@.len() == waiting(self.items@).len(),
            forall|i: int| 0 <= i < inbox@.len() ==> *#[trigger] inbox@[i] == waiting(self.items@)[i],
    {
        let mut inbox: Vec<&ReviewItem> = Vec::new();
        let mut at: usize = 0;
        let ghost is_waiting = |item: ReviewItem| item.state == ReviewState::Unreviewed;
        proof {
            reveal(Seq::filter);
            assert(self.items@.take(0).filter(is_waiting) =~= Seq::empty());
        }
        while at < self.items.len()
            invariant
                at <= self.items.len(),
                is_waiting == (|item: ReviewItem| item.state == ReviewState::Unreviewed),
                inbox@.len() == self.items@.take(at as int).filter(is_waiting).len(),
                forall|i: int|
                    0 <= i < inbox@.len() ==> *#[trigger] inbox@[i] == self.items@.take(
                        at as int,
                    ).filter(is_waiting)[i],
            decreases self.items.len() - at,
        {
            proof {
                reveal(Seq::filter);
                assert(self.items@.take(at + 1).drop_last() =~= self.items@.take(at as int));
                assert(self.items@.take(at + 1).last() == self.items@[at as int]);
            }
            if self.items[at].state == ReviewState::Unreviewed {
                inbox.push(&self.items[at]);
            }
            at = at + 1;
        }
        assert(self.items@.take(at as int) =~= self.items@);
        inbox
    }

    /// Where `node` stands.
    pub fn item(&self, node: &str) -> (found: Option<&ReviewItem>)
        ensures
            match found {
                Some(item) => place_of(views(self.items@), node@) < self.items.len() && *item
                    == self.items@[place_of(views(self.items@), node@)] && item.node@ == node@,
                None => forall|i: int|
                    0 <= i < self.items.len() ==> (#[trigger] self.items@[i]).node@ != node@,
            },
    {
        let ghost all = views(self.items@);
        let mut at: usize = 0;
        while at < self.items.len()
            invariant
                at <= self.items.len(),
                all == views(self.items@),
                forall|i: int| 0 <= i < at ==> (#[trigger] all[i]).node != node@,
            decreases self.items.len() - at,
        {
            assert(all[at as int] == self.items@[at as int]@);
            if same_text(self.items[at].node.as_str(), node) {
                proof {
                    lemma_place_of(all, node@, at as int);
                }
                return Some(&self.items[at]);
            }
            at = at + 1;
        }
        assert forall|i: int| 0 <= i < self.items.len() implies (
        #[trigger] self.items@[i]).node@ != node@ by {
            assert(all[i].node != node@);
        }
        None
    }

    /// What `assembly review` prints: the queue, then how to act on it.
    pub fn to_terminal_list(&self) -> (text: String)
        ensures
            text@ == listing(self.run_id as nat, views(waiting(self.items@))),
    {
        let inbox = self.awaiting_review();
        let ghost all = views(waiting(self.items@));
        let mut text = String::from_str("run ");
        text.append(decimal_of(self.run_id).as_str());
        if inbox.len() == 0 {
            text.append(": nothing awaiting review\n");
            return text;
        }
        text.append(": ");
        text.append(decimal_of(inbox.len() as u64).as_str());
        text.append(" awaiting review\n\n");
        let mut column: usize = 0;
        let mut at: usize = 0;
        while at < inbox.len()
            invariant
                at <= inbox.len(),
                all.len() == inbox.len(),
                forall|i: int| 0 <= i < inbox@.len() ==> inbox@[i]@ == #[trigger] all[i],
                column == node_column(all.take(at as int)),
            decreases inbox.len() - at,
        {
            assert(all.take(at + 1).drop_last() =~= all.take(at as int));
            assert(all.take(at + 1).last() == all[at as int]);
            let width: usize = inbox[at].node.as_str().as_bytes().len();
            if width > column {
                column = width;
            }
            at = at + 1;
        }
        assert(all.take(at as int) =~= all);
        let mut listed = String::new();
        let mut at: usize = 0;
        assert(listed@ =~= rows(all.take(0), column as nat));
        while at < inbox.len()
            invariant
                at <= inbox.len(),
                all.len() == inbox.len(),
                forall|i: int| 0 <= i < inbox@.len() ==> inbox@[i]@ == #[trigger] all[i],
                listed@ == rows(all.take(at as int), column as nat),
            decreases inbox.len() - at,
        {
            assert(all.take(at + 1).drop_last() =~= all.take(at as int));
            assert(all.take(at + 1).last() == all[at as int]);
            listed.append(row_of(inbox[at], column).as_str());
            at = at + 1;
        }
        assert(all.take(at as int) =~= all);
        text.append(listed.as_str());
        text.append("\nassembly review ");
        text.append(decimal_of(self.run_id).as_str());
        text.append(" --approve <node>\nassembly review ");
        text.append(decimal_of(self.run_id).as_str());
        text.append(" --revise <node> \"what to change\"\n");
        text
    }
}

/// Where `node` stands by its own events alone.
pub open spec fn standing_of(kinds: Seq<NodeEventKindView>, node: Seq<char>) -> ReviewProgressView
    decreases kinds.len(),
{
    if kinds.len() == 0 {
        no_standing()
    } else {
        let before = standing_of(kinds.drop_last(), node);
        if kinds.last().node() == Some(node) {
            before.after_event(kinds.last())
        } else {
            before
        }
    }
}

/// Whether an event speaks of `node`.
pub open spec fn is_mentioned(kinds: Seq<NodeEventKindView>, node: Seq<char>) -> bool {
    exists|i: int| 0 <= i < kinds.len() && (#[trigger] kinds[i]).node() == Some(node)
}

proof fn lemma_place_of_bounds(items: Seq<ReviewItemView>, node: Seq<char>)
    ensures
        0 <= place_of(items, node) <= items.len(),
        place_of(items, node) < items.len() ==> items[place_of(items, node)].node == node,
        forall|i: int| 0 <= i < place_of(items, node) ==> (#[trigger] items[i]).node != node,
    decreases items.len(),
{
    if items.len() > 0 && items[0].node != node {
        lemma_place_of_bounds(items.skip(1), node);
        assert forall|i: int| 0 <= i < place_of(items, node) implies (
        #[trigger] items[i]).node != node by {
            if i > 0 {
                assert(items.skip(1)[i - 1] == items[i]);
            }
        }
    }
}

/// The inbox lists each node the log mentions once, and each stands where its
/// own events put it: nothing that happens to another node counts.
pub proof fn law_each_node_stands_on_its_own_events(
    kinds: Seq<NodeEventKindView>,
    node: Seq<char>,
)
    ensures
        ({
            let items = items_of(kinds);
            let at = place_of(items, node);
            &&& at < items.len() <==> is_mentioned(kinds, node)
            &&& at < items.len() ==> items[at].node == node && items[at].standing == standing_of(
                kinds,
                node,
            )
            &&& at >= items.len() ==> standing_of(kinds, node) == no_standing()
            &&& forall|i: int, j: int|
                0 <= i < j < items.len() ==> (#[trigger] items[i]).node != (
                #[trigger] items[j]).node
        }),
    decreases kinds.len(),
{
    let items = items_of(kinds);
    lemma_place_of_bounds(items, node);
    if kinds.len() > 0 {
        let rest = kinds.drop_last();
        let last = kinds.last();
        let before = items_of(rest);
        law_each_node_stands_on_its_own_events(rest, node);
        lemma_place_of_bounds(before, node);
        assert(is_mentioned(kinds, node) <==> is_mentioned(rest, node) || last.node() == Some(
            node,
        )) by {
            if is_mentioned(rest, node) {
                let i = choose|i: int|
                    0 <= i < rest.len() && (#[trigger] rest[i]).node() == Some(node);
                assert(kinds[i].node() == Some(node));
            }
            if last.node() == Some(node) {
                assert(kinds[kinds.len() - 1].node() == Some(node));
            }
            if is_mentioned(kinds, node) && last.node() != Some(node) {
                let i = choose|i: int|
                    0 <= i < kinds.len() && (#[trigger] kinds[i]).node() == Some(node);
                assert(rest[i].node() == Some(node));
            }
        }
        if let Some(changed) = last.node() {
            law_each_node_stands_on_its_own_events(rest, changed);
            lemma_place_of_bounds(before, changed);
            let at = place_of(before, changed);
            let own = place_of(before, node);
            if at < before.len() {
                assert forall|i: int| 0 <= i < items.len() implies (
                #[trigger] items[i]).node == before[i].node by {}
                lemma_place_of(items, node, own);
            } else if node == changed {
                lemma_place_of(items, node, before.len() as int);
            } else if own < before.len() {
                lemma_place_of(items, node, own);
            } else {
                lemma_place_of(items, node, items.len() as int);
            }
        }
    }
}

/// A ruling takes a node out of the inbox, and so does a new round; feedback
/// outlives the round that answers it; and nobody else is touched.
pub proof fn law_ruling_takes_a_node_out_of_the_inbox(
    kinds: Seq<NodeEventKindView>,
    ruling: NodeEventKindView,
    node: Seq<char>,
    other: Seq<char>,
)
    requires
        ruling.node() == Some(node),
        ruling is NodeApproved || ruling is NodeRevisionRequested || ruling is NodeStarted,
        other != node,
    ensures
        ({
            let before = standing_of(kinds, node);
            let after = standing_of(kinds.push(ruling), node);
            &&& after.state != ReviewState::Unreviewed
            &&& after.branch == before.branch
            &&& after.feedback == (match ruling {
                NodeEventKindView::NodeRevisionRequested { feedback, .. } => Some(feedback),
                _ => before.feedback,
            })
        }),
        standing_of(kinds.push(ruling), other) == standing_of(kinds, other),
{
    assert(kinds.push(ruling).drop_last() =~= kinds);
}

/// Each event of a node changes of its standing what it tells of, and nothing
/// else: a commit the counts, a publication the branch, a request for review
/// and a ruling the state, and a new round takes the counts and the state back.
pub proof fn law_each_event_changes_what_it_tells(
    kinds: Seq<NodeEventKindView>,
    kind: NodeEventKindView,
    node: Seq<char>,
)
    requires
        kind.node() == Some(node),
    ensures
        ({
            let before = standing_of(kinds, node);
            let after = standing_of(kinds.push(kind), node);
            &&& !(kind is NodeAwaitingReview || kind is NodeApproved || kind is NodeRevisionRequested
                || kind is NodeStarted) ==> after.state == before.state
            &&& !(kind is NodeBranchPublished) ==> after.branch == before.branch
            &&& !(kind is NodeCommitted || kind is NodeStarted) ==> after.diff == before.diff
            &&& !(kind is NodeRevisionRequested) ==> after.feedback == before.feedback
            &&& kind is NodeAwaitingReview ==> after.state == ReviewState::Unreviewed
            &&& kind is NodeApproved ==> after.state == ReviewState::Approved
            &&& kind is NodeRevisionRequested ==> after.state == ReviewState::RevisionRequested
            &&& kind is NodeStarted ==> after.state == ReviewState::NotGated && after.diff is None
            &&& (kind matches NodeEventKindView::NodeRevisionRequested { feedback, .. }
                ==> after.feedback == Some(feedback))
            &&& (kind matches NodeEventKindView::NodeBranchPublished { branch, .. }
                ==> after.branch == Some(branch))
            &&& (kind matches NodeEventKindView::NodeCommitted { files, insertions, deletions, .. }
                ==> after.diff == Some(DiffSummary { files, insertions, deletions }))
        }),
        standing_of(Seq::empty(), node).state == ReviewState::NotGated,
        standing_of(Seq::empty(), node).branch is None,
        standing_of(Seq::empty(), node).diff is None,
        standing_of(Seq::empty(), node).feedback is None,
{
    assert(kinds.push(kind).drop_last() =~= kinds);
}

/// Nodes keep the order in which the log first speaks of them: what happens
/// later moves none of them.
pub proof fn law_nodes_keep_their_order(kinds: Seq<NodeEventKindView>, kind: NodeEventKindView)
    ensures
        ({
            let before = items_of(kinds);
            let after = items_of(kinds.push(kind));
            &&& before.len() <= after.len() <= before.len() + 1
            &&& forall|i: int|
                0 <= i < before.len() ==> (#[trigger] after[i]).node == before[i].node
            &&& forall|i: int|
                0 <= i < before.len() && kind.node() != Some(before[i].node) ==> (
                #[trigger] after[i]) == before[i]
        }),
{
    assert(kinds.push(kind).drop_last() =~= kinds);
    if let Some(node) = kind.node() {
        lemma_place_of_bounds(items_of(kinds), node);
    }
}

/// The column is as wide as the widest name, no wider and no narrower.
pub proof fn law_the_column_fits_every_name(items: Seq<ReviewItemView>)
    ensures
        forall|i: int|
            0 <= i < items.len() ==> encode_utf8((#[trigger] items[i]).node).len() <= node_column(
                items,
            ),
        items.len() > 0 ==> exists|i: int|
            0 <= i < items.len() && encode_utf8((#[trigger] items[i]).node).len() == node_column(
                items,
            ),
        items.len() == 0 ==> node_column(items) == 0,
    decreases items.len(),
{
    if items.len() > 0 {
        let rest = items.drop_last();
        let last = items.len() - 1;
        law_the_column_fits_every_name(rest);
        assert forall|i: int| 0 <= i < items.len() implies encode_utf8((#[trigger] items[i]).node).len()
            <= node_column(items) by {
            if i < last {
                assert(rest[i] == items[i]);
            }
        }
        if encode_utf8(items[last].node).len() != node_column(items) {
            let i = choose|i: int|
                0 <= i < rest.len() && encode_utf8((#[trigger] rest[i]).node).len() == node_column(
                    rest,
                );
            assert(items[i] == rest[i]);
        }
    }
}

/// Filling up keeps the text, adds nothing but spaces, and stops at the width
/// or at the text's own length, whichever is more.
pub proof fn law_filling_up_adds_only_spaces(text: Seq<char>, width: nat)
    ensures
        text.is_prefix_of(padded(text, width)),
        padded(text, width).len() == (if width > text.len() {
            width
        } else {
            text.len()
        }),
        forall|i: int|
            text.len() <= i < padded(text, width).len() ==> #[trigger] padded(text, width)[i]
                == ' ',
{
    assert(padded(text, width).take(text.len() as int) =~= text);
}

/// How much a node's work changed, in words; nothing where it is not known.
pub open spec fn counts_of(item: ReviewItemView) -> Seq<char> {
    match item.standing.diff {
        Some(diff) => diff.text(),
        None => Seq::empty(),
    }
}

/// The branch that carries a node's work; nothing where it is not known.
pub open spec fn branch_of(item: ReviewItemView) -> Seq<char> {
    match item.standing.branch {
        Some(branch) => branch,
        None => Seq::empty(),
    }
}

/// Each node that waits has its own line, in order.
pub proof fn law_each_waiting_node_has_its_line(
    first: Seq<ReviewItemView>,
    item: ReviewItemView,
    then: Seq<ReviewItemView>,
    column: nat,
)
    ensures
        rows(first.push(item) + then, column) == rows(first, column) + row(item, column) + rows(
            then,
            column,
        ),
        rows(Seq::empty(), column) == Seq::<char>::empty(),
    decreases then.len(),
{
    if then.len() == 0 {
        assert(first.push(item) + then =~= first.push(item));
        assert(first.push(item).drop_last() =~= first);
        assert(rows(first, column) + row(item, column) + rows(then, column) =~= rows(first, column)
            + row(item, column));
    } else {
        law_each_waiting_node_has_its_line(first, item, then.drop_last(), column);
        assert((first.push(item) + then).drop_last() =~= first.push(item) + then.drop_last());
        assert(rows(first.push(item) + then, column) =~= rows(first, column) + row(item, column)
            + rows(then, column));
    }
}

/// A node's line holds its name, then its counts, then its branch, and ends
/// there.
pub proof fn law_a_line_tells_of_its_node(item: ReviewItemView, column: nat)
    ensures
        exists|a: Seq<char>, b: Seq<char>, c: Seq<char>|
            row(item, column) == #[trigger] (a + item.node + b + counts_of(item) + c + branch_of(
                item,
            ) + "\n"@),
{
    let told = counts_of(item);
    let branch = branch_of(item);
    let a = "  ? "@;
    let named = padded(item.node, column);
    let counted = padded(told, 16);
    let b = named.skip(item.node.len() as int) + "  "@;
    let c = counted.skip(told.len() as int) + "  "@;
    assert(named =~= item.node + named.skip(item.node.len() as int));
    assert(counted =~= told + counted.skip(told.len() as int));
    assert(row(item, column) == a + named + "  "@ + counted + "  "@ + branch + "\n"@);
    assert(a + named + "  "@ =~= a + item.node + b);
    assert((a + item.node + b) + counted + "  "@ =~= (a + item.node + b) + told + c);
}

/// The listing names the run, counts the nodes that wait and holds their lines.
pub proof fn law_the_listing_holds_every_line(run_id: nat, items: Seq<ReviewItemView>)
    ensures
        items.len() > 0 ==> exists|a: Seq<char>, b: Seq<char>, c: Seq<char>, d: Seq<char>|
            listing(run_id, items) == #[trigger] (a + decimal(run_id) + b + decimal(items.len()) + c
                + rows(items, node_column(items)) + d),
        exists|a: Seq<char>, b: Seq<char>|
            listing(run_id, items) == #[trigger] (a + decimal(run_id) + b),
{
    if items.len() > 0 {
        let a = "run "@;
        let b = ": "@;
        let c = " awaiting review\n\n"@;
        let d = "\nassembly review "@ + decimal(run_id)
            + " --approve <node>\nassembly review "@ + decimal(run_id)
            + " --revise <node> \"what to change\"\n"@;
        assert(listing(run_id, items) =~= a + decimal(run_id) + b + decimal(items.len()) + c + rows(
            items,
            node_column(items),
        ) + d);
        assert(listing(run_id, items) =~= a + decimal(run_id) + (b + decimal(items.len()) + c
            + rows(items, node_column(items)) + d));
    } else {
        assert(listing(run_id, items) =~= "run "@ + decimal(run_id)
            + ": nothing awaiting review\n"@);
    }
}

/// Standings are told apart by their labels.
pub proof fn law_labels_tell_standings_apart(a: ReviewState, b: ReviewState)
    ensures
        a.label_text() == b.label_text() <==> a == b,
{
    reveal_strlit("not gated");
    reveal_strlit("unreviewed");
    reveal_strlit("approved");
    reveal_strlit("revision requested");
    assert("not gated"@[0] == 'n');
    assert("unreviewed"@[0] == 'u');
    assert("approved"@[0] == 'a');
    assert("revision requested"@[0] == 'r');
}

} // verus!
