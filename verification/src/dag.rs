//! A graph of tasks: what is wrong with it, and who waits for whom.

use crate::config::{declares, find_provider, is_duration, provider_named, DeclaredProvider, Graph,
    Supervise, Task, TaskKind, TaskView};
use crate::depend::{beside, who_needs, DagView};
use crate::edges::{is_ascending, lemma_beside, text_lists, Edges};
use crate::lines::{join, joined};
use crate::text::{chars_of, holds, texts, views};
use crate::time::{humantime_parse, is_countable};
use vstd::prelude::*;

verus! {

/// A reason a graph cannot be run.
#[derive(Debug, Clone, PartialEq, Eq)]
pub enum ValidationError {
    DuplicateId(String),
    InvalidId(String),
    ReservedId(String),
    SelfDep(String),
    UnknownDep { task: String, dep: String },
    Cycle(Vec<String>),
    ShellMissingRun(String),
    AgentMissingPrompt(String),
    UnknownProvider { task: String, provider: String },
    InvalidDuration { task: String, value: String },
}

pub enum ValidationErrorView {
    DuplicateId(Seq<char>),
    InvalidId(Seq<char>),
    ReservedId(Seq<char>),
    SelfDep(Seq<char>),
    UnknownDep { task: Seq<char>, dep: Seq<char> },
    Cycle(Seq<Seq<char>>),
    ShellMissingRun(Seq<char>),
    AgentMissingPrompt(Seq<char>),
    UnknownProvider { task: Seq<char>, provider: Seq<char> },
    InvalidDuration { task: Seq<char>, value: Seq<char> },
}

impl View for ValidationError {
    type V = ValidationErrorView;

    open spec fn view(&self) -> ValidationErrorView {
        match self {
            ValidationError::DuplicateId(id) => ValidationErrorView::DuplicateId(id@),
            ValidationError::InvalidId(id) => ValidationErrorView::InvalidId(id@),
            ValidationError::ReservedId(id) => ValidationErrorView::ReservedId(id@),
            ValidationError::SelfDep(id) => ValidationErrorView::SelfDep(id@),
            ValidationError::UnknownDep { task, dep } => ValidationErrorView::UnknownDep {
                task: task@,
                dep: dep@,
            },
            ValidationError::Cycle(path) => ValidationErrorView::Cycle(texts(path@)),
            ValidationError::ShellMissingRun(id) => ValidationErrorView::ShellMissingRun(id@),
            ValidationError::AgentMissingPrompt(id) => ValidationErrorView::AgentMissingPrompt(id@),
            ValidationError::UnknownProvider { task, provider } =>
            ValidationErrorView::UnknownProvider { task: task@, provider: provider@ },
            ValidationError::InvalidDuration { task, value } =>
            ValidationErrorView::InvalidDuration { task: task@, value: value@ },
        }
    }
}

impl ValidationErrorView {
    /// What the user is told.
    pub open spec fn message(self) -> Seq<char> {
        match self {
            ValidationErrorView::DuplicateId(id) => "duplicate task id '"@ + id + "'"@,
            ValidationErrorView::InvalidId(id) => "invalid task id '"@ + id
                + "': ids must match [A-Za-z0-9_-]+ (they become filenames and branch names)"@,
            ValidationErrorView::ReservedId(id) => "task id '"@ + id
                + "' is reserved: ids may not start with '_', which assembly-line keeps for itself"@,
            ValidationErrorView::SelfDep(id) => "task '"@ + id + "' depends on itself"@,
            ValidationErrorView::UnknownDep { task, dep } => "task '"@ + task + "' needs '"@ + dep
                + "', which does not exist"@,
            ValidationErrorView::Cycle(path) => "dependency cycle: "@ + joined(path, " -> "@),
            ValidationErrorView::ShellMissingRun(id) => "shell task '"@ + id + "' has no `run`"@,
            ValidationErrorView::AgentMissingPrompt(id) => "agent task '"@ + id
                + "' has no `prompt` or `prompt_file`"@,
            ValidationErrorView::UnknownProvider { task, provider } => "task '"@ + task
                + "' uses undefined provider '"@ + provider + "'"@,
            ValidationErrorView::InvalidDuration { task, value } => "task '"@ + task
                + "' has invalid max_duration '"@ + value + "'"@,
        }
    }
}

/// The three texts one after the other.
fn around(before: &str, what: &str, after: &str) -> (text: String)
    ensures
        text@ == before@ + what@ + after@,
{
    let mut text = String::from_str(before);
    text.append(what);
    text.append(after);
    text
}

impl ValidationError {
    /// What the user is told.
    pub fn message(&self) -> (text: String)
        ensures
            text@ == self@.message(),
    {
        match self {
            ValidationError::DuplicateId(id) => around("duplicate task id '", id.as_str(), "'"),
            ValidationError::InvalidId(id) => around(
                "invalid task id '",
                id.as_str(),
                "': ids must match [A-Za-z0-9_-]+ (they become filenames and branch names)",
            ),
            ValidationError::ReservedId(id) => around(
                "task id '",
                id.as_str(),
                "' is reserved: ids may not start with '_', which assembly-line keeps for itself",
            ),
            ValidationError::SelfDep(id) => around("task '", id.as_str(), "' depends on itself"),
            ValidationError::UnknownDep { task, dep } => {
                let mut text = around("task '", task.as_str(), "' needs '");
                text.append(dep.as_str());
                text.append("', which does not exist");
                text
            },
            ValidationError::Cycle(path) => {
                let mut text = String::from_str("dependency cycle: ");
                text.append(join(path, " -> ").as_str());
                text
            },
            ValidationError::ShellMissingRun(id) => around(
                "shell task '",
                id.as_str(),
                "' has no `run`",
            ),
            ValidationError::AgentMissingPrompt(id) => around(
                "agent task '",
                id.as_str(),
                "' has no `prompt` or `prompt_file`",
            ),
            ValidationError::UnknownProvider { task, provider } => {
                let mut text = around("task '", task.as_str(), "' uses undefined provider '");
                text.append(provider.as_str());
                text.append("'");
                text
            },
            ValidationError::InvalidDuration { task, value } => {
                let mut text = around("task '", task.as_str(), "' has invalid max_duration '");
                text.append(value.as_str());
                text.append("'");
                text
            },
        }
    }
}

/// Something worth flagging in a graph that can be run.
#[derive(Debug, Clone, PartialEq, Eq)]
pub enum Warning {
    AgentWithoutVerify(String),
    CostCapWithoutAdapter { task: String, provider: String },
}

pub enum WarningView {
    AgentWithoutVerify(Seq<char>),
    CostCapWithoutAdapter { task: Seq<char>, provider: Seq<char> },
}

impl View for Warning {
    type V = WarningView;

    open spec fn view(&self) -> WarningView {
        match self {
            Warning::AgentWithoutVerify(id) => WarningView::AgentWithoutVerify(id@),
            Warning::CostCapWithoutAdapter { task, provider } =>
            WarningView::CostCapWithoutAdapter { task: task@, provider: provider@ },
        }
    }
}

impl WarningView {
    /// What the user is told.
    pub open spec fn message(self) -> Seq<char> {
        match self {
            WarningView::AgentWithoutVerify(id) => "agent task '"@ + id
                + "' declares no `verify` — nothing will check its output"@,
            WarningView::CostCapWithoutAdapter { task, provider } => "task '"@ + task
                + "' sets max_cost_usd but provider '"@ + provider
                + "' reports no cost — the cap will not apply"@,
        }
    }
}

impl Warning {
    /// What the user is told.
    pub fn message(&self) -> (text: String)
        ensures
            text@ == self@.message(),
    {
        match self {
            Warning::AgentWithoutVerify(id) => around(
                "agent task '",
                id.as_str(),
                "' declares no `verify` — nothing will check its output",
            ),
            Warning::CostCapWithoutAdapter { task, provider } => {
                let mut text = around(
                    "task '",
                    task.as_str(),
                    "' sets max_cost_usd but provider '",
                );
                text.append(provider.as_str());
                text.append("' reports no cost — the cap will not apply");
                text
            },
        }
    }
}

/// The characters an id may hold: those safe in a filename and a branch name.
pub open spec fn is_id_char(c: char) -> bool {
    ||| 'a' <= c <= 'z'
    ||| 'A' <= c <= 'Z'
    ||| '0' <= c <= '9'
    ||| c == '_'
    ||| c == '-'
}

pub fn id_char(c: char) -> (yes: bool)
    ensures
        yes == is_id_char(c),
{
    ('a' <= c && c <= 'z') || ('A' <= c && c <= 'Z') || ('0' <= c && c <= '9') || c == '_' || c
        == '-'
}

/// Whether `id` can name a file and a branch.
pub open spec fn is_valid_id(id: Seq<char>) -> bool {
    id.len() > 0 && forall|i: int| 0 <= i < id.len() ==> is_id_char(#[trigger] id[i])
}

fn id_is_valid(id: &str) -> (valid: bool)
    ensures
        valid == is_valid_id(id@),
{
    let chars = chars_of(id);
    let mut at: usize = 0;
    while at < chars.len()
        invariant
            chars@ == id@,
            at <= chars.len(),
            forall|i: int| 0 <= i < at ==> is_id_char(#[trigger] id@[i]),
        decreases chars.len() - at,
    {
        if !id_char(chars[at]) {
            assert(!is_id_char(id@[at as int]));
            return false;
        }
        at = at + 1;
    }
    chars.len() > 0
}

/// Whether `id` is one assembly-line keeps for itself.
pub open spec fn is_reserved_id(id: Seq<char>) -> bool {
    id.len() > 0 && id[0] == '_'
}

fn id_is_reserved(id: &str) -> (reserved: bool)
    ensures
        reserved == is_reserved_id(id@),
{
    let chars = chars_of(id);
    chars.len() > 0 && chars[0] == '_'
}

/// The ids the tasks declare, in order, each where it first stands.
pub open spec fn declared_ids(tasks: Seq<TaskView>) -> Seq<Seq<char>>
    decreases tasks.len(),
{
    if tasks.len() == 0 {
        Seq::empty()
    } else {
        let before = declared_ids(tasks.drop_last());
        if before.contains(tasks.last().id) {
            before
        } else {
            before.push(tasks.last().id)
        }
    }
}

/// Ids in declaration order, first occurrence winning.
fn ids_in_declaration_order(tasks: &[Task]) -> (ids: Vec<String>)
    ensures
        texts(ids@) == declared_ids(views(tasks@)),
{
    let mut ids: Vec<String> = Vec::new();
    let mut at: usize = 0;
    assert(texts(ids@) =~= declared_ids(views(tasks@).take(0)));
    while at < tasks.len()
        invariant
            at <= tasks.len(),
            texts(ids@) == declared_ids(views(tasks@).take(at as int)),
        decreases tasks.len() - at,
    {
        let ghost before = ids@;
        assert(views(tasks@).take(at + 1).drop_last() =~= views(tasks@).take(at as int));
        if !holds(&ids, tasks[at].id.as_str()) {
            ids.push(tasks[at].id.clone());
            assert(texts(ids@) =~= texts(before).push(tasks@[at as int].id@));
        }
        at = at + 1;
    }
    assert(views(tasks@).take(at as int) =~= views(tasks@));
    ids
}

/// An error for each id that cannot name a file.
pub open spec fn invalid_id_errors(tasks: Seq<TaskView>) -> Seq<ValidationErrorView>
    decreases tasks.len(),
{
    if tasks.len() == 0 {
        Seq::empty()
    } else {
        let before = invalid_id_errors(tasks.drop_last());
        if is_valid_id(tasks.last().id) {
            before
        } else {
            before.push(ValidationErrorView::InvalidId(tasks.last().id))
        }
    }
}

/// An error for each task whose id an earlier task declared already.
pub open spec fn duplicate_id_errors(tasks: Seq<TaskView>) -> Seq<ValidationErrorView>
    decreases tasks.len(),
{
    if tasks.len() == 0 {
        Seq::empty()
    } else {
        let before = duplicate_id_errors(tasks.drop_last());
        if declared_ids(tasks.drop_last()).contains(tasks.last().id) {
            before.push(ValidationErrorView::DuplicateId(tasks.last().id))
        } else {
            before
        }
    }
}

/// An error for each id that assembly-line keeps for itself.
pub open spec fn reserved_id_errors(tasks: Seq<TaskView>) -> Seq<ValidationErrorView>
    decreases tasks.len(),
{
    if tasks.len() == 0 {
        Seq::empty()
    } else {
        let before = reserved_id_errors(tasks.drop_last());
        if is_reserved_id(tasks.last().id) {
            before.push(ValidationErrorView::ReservedId(tasks.last().id))
        } else {
            before
        }
    }
}

/// Ids that are unusable as filenames, ids declared more than once, and ids
/// that are reserved.
fn id_naming_errors(tasks: &[Task]) -> (errors: Vec<ValidationError>)
    ensures
        views(errors@) == invalid_id_errors(views(tasks@)) + duplicate_id_errors(views(tasks@))
            + reserved_id_errors(views(tasks@)),
{
    let mut invalid: Vec<ValidationError> = Vec::new();
    let mut duplicated: Vec<ValidationError> = Vec::new();
    let mut reserved: Vec<ValidationError> = Vec::new();
    let mut seen: Vec<String> = Vec::new();
    let mut at: usize = 0;
    let ghost all = views(tasks@);
    assert(texts(seen@) =~= declared_ids(all.take(0)));
    assert(views(invalid@) =~= invalid_id_errors(all.take(0)));
    assert(views(duplicated@) =~= duplicate_id_errors(all.take(0)));
    assert(views(reserved@) =~= reserved_id_errors(all.take(0)));
    while at < tasks.len()
        invariant
            at <= tasks.len(),
            all == views(tasks@),
            texts(seen@) == declared_ids(all.take(at as int)),
            views(invalid@) == invalid_id_errors(all.take(at as int)),
            views(duplicated@) == duplicate_id_errors(all.take(at as int)),
            views(reserved@) == reserved_id_errors(all.take(at as int)),
        decreases tasks.len() - at,
    {
        let id = &tasks[at].id;
        let ghost (was_invalid, was_duplicated, was_reserved, was_seen) = (
            invalid@,
            duplicated@,
            reserved@,
            seen@,
        );
        assert(all.take(at + 1).drop_last() =~= all.take(at as int));
        assert(all.take(at + 1).last() == tasks@[at as int]@);
        if !id_is_valid(id.as_str()) {
            invalid.push(ValidationError::InvalidId(id.clone()));
            assert(views(invalid@) =~= views(was_invalid).push(
                ValidationErrorView::InvalidId(id@),
            ));
        }
        if holds(&seen, id.as_str()) {
            duplicated.push(ValidationError::DuplicateId(id.clone()));
            assert(views(duplicated@) =~= views(was_duplicated).push(
                ValidationErrorView::DuplicateId(id@),
            ));
        } else {
            seen.push(id.clone());
            assert(texts(seen@) =~= texts(was_seen).push(id@));
        }
        if id_is_reserved(id.as_str()) {
            reserved.push(ValidationError::ReservedId(id.clone()));
            assert(views(reserved@) =~= views(was_reserved).push(
                ValidationErrorView::ReservedId(id@),
            ));
        }
        at = at + 1;
    }
    assert(all.take(at as int) =~= all);
    let ghost (a, b, c) = (invalid@, duplicated@, reserved@);
    let mut errors = invalid;
    errors.append(&mut duplicated);
    errors.append(&mut reserved);
    assert(views(errors@) =~= views(a) + views(b) + views(c));
    errors
}

/// What a task lacks that its kind needs to be runnable at all. An agent may
/// supply its prompt inline or by file.
pub open spec fn missing_field(task: TaskView) -> Option<ValidationErrorView> {
    match task.kind {
        TaskKind::Shell => if task.run is None {
            Some(ValidationErrorView::ShellMissingRun(task.id))
        } else {
            None
        },
        TaskKind::Agent => if task.prompt is None && task.prompt_file is None {
            Some(ValidationErrorView::AgentMissingPrompt(task.id))
        } else {
            None
        },
    }
}

fn missing_required_field(task: &Task) -> (error: Option<ValidationError>)
    ensures
        match error {
            Some(e) => missing_field(task@) == Some(e@),
            None => missing_field(task@) is None,
        },
{
    match task.kind {
        TaskKind::Shell => if task.run.is_none() {
            Some(ValidationError::ShellMissingRun(task.id.clone()))
        } else {
            None
        },
        TaskKind::Agent => if task.prompt.is_none() && task.prompt_file.is_none() {
            Some(ValidationError::AgentMissingPrompt(task.id.clone()))
        } else {
            None
        },
    }
}

/// What is missing from each task that lacks something.
pub open spec fn missing_field_errors(tasks: Seq<TaskView>) -> Seq<ValidationErrorView>
    decreases tasks.len(),
{
    if tasks.len() == 0 {
        Seq::empty()
    } else {
        let before = missing_field_errors(tasks.drop_last());
        match missing_field(tasks.last()) {
            Some(e) => before.push(e),
            None => before,
        }
    }
}

fn missing_required_fields(tasks: &[Task]) -> (errors: Vec<ValidationError>)
    ensures
        views(errors@) == missing_field_errors(views(tasks@)),
{
    let mut errors: Vec<ValidationError> = Vec::new();
    let mut at: usize = 0;
    let ghost all = views(tasks@);
    assert(views(errors@) =~= missing_field_errors(all.take(0)));
    while at < tasks.len()
        invariant
            at <= tasks.len(),
            all == views(tasks@),
            views(errors@) == missing_field_errors(all.take(at as int)),
        decreases tasks.len() - at,
    {
        let ghost before = errors@;
        assert(all.take(at + 1).drop_last() =~= all.take(at as int));
        assert(all.take(at + 1).last() == tasks@[at as int]@);
        match missing_required_field(&tasks[at]) {
            Some(e) => {
                errors.push(e);
                assert(views(errors@) =~= views(before).push(e@));
            },
            None => {},
        }
        at = at + 1;
    }
    assert(all.take(at as int) =~= all);
    errors
}

/// What is wrong with task `id` needing `dep`, when the `known` ids are all
/// there are.
pub open spec fn dependency_error(
    id: Seq<char>,
    dep: Seq<char>,
    known: Seq<Seq<char>>,
) -> Option<ValidationErrorView> {
    if dep == id {
        Some(ValidationErrorView::SelfDep(id))
    } else if !known.contains(dep) {
        Some(ValidationErrorView::UnknownDep { task: id, dep })
    } else {
        None
    }
}

/// What is wrong with the needs of task `id`, need by need.
pub open spec fn need_errors(
    id: Seq<char>,
    needs: Seq<Seq<char>>,
    known: Seq<Seq<char>>,
) -> Seq<ValidationErrorView>
    decreases needs.len(),
{
    if needs.len() == 0 {
        Seq::empty()
    } else {
        let before = need_errors(id, needs.drop_last(), known);
        match dependency_error(id, needs.last(), known) {
            Some(e) => before.push(e),
            None => before,
        }
    }
}

/// What is wrong with the needs of the tasks, task by task.
pub open spec fn dependency_errors(tasks: Seq<TaskView>, known: Seq<Seq<char>>) -> Seq<
    ValidationErrorView,
>
    decreases tasks.len(),
{
    if tasks.len() == 0 {
        Seq::empty()
    } else {
        dependency_errors(tasks.drop_last(), known) + need_errors(
            tasks.last().id,
            tasks.last().needs,
            known,
        )
    }
}

fn unresolvable_needs(task: &Task, known: &Vec<String>) -> (errors: Vec<ValidationError>)
    ensures
        views(errors@) == need_errors(task@.id, task@.needs, texts(known@)),
{
    let mut errors: Vec<ValidationError> = Vec::new();
    let mut at: usize = 0;
    assert(views(errors@) =~= need_errors(task@.id, task@.needs.take(0), texts(known@)));
    while at < task.needs.len()
        invariant
            at <= task.needs.len(),
            views(errors@) == need_errors(task@.id, task@.needs.take(at as int), texts(known@)),
        decreases task.needs.len() - at,
    {
        let ghost before = errors@;
        let dep = &task.needs[at];
        assert(task@.needs.take(at + 1).drop_last() =~= task@.needs.take(at as int));
        assert(task@.needs.take(at + 1).last() == dep@);
        if *dep == task.id {
            errors.push(ValidationError::SelfDep(task.id.clone()));
            assert(views(errors@) =~= views(before).push(ValidationErrorView::SelfDep(task.id@)));
        } else if !holds(known, dep.as_str()) {
            errors.push(ValidationError::UnknownDep { task: task.id.clone(), dep: dep.clone() });
            assert(views(errors@) =~= views(before).push(
                ValidationErrorView::UnknownDep { task: task.id@, dep: dep@ },
            ));
        }
        at = at + 1;
    }
    assert(task@.needs.take(at as int) =~= task@.needs);
    errors
}

/// Dependencies that point at nothing, or back at the task itself.
fn unresolvable_dependencies(tasks: &[Task], known: &Vec<String>) -> (errors: Vec<
    ValidationError,
>)
    ensures
        views(errors@) == dependency_errors(views(tasks@), texts(known@)),
{
    let mut errors: Vec<ValidationError> = Vec::new();
    let mut at: usize = 0;
    let ghost all = views(tasks@);
    assert(views(errors@) =~= dependency_errors(all.take(0), texts(known@)));
    while at < tasks.len()
        invariant
            at <= tasks.len(),
            all == views(tasks@),
            views(errors@) == dependency_errors(all.take(at as int), texts(known@)),
        decreases tasks.len() - at,
    {
        let ghost before = errors@;
        assert(all.take(at + 1).drop_last() =~= all.take(at as int));
        assert(all.take(at + 1).last() == tasks@[at as int]@);
        let mut found = unresolvable_needs(&tasks[at], known);
        let ghost added = found@;
        errors.append(&mut found);
        assert(views(errors@) =~= views(before) + views(added));
        at = at + 1;
    }
    assert(all.take(at as int) =~= all);
    errors
}

/// The needs that resolve: those that name another task that is there.
pub open spec fn kept_needs(
    id: Seq<char>,
    needs: Seq<Seq<char>>,
    known: Seq<Seq<char>>,
) -> Seq<Seq<char>>
    decreases needs.len(),
{
    if needs.len() == 0 {
        Seq::empty()
    } else {
        let before = kept_needs(id, needs.drop_last(), known);
        if needs.last() != id && known.contains(needs.last()) {
            before.push(needs.last())
        } else {
            before
        }
    }
}

/// What the first task of this id needs.
pub open spec fn declared_needs(tasks: Seq<TaskView>, id: Seq<char>) -> Seq<Seq<char>>
    decreases tasks.len(),
{
    if tasks.len() == 0 {
        Seq::empty()
    } else if tasks[0].id == id {
        tasks[0].needs
    } else {
        declared_needs(tasks.skip(1), id)
    }
}

/// The graph the tasks make, with only the edges that resolve.
pub open spec fn dag_of(tasks: Seq<TaskView>) -> DagView {
    let ids = declared_ids(tasks);
    let needs = Seq::new(
        ids.len(),
        |i: int| kept_needs(ids[i], declared_needs(tasks, ids[i]), ids),
    );
    DagView {
        ids,
        needs,
        dependents: Seq::new(ids.len(), |i: int| who_needs(ids, needs, ids[i])),
    }
}

proof fn lemma_kept_needs(
    id: Seq<char>,
    needs: Seq<Seq<char>>,
    known: Seq<Seq<char>>,
    d: Seq<char>,
)
    requires
        kept_needs(id, needs, known).contains(d),
    ensures
        known.contains(d),
        d != id,
        needs.contains(d),
    decreases needs.len(),
{
    let kept = kept_needs(id, needs, known);
    let before = kept_needs(id, needs.drop_last(), known);
    let i = kept.index_of(d);
    if i < before.len() {
        assert(before[i] == d);
        lemma_kept_needs(id, needs.drop_last(), known, d);
        let k = needs.drop_last().index_of(d);
        assert(needs[k] == d);
    } else {
        assert(needs[needs.len() - 1] == d);
    }
}

proof fn lemma_declared_ids_are_unique(tasks: Seq<TaskView>)
    ensures
        declared_ids(tasks).no_duplicates(),
    decreases tasks.len(),
{
    if tasks.len() > 0 {
        lemma_declared_ids_are_unique(tasks.drop_last());
    }
}

/// Whatever the tasks declare, the graph made of them is in order: no id
/// stands twice, and every edge joins two tasks that are there.
pub proof fn law_dag_of_tasks_is_consistent(tasks: Seq<TaskView>)
    ensures
        dag_of(tasks).is_consistent(),
{
    let dag = dag_of(tasks);
    lemma_declared_ids_are_unique(tasks);
    assert forall|i: int, d: Seq<char>|
        0 <= i < dag.ids.len() && #[trigger] dag.needs[i].contains(d) implies dag.ids.contains(d)
        && d != dag.ids[i] by {
        lemma_kept_needs(dag.ids[i], declared_needs(tasks, dag.ids[i]), dag.ids, d);
    }
}

/// Whether some task declares the id.
pub open spec fn is_declared(tasks: Seq<TaskView>, id: Seq<char>) -> bool {
    exists|j: int| 0 <= j < tasks.len() && (#[trigger] tasks[j]).id == id
}

/// The graph has the ids that the tasks declare, each once, and in the order in
/// which they are first declared: what is declared later comes after.
pub proof fn law_the_graph_has_the_declared_ids(tasks: Seq<TaskView>, more: Seq<TaskView>)
    ensures
        dag_of(tasks).ids.no_duplicates(),
        forall|id: Seq<char>| #[trigger]
            dag_of(tasks).ids.contains(id) <==> is_declared(tasks, id),
        dag_of(tasks).ids.is_prefix_of(dag_of(tasks + more).ids),
    decreases tasks.len() + more.len(),
{
    lemma_declared_ids_are_unique(tasks);
    lemma_declared_ids(tasks);
    if more.len() == 0 {
        assert(tasks + more =~= tasks);
    } else {
        law_the_graph_has_the_declared_ids(tasks, more.drop_last());
        assert((tasks + more).drop_last() =~= tasks + more.drop_last());
    }
}

pub proof fn lemma_declared_ids(tasks: Seq<TaskView>)
    ensures
        forall|id: Seq<char>| #[trigger]
            declared_ids(tasks).contains(id) <==> is_declared(tasks, id),
    decreases tasks.len(),
{
    if tasks.len() > 0 {
        let rest = tasks.drop_last();
        let before = declared_ids(rest);
        let last = tasks.last();
        lemma_declared_ids(rest);
        assert forall|id: Seq<char>| #[trigger] declared_ids(tasks).contains(id) implies is_declared(
            tasks,
            id,
        ) by {
            let i = declared_ids(tasks).index_of(id);
            if i < before.len() {
                assert(before[i] == id);
                assert(declared_ids(rest).contains(id));
                assert(is_declared(rest, id));
                let j = choose|j: int| 0 <= j < rest.len() && (#[trigger] rest[j]).id == id;
                assert(tasks[j].id == id);
            } else {
                assert(tasks[tasks.len() - 1].id == id);
            }
        }
        assert forall|id: Seq<char>| is_declared(tasks, id) implies #[trigger] declared_ids(
            tasks,
        ).contains(id) by {
            let j = choose|j: int| 0 <= j < tasks.len() && (#[trigger] tasks[j]).id == id;
            if j < rest.len() {
                assert(rest[j].id == id);
                assert(is_declared(rest, id));
                assert(before.contains(id));
                let k = before.index_of(id);
                assert(declared_ids(tasks)[k] == id);
            } else if !before.contains(id) {
                assert(declared_ids(tasks)[before.len() as int] == id);
            } else {
                assert(declared_ids(tasks) == before);
            }
        }
    }
}

/// Every declared need that names another declared task is an edge of the
/// graph, in the order of declaration, and nothing else is: of several tasks of
/// one id the first counts, and what no task declares needs nothing.
pub proof fn law_the_graph_holds_exactly_the_declared_edges(tasks: Seq<TaskView>, at: int)
    requires
        0 <= at < tasks.len(),
        forall|i: int| 0 <= i < at ==> (#[trigger] tasks[i]).id != tasks[at].id,
    ensures
        dag_of(tasks).needs_of(tasks[at].id) == tasks[at].needs.filter(
            |d: Seq<char>| d != tasks[at].id && is_declared(tasks, d),
        ),
        forall|d: Seq<char>| #[trigger]
            dag_of(tasks).needs_of(tasks[at].id).contains(d) <==> tasks[at].needs.contains(d) && d
                != tasks[at].id && is_declared(tasks, d),
        forall|id: Seq<char>| #[trigger]
            dag_of(tasks).needs_of(id).len() > 0 ==> is_declared(tasks, id),
{
    let id = tasks[at].id;
    let known = declared_ids(tasks);
    let resolves = |d: Seq<char>| d != id && is_declared(tasks, d);
    lemma_declared_ids(tasks);
    assert(is_declared(tasks, id));
    assert(known.contains(id));
    lemma_first_needs(tasks, at);
    lemma_kept_needs_are_filtered(tasks, id, tasks[at].needs);
    let kept = tasks[at].needs.filter(resolves);
    let k = known.index_of(id);
    assert(dag_of(tasks).needs[k] == kept);
    tasks[at].needs.filter_lemma(resolves);
    assert forall|d: Seq<char>| tasks[at].needs.contains(d) && resolves(d) implies #[trigger]
        kept.contains(d) by {
        let i = tasks[at].needs.index_of(d);
        assert(tasks[at].needs[i] == d);
        tasks[at].needs.lemma_filter_contains(resolves, i);
    }
    assert forall|d: Seq<char>| #[trigger] kept.contains(d) implies tasks[at].needs.contains(d)
        && resolves(d) by {
        let i = kept.index_of(d);
        tasks[at].needs.lemma_filter_pred(resolves, i);
        tasks[at].needs.lemma_filter_contains_rev(resolves, d);
    }
}

proof fn lemma_first_needs(tasks: Seq<TaskView>, at: int)
    requires
        0 <= at < tasks.len(),
        forall|i: int| 0 <= i < at ==> (#[trigger] tasks[i]).id != tasks[at].id,
    ensures
        declared_needs(tasks, tasks[at].id) == tasks[at].needs,
    decreases at,
{
    if at > 0 {
        let rest = tasks.skip(1);
        assert(tasks[0].id != tasks[at].id);
        assert forall|i: int| 0 <= i < at - 1 implies (#[trigger] rest[i]).id != rest[at - 1].id by {
            assert(rest[i] == tasks[i + 1]);
        }
        lemma_first_needs(rest, at - 1);
    }
}

proof fn lemma_kept_needs_are_filtered(
    tasks: Seq<TaskView>,
    id: Seq<char>,
    needs: Seq<Seq<char>>,
)
    ensures
        kept_needs(id, needs, declared_ids(tasks)) == needs.filter(
            |d: Seq<char>| d != id && is_declared(tasks, d),
        ),
    decreases needs.len(),
{
    reveal(Seq::filter);
    lemma_declared_ids(tasks);
    if needs.len() > 0 {
        lemma_kept_needs_are_filtered(tasks, id, needs.drop_last());
    } else {
        assert(kept_needs(id, needs, declared_ids(tasks)) =~= needs);
    }
}

/// A graph that is built is the one that was written down: its ids are the
/// tasks' ids in order, and each task needs in it exactly what it declares, in
/// order and in full.
pub proof fn law_a_built_graph_is_the_one_declared(tasks: Seq<TaskView>)
    requires
        forall|i: int, j: int|
            0 <= i < j < tasks.len() ==> (#[trigger] tasks[i]).id != (#[trigger] tasks[j]).id,
        forall|i: int, k: int|
            0 <= i < tasks.len() && 0 <= k < tasks[i].needs.len() ==> (
            #[trigger] tasks[i].needs[k]) != tasks[i].id && is_declared(tasks, tasks[i].needs[k]),
    ensures
        dag_of(tasks).ids == tasks.map_values(|task: TaskView| task.id),
        forall|i: int|
            0 <= i < tasks.len() ==> dag_of(tasks).needs_of((#[trigger] tasks[i]).id)
                == tasks[i].needs,
        forall|i: int, d: Seq<char>|
            0 <= i < tasks.len() ==> (#[trigger] dag_of(tasks).needs_of(tasks[i].id).contains(d)
                <==> tasks[i].needs.contains(d)),
{
    lemma_distinct_ids(tasks);
    assert forall|i: int| 0 <= i < tasks.len() implies dag_of(tasks).needs_of((#[trigger] tasks[i]).id)
        == tasks[i].needs by {
        law_the_graph_holds_exactly_the_declared_edges(tasks, i);
        let resolves = |d: Seq<char>| d != tasks[i].id && is_declared(tasks, d);
        assert forall|k: int| 0 <= k < tasks[i].needs.len() implies resolves(
            #[trigger] tasks[i].needs[k],
        ) by {}
        lemma_filter_keeps_all(tasks[i].needs, resolves);
    }
    assert forall|i: int, d: Seq<char>| 0 <= i < tasks.len() implies (
    #[trigger] dag_of(tasks).needs_of(tasks[i].id).contains(d) <==> tasks[i].needs.contains(d)) by {
        assert(dag_of(tasks).needs_of(tasks[i].id) == tasks[i].needs);
    }
}

proof fn lemma_distinct_ids(tasks: Seq<TaskView>)
    requires
        forall|i: int, j: int|
            0 <= i < j < tasks.len() ==> (#[trigger] tasks[i]).id != (#[trigger] tasks[j]).id,
    ensures
        declared_ids(tasks) == tasks.map_values(|task: TaskView| task.id),
    decreases tasks.len(),
{
    let ids = tasks.map_values(|task: TaskView| task.id);
    if tasks.len() > 0 {
        let rest = tasks.drop_last();
        lemma_distinct_ids(rest);
        lemma_declared_ids(rest);
        if is_declared(rest, tasks.last().id) {
            let j = choose|j: int|
                0 <= j < rest.len() && (#[trigger] rest[j]).id == tasks.last().id;
            assert(tasks[j].id == tasks[tasks.len() - 1].id);
        }
        assert(ids =~= rest.map_values(|task: TaskView| task.id).push(tasks.last().id));
    } else {
        assert(ids =~= declared_ids(tasks));
    }
}

pub proof fn lemma_filter_keeps_all<T>(list: Seq<T>, keeps: spec_fn(T) -> bool)
    requires
        forall|i: int| 0 <= i < list.len() ==> keeps(#[trigger] list[i]),
    ensures
        list.filter(keeps) == list,
    decreases list.len(),
{
    reveal(Seq::filter);
    if list.len() > 0 {
        let rest = list.drop_last();
        assert forall|i: int| 0 <= i < rest.len() implies keeps(#[trigger] rest[i]) by {
            assert(rest[i] == list[i]);
        }
        lemma_filter_keeps_all(rest, keeps);
        assert(keeps(list[list.len() - 1]));
        assert(rest.push(list.last()) =~= list);
    }
}

fn needs_kept(id: &String, needs: &Vec<String>, known: &Vec<String>) -> (kept: Vec<String>)
    ensures
        texts(kept@) == kept_needs(id@, texts(needs@), texts(known@)),
{
    let mut kept: Vec<String> = Vec::new();
    let mut at: usize = 0;
    let ghost all = texts(needs@);
    assert(texts(kept@) =~= kept_needs(id@, all.take(0), texts(known@)));
    while at < needs.len()
        invariant
            at <= needs.len(),
            all == texts(needs@),
            texts(kept@) == kept_needs(id@, all.take(at as int), texts(known@)),
        decreases needs.len() - at,
    {
        let ghost before = kept@;
        assert(all.take(at + 1).drop_last() =~= all.take(at as int));
        assert(all.take(at + 1).last() == needs@[at as int]@);
        if needs[at] != *id && holds(known, needs[at].as_str()) {
            kept.push(needs[at].clone());
            assert(texts(kept@) =~= texts(before).push(needs@[at as int]@));
        }
        at = at + 1;
    }
    assert(all.take(at as int) =~= all);
    kept
}

/// What the first task of this id needs, as far as it resolves.
fn resolved_needs(tasks: &[Task], id: &String, known: &Vec<String>) -> (kept: Vec<String>)
    ensures
        texts(kept@) == kept_needs(id@, declared_needs(views(tasks@), id@), texts(known@)),
{
    let mut at: usize = 0;
    let ghost all = views(tasks@);
    assert(all.skip(0) =~= all);
    while at < tasks.len()
        invariant
            at <= tasks.len(),
            all == views(tasks@),
            declared_needs(all, id@) == declared_needs(all.skip(at as int), id@),
        decreases tasks.len() - at,
    {
        assert(all.skip(at as int)[0] == tasks@[at as int]@);
        if tasks[at].id == *id {
            return needs_kept(id, &tasks[at].needs, known);
        }
        assert(all.skip(at as int).skip(1) =~= all.skip(at + 1));
        at = at + 1;
    }
    let kept: Vec<String> = Vec::new();
    assert(texts(kept@) =~= kept_needs(id@, declared_needs(all, id@), texts(known@)));
    kept
}

/// The ids whose own needs hold `id`.
fn ids_that_need(ids: &Vec<String>, needs: &Vec<Vec<String>>, id: &String) -> (found: Vec<String>)
    requires
        texts(ids@).no_duplicates(),
        ids.len() == needs.len(),
    ensures
        texts(found@) == who_needs(texts(ids@), text_lists(needs@), id@),
{
    let ghost all = texts(ids@);
    let ghost needs_it = |other: Seq<char>|
        beside(all, text_lists(needs@), other).contains(id@);
    let mut found: Vec<String> = Vec::new();
    let mut at: usize = 0;
    proof {
        reveal(Seq::filter);
        assert(texts(found@) =~= all.take(0).filter(needs_it));
    }
    while at < ids.len()
        invariant
            at <= ids.len(),
            ids.len() == needs.len(),
            all == texts(ids@),
            all.no_duplicates(),
            needs_it == (|other: Seq<char>|
                beside(all, text_lists(needs@), other).contains(id@)),
            texts(found@) == all.take(at as int).filter(needs_it),
        decreases ids.len() - at,
    {
        let ghost before = found@;
        proof {
            reveal(Seq::filter);
            assert(all.take(at + 1).drop_last() =~= all.take(at as int));
            assert(all.take(at + 1).last() == ids@[at as int]@);
            lemma_beside(ids@, needs@, ids@[at as int]@, at as int);
        }
        if holds(&needs[at], id.as_str()) {
            found.push(ids[at].clone());
            assert(texts(found@) =~= texts(before).push(ids@[at as int]@));
        }
        at = at + 1;
    }
    assert(all.take(at as int) =~= all);
    found
}

/// The error a cycle is reported as.
pub open spec fn cycle_errors(dag: DagView) -> Seq<ValidationErrorView> {
    match dag.cycle() {
        Some(path) => seq![ValidationErrorView::Cycle(path)],
        None => Seq::empty(),
    }
}

/// Everything that keeps the tasks from making a graph: bad names, missing
/// fields, dependencies that lead nowhere, and then a cycle.
pub open spec fn build_errors(tasks: Seq<TaskView>) -> Seq<ValidationErrorView> {
    invalid_id_errors(tasks) + duplicate_id_errors(tasks) + reserved_id_errors(tasks)
        + missing_field_errors(tasks) + dependency_errors(tasks, declared_ids(tasks))
        + cycle_errors(dag_of(tasks))
}

/// A graph of tasks that can be run: every edge joins two tasks that are
/// there, and nothing waits for itself.
#[derive(Debug)]
pub struct Dag {
    edges: Edges,
}

impl View for Dag {
    type V = DagView;

    closed spec fn view(&self) -> DagView {
        self.edges@
    }
}

impl Clone for Dag {
    fn clone(&self) -> (copy: Dag)
        ensures
            copy@ == self@,
    {
        proof {
            use_type_invariant(self);
        }
        Dag { edges: self.edges.copy() }
    }
}

impl Dag {
    #[verifier::type_invariant]
    spec fn is_runnable(self) -> bool {
        self.edges@.is_consistent() && self.edges@.cycle() is None
    }

    /// The graph the tasks make, or everything that is wrong with them.
    pub fn build(tasks: &[Task]) -> (built: Result<Dag, Vec<ValidationError>>)
        ensures
            match built {
                Ok(dag) => build_errors(views(tasks@)).len() == 0 && dag@ == dag_of(views(tasks@)),
                Err(errors) => errors.len() > 0 && views(errors@) == build_errors(views(tasks@)),
            },
    {
        let ghost all = views(tasks@);
        let ids = ids_in_declaration_order(tasks);
        proof {
            lemma_declared_ids_are_unique(all);
        }
        let mut errors = id_naming_errors(tasks);
        let mut missing = missing_required_fields(tasks);
        let mut unresolved = unresolvable_dependencies(tasks, &ids);
        let ghost (naming, lacking, dangling) = (errors@, missing@, unresolved@);
        errors.append(&mut missing);
        errors.append(&mut unresolved);
        assert(views(errors@) =~= views(naming) + views(lacking) + views(dangling));

        // `needs` keeps only edges that resolve, so the lists stay well formed
        // even while errors are still being collected.
        let mut needs: Vec<Vec<String>> = Vec::new();
        let mut at: usize = 0;
        while at < ids.len()
            invariant
                at <= ids.len(),
                needs.len() == at,
                all == views(tasks@),
                texts(ids@) == declared_ids(all),
                forall|i: int|
                    0 <= i < at ==> texts((#[trigger] needs@[i])@) == dag_of(all).needs[i],
            decreases ids.len() - at,
        {
            assert(texts(ids@)[at as int] == ids@[at as int]@);
            needs.push(resolved_needs(tasks, &ids[at], &ids));
            at = at + 1;
        }
        assert(text_lists(needs@) =~= dag_of(all).needs);

        let mut dependents: Vec<Vec<String>> = Vec::new();
        let mut at: usize = 0;
        while at < ids.len()
            invariant
                at <= ids.len(),
                dependents.len() == at,
                needs.len() == ids.len(),
                texts(ids@) == declared_ids(all),
                texts(ids@).no_duplicates(),
                text_lists(needs@) == dag_of(all).needs,
                forall|i: int|
                    0 <= i < at ==> texts((#[trigger] dependents@[i])@) == dag_of(
                        all,
                    ).dependents[i],
            decreases ids.len() - at,
        {
            assert(texts(ids@)[at as int] == ids@[at as int]@);
            dependents.push(ids_that_need(&ids, &needs, &ids[at]));
            at = at + 1;
        }
        assert(text_lists(dependents@) =~= dag_of(all).dependents);

        let edges = Edges::new(ids, needs, dependents);
        proof {
            law_dag_of_tasks_is_consistent(all);
            assert(edges@ == dag_of(all));
        }
        match edges.find_cycle() {
            Some(path) => {
                let ghost before = errors@;
                errors.push(ValidationError::Cycle(path));
                assert(views(errors@) =~= views(before) + cycle_errors(dag_of(all)));
                Err(errors)
            },
            None => {
                assert(views(errors@) =~= build_errors(all));
                if errors.len() > 0 {
                    Err(errors)
                } else {
                    Ok(Dag { edges })
                }
            },
        }
    }

    /// The ids of the tasks, in the order they are declared.
    pub fn ids(&self) -> (ids: &[String])
        ensures
            texts(ids@) == self@.ids,
    {
        self.edges.ids()
    }

    /// The ids that `id` waits for directly, in the order it declares them.
    pub fn needs(&self, id: &str) -> (needs: &[String])
        ensures
            texts(needs@) == self@.needs_of(id@),
    {
        proof {
            use_type_invariant(self);
        }
        self.edges.needs(id)
    }

    /// The ids that wait for `id` directly, in the order they are declared.
    pub fn dependents(&self, id: &str) -> (dependents: &[String])
        ensures
            texts(dependents@) == self@.dependents_of(id@),
    {
        proof {
            use_type_invariant(self);
        }
        self.edges.dependents(id)
    }

    /// Everything that waits for `id`, directly or through others, in sorting
    /// order. A task does not wait for itself.
    pub fn descendants(&self, id: &str) -> (all: Vec<String>)
        ensures
            is_ascending(texts(all@)),
            forall|x: Seq<char>| #[trigger]
                texts(all@).contains(x) <==> self@.descends(id@, x),
            !texts(all@).contains(id@),
    {
        proof {
            use_type_invariant(self);
            self@.law_without_a_cycle_nothing_waits_for_itself(id@);
        }
        self.edges.descendants(id)
    }
}

/// What the author of a task has to get right: a usable name of its own, the
/// field its kind needs, and needs that name other tasks.
pub open spec fn is_sound_task(tasks: Seq<TaskView>, at: int) -> bool {
    let task = tasks[at];
    &&& is_valid_id(task.id)
    &&& !is_reserved_id(task.id)
    &&& !declared_ids(tasks.take(at)).contains(task.id)
    &&& missing_field(task) is None
    &&& forall|k: int|
        0 <= k < task.needs.len() ==> #[trigger] task.needs[k] != task.id && declared_ids(
            tasks,
        ).contains(task.needs[k])
}

/// The tasks make a graph exactly when each of them is sound and following
/// needs never leads in a circle.
pub proof fn law_a_graph_is_built_exactly_when_it_is_sound(tasks: Seq<TaskView>)
    ensures
        build_errors(tasks).len() == 0 <==> (forall|at: int|
            0 <= at < tasks.len() ==> #[trigger] is_sound_task(tasks, at)) && !(exists|
            path: Seq<Seq<char>>,
        |
            dag_of(tasks).is_cycle(path)),
{
    let known = declared_ids(tasks);
    dag_of(tasks).law_a_cycle_is_reported_exactly_when_there_is_one();
    lemma_no_task_errors(tasks, known);
    if build_errors(tasks).len() == 0 {
        assert forall|at: int| 0 <= at < tasks.len() implies #[trigger] is_sound_task(
            tasks,
            at,
        ) by {
            assert(is_flawless(tasks, known, at));
        }
    }
    if forall|at: int| 0 <= at < tasks.len() ==> #[trigger] is_sound_task(tasks, at) {
        assert forall|at: int| 0 <= at < tasks.len() implies #[trigger] is_flawless(
            tasks,
            known,
            at,
        ) by {
            assert(is_sound_task(tasks, at));
        }
    }
}

/// Where each task is sound, the graph holds exactly the declared edges.
pub proof fn law_sound_tasks_keep_all_their_needs(tasks: Seq<TaskView>)
    requires
        forall|at: int| 0 <= at < tasks.len() ==> #[trigger] is_sound_task(tasks, at),
    ensures
        dag_of(tasks).ids == tasks.map_values(|task: TaskView| task.id),
        forall|i: int|
            0 <= i < tasks.len() ==> dag_of(tasks).needs_of((#[trigger] tasks[i]).id)
                == tasks[i].needs,
        forall|i: int, d: Seq<char>|
            0 <= i < tasks.len() ==> (#[trigger] dag_of(tasks).needs_of(tasks[i].id).contains(d)
                <==> tasks[i].needs.contains(d)),
{
    lemma_declared_ids(tasks);
    assert forall|i: int, j: int| 0 <= i < j < tasks.len() implies (#[trigger] tasks[i]).id != (
    #[trigger] tasks[j]).id by {
        assert(is_sound_task(tasks, j));
        lemma_declared_ids(tasks.take(j));
        assert(tasks.take(j)[i] == tasks[i]);
        assert(is_declared(tasks.take(j), tasks[i].id));
    }
    assert forall|i: int, k: int|
        0 <= i < tasks.len() && 0 <= k < tasks[i].needs.len() implies (
    #[trigger] tasks[i].needs[k]) != tasks[i].id && is_declared(tasks, tasks[i].needs[k]) by {
        assert(is_sound_task(tasks, i));
    }
    law_a_built_graph_is_the_one_declared(tasks);
}

spec fn is_flawless(tasks: Seq<TaskView>, known: Seq<Seq<char>>, at: int) -> bool {
    let task = tasks[at];
    &&& is_valid_id(task.id)
    &&& !is_reserved_id(task.id)
    &&& !declared_ids(tasks.take(at)).contains(task.id)
    &&& missing_field(task) is None
    &&& forall|k: int|
        0 <= k < task.needs.len() ==> #[trigger] task.needs[k] != task.id && known.contains(
            task.needs[k],
        )
}

proof fn lemma_no_task_errors(tasks: Seq<TaskView>, known: Seq<Seq<char>>)
    ensures
        (invalid_id_errors(tasks).len() == 0 && duplicate_id_errors(tasks).len() == 0
            && reserved_id_errors(tasks).len() == 0 && missing_field_errors(tasks).len() == 0
            && dependency_errors(tasks, known).len() == 0) <==> (forall|at: int|
            0 <= at < tasks.len() ==> #[trigger] is_flawless(tasks, known, at)),
    decreases tasks.len(),
{
    if tasks.len() > 0 {
        let rest = tasks.drop_last();
        let last = tasks.len() - 1;
        lemma_no_task_errors(rest, known);
        lemma_no_need_errors(tasks.last().id, tasks.last().needs, known);
        assert(tasks.take(last) =~= rest);
        assert forall|at: int| 0 <= at < rest.len() implies (#[trigger] is_flawless(
            tasks,
            known,
            at,
        ) <==> is_flawless(rest, known, at)) by {
            assert(rest.take(at) =~= tasks.take(at));
        }
        if forall|at: int| 0 <= at < tasks.len() ==> #[trigger] is_flawless(tasks, known, at) {
            assert forall|at: int| 0 <= at < rest.len() implies #[trigger] is_flawless(
                rest,
                known,
                at,
            ) by {
                assert(is_flawless(tasks, known, at));
            }
            assert(is_flawless(tasks, known, last));
        } else {
            let at = choose|at: int|
                0 <= at < tasks.len() && !#[trigger] is_flawless(tasks, known, at);
            if at < last {
                assert(!is_flawless(rest, known, at));
            }
        }
    }
}

proof fn lemma_no_need_errors(id: Seq<char>, needs: Seq<Seq<char>>, known: Seq<Seq<char>>)
    ensures
        need_errors(id, needs, known).len() == 0 <==> (forall|k: int|
            0 <= k < needs.len() ==> #[trigger] needs[k] != id && known.contains(needs[k])),
    decreases needs.len(),
{
    if needs.len() > 0 {
        let rest = needs.drop_last();
        lemma_no_need_errors(id, rest, known);
        if forall|k: int| 0 <= k < needs.len() ==> #[trigger] needs[k] != id && known.contains(
            needs[k],
        ) {
            assert forall|k: int| 0 <= k < rest.len() implies #[trigger] rest[k] != id
                && known.contains(rest[k]) by {
                assert(needs[k] == rest[k]);
            }
        } else {
            let k = choose|k: int|
                0 <= k < needs.len() && !(#[trigger] needs[k] != id && known.contains(needs[k]));
            if k < rest.len() {
                assert(rest[k] == needs[k]);
            }
        }
        assert(needs[needs.len() - 1] == needs.last());
    }
}

proof fn lemma_no_cycle_among_task_errors(tasks: Seq<TaskView>, known: Seq<Seq<char>>)
    ensures
        forall|i: int|
            0 <= i < invalid_id_errors(tasks).len() ==> !(#[trigger] invalid_id_errors(
                tasks,
            )[i] is Cycle),
        forall|i: int|
            0 <= i < duplicate_id_errors(tasks).len() ==> !(#[trigger] duplicate_id_errors(
                tasks,
            )[i] is Cycle),
        forall|i: int|
            0 <= i < reserved_id_errors(tasks).len() ==> !(#[trigger] reserved_id_errors(
                tasks,
            )[i] is Cycle),
        forall|i: int|
            0 <= i < missing_field_errors(tasks).len() ==> !(#[trigger] missing_field_errors(
                tasks,
            )[i] is Cycle),
        forall|i: int|
            0 <= i < dependency_errors(tasks, known).len() ==> !(#[trigger] dependency_errors(
                tasks,
                known,
            )[i] is Cycle),
    decreases tasks.len(),
{
    if tasks.len() > 0 {
        lemma_no_cycle_among_task_errors(tasks.drop_last(), known);
        lemma_no_cycle_among_need_errors(tasks.last().id, tasks.last().needs, known);
    }
}

proof fn lemma_no_cycle_among_need_errors(
    id: Seq<char>,
    needs: Seq<Seq<char>>,
    known: Seq<Seq<char>>,
)
    ensures
        forall|i: int|
            0 <= i < need_errors(id, needs, known).len() ==> !(#[trigger] need_errors(
                id,
                needs,
                known,
            )[i] is Cycle),
    decreases needs.len(),
{
    if needs.len() > 0 {
        lemma_no_cycle_among_need_errors(id, needs.drop_last(), known);
    }
}

/// A cycle is reported once, and after everything else: it is the one that the
/// needs that resolve make, with two tasks on it at least and none but the
/// first twice.
pub proof fn law_a_cycle_is_reported_last_and_once(tasks: Seq<TaskView>, at: int)
    requires
        0 <= at < build_errors(tasks).len(),
        build_errors(tasks)[at] is Cycle,
    ensures
        at == build_errors(tasks).len() - 1,
        build_errors(tasks)[at] matches ValidationErrorView::Cycle(path) && dag_of(tasks).is_cycle(
            path,
        ) && path.drop_last().no_duplicates() && path.len() >= 3,
{
    let known = declared_ids(tasks);
    let others = invalid_id_errors(tasks) + duplicate_id_errors(tasks) + reserved_id_errors(tasks)
        + missing_field_errors(tasks) + dependency_errors(tasks, known);
    assert(build_errors(tasks) == others + cycle_errors(dag_of(tasks)));
    if at < others.len() {
        lemma_no_cycle_among_task_errors(tasks, known);
        assert(build_errors(tasks)[at] == others[at]);
    }
    law_dag_of_tasks_is_consistent(tasks);
    dag_of(tasks).law_reported_cycle_is_a_cycle();
}

/// Every problem is reported at once: a bad name, a missing field or a bad
/// dependency of any task is among the errors, whatever else is wrong.
pub proof fn law_every_problem_is_reported(tasks: Seq<TaskView>, at: int)
    requires
        0 <= at < tasks.len(),
    ensures
        !is_valid_id(tasks[at].id) ==> build_errors(tasks).contains(
            ValidationErrorView::InvalidId(tasks[at].id),
        ),
        is_reserved_id(tasks[at].id) ==> build_errors(tasks).contains(
            ValidationErrorView::ReservedId(tasks[at].id),
        ),
        declared_ids(tasks.take(at)).contains(tasks[at].id) ==> build_errors(tasks).contains(
            ValidationErrorView::DuplicateId(tasks[at].id),
        ),
        missing_field(tasks[at]) matches Some(e) ==> build_errors(tasks).contains(e),
        forall|k: int|
            0 <= k < tasks[at].needs.len() ==> (dependency_error(
                tasks[at].id,
                #[trigger] tasks[at].needs[k],
                declared_ids(tasks),
            ) matches Some(e) ==> build_errors(tasks).contains(e)),
{
    let known = declared_ids(tasks);
    lemma_task_errors_hold(tasks, known, at);
    let (a, b, c, d, e, f) = (
        invalid_id_errors(tasks),
        duplicate_id_errors(tasks),
        reserved_id_errors(tasks),
        missing_field_errors(tasks),
        dependency_errors(tasks, known),
        cycle_errors(dag_of(tasks)),
    );
    assert forall|x: ValidationErrorView|
        a.contains(x) || b.contains(x) || c.contains(x) || d.contains(x) || e.contains(
            x,
        ) implies build_errors(tasks).contains(x) by {
        lemma_contains_in_sum(a, b, x);
        lemma_contains_in_sum(a + b, c, x);
        lemma_contains_in_sum(a + b + c, d, x);
        lemma_contains_in_sum(a + b + c + d, e, x);
        lemma_contains_in_sum(a + b + c + d + e, f, x);
    }
}

proof fn lemma_contains_in_sum<T>(a: Seq<T>, b: Seq<T>, x: T)
    ensures
        a.contains(x) || b.contains(x) ==> (a + b).contains(x),
{
    if a.contains(x) {
        assert((a + b)[a.index_of(x)] == x);
    }
    if b.contains(x) {
        assert((a + b)[a.len() + b.index_of(x)] == x);
    }
}

proof fn lemma_task_errors_hold(tasks: Seq<TaskView>, known: Seq<Seq<char>>, at: int)
    requires
        0 <= at < tasks.len(),
    ensures
        !is_valid_id(tasks[at].id) ==> invalid_id_errors(tasks).contains(
            ValidationErrorView::InvalidId(tasks[at].id),
        ),
        is_reserved_id(tasks[at].id) ==> reserved_id_errors(tasks).contains(
            ValidationErrorView::ReservedId(tasks[at].id),
        ),
        declared_ids(tasks.take(at)).contains(tasks[at].id) ==> duplicate_id_errors(tasks).contains(
            ValidationErrorView::DuplicateId(tasks[at].id),
        ),
        missing_field(tasks[at]) matches Some(e) ==> missing_field_errors(tasks).contains(e),
        forall|k: int|
            0 <= k < tasks[at].needs.len() ==> (dependency_error(
                tasks[at].id,
                #[trigger] tasks[at].needs[k],
                known,
            ) matches Some(e) ==> dependency_errors(tasks, known).contains(e)),
    decreases tasks.len(),
{
    let rest = tasks.drop_last();
    let last = tasks.len() - 1;
    if at < last {
        lemma_task_errors_hold(rest, known, at);
        assert(rest.take(at) =~= tasks.take(at));
        assert forall|x: ValidationErrorView| invalid_id_errors(rest).contains(
            x,
        ) implies invalid_id_errors(tasks).contains(x) by {
            assert(invalid_id_errors(tasks)[invalid_id_errors(rest).index_of(x)] == x);
        }
        assert forall|x: ValidationErrorView| reserved_id_errors(rest).contains(
            x,
        ) implies reserved_id_errors(tasks).contains(x) by {
            assert(reserved_id_errors(tasks)[reserved_id_errors(rest).index_of(x)] == x);
        }
        assert forall|x: ValidationErrorView| duplicate_id_errors(rest).contains(
            x,
        ) implies duplicate_id_errors(tasks).contains(x) by {
            assert(duplicate_id_errors(tasks)[duplicate_id_errors(rest).index_of(x)] == x);
        }
        assert forall|x: ValidationErrorView| missing_field_errors(rest).contains(
            x,
        ) implies missing_field_errors(tasks).contains(x) by {
            assert(missing_field_errors(tasks)[missing_field_errors(rest).index_of(x)] == x);
        }
    } else {
        assert(tasks.take(at) =~= rest);
        assert(invalid_id_errors(tasks).len() > 0 ==> invalid_id_errors(tasks).contains(
            invalid_id_errors(tasks).last(),
        ));
        assert(reserved_id_errors(tasks).len() > 0 ==> reserved_id_errors(tasks).contains(
            reserved_id_errors(tasks).last(),
        ));
        assert(duplicate_id_errors(tasks).len() > 0 ==> duplicate_id_errors(tasks).contains(
            duplicate_id_errors(tasks).last(),
        ));
        assert(missing_field_errors(tasks).len() > 0 ==> missing_field_errors(tasks).contains(
            missing_field_errors(tasks).last(),
        ));
    }
    let before = dependency_errors(rest, known);
    let added = need_errors(tasks.last().id, tasks.last().needs, known);
    assert forall|k: int| 0 <= k < tasks[at].needs.len() implies (dependency_error(
        tasks[at].id,
        #[trigger] tasks[at].needs[k],
        known,
    ) matches Some(e) ==> dependency_errors(tasks, known).contains(e)) by {
        if let Some(e) = dependency_error(tasks[at].id, tasks[at].needs[k], known) {
            if at == last {
                lemma_need_errors_hold(tasks[at].id, tasks[at].needs, known, k);
            } else {
                assert(rest[at].needs[k] == tasks[at].needs[k]);
            }
            lemma_contains_in_sum(before, added, e);
        }
    }
}

proof fn lemma_need_errors_hold(
    id: Seq<char>,
    needs: Seq<Seq<char>>,
    known: Seq<Seq<char>>,
    k: int,
)
    requires
        0 <= k < needs.len(),
    ensures
        dependency_error(id, needs[k], known) matches Some(e) ==> need_errors(
            id,
            needs,
            known,
        ).contains(e),
    decreases needs.len(),
{
    if let Some(e) = dependency_error(id, needs[k], known) {
        let all = need_errors(id, needs, known);
        let before = need_errors(id, needs.drop_last(), known);
        if k < needs.len() - 1 {
            lemma_need_errors_hold(id, needs.drop_last(), known, k);
            assert(all[before.index_of(e)] == e);
        } else {
            assert(all[before.len() as int] == e);
        }
    }
}

/// What a validated graph comes to.
#[derive(Debug)]
pub struct Validation {
    /// The graph, when there are no errors.
    pub dag: Option<Dag>,
    pub errors: Vec<ValidationError>,
    pub warnings: Vec<Warning>,
}

/// Whether each task's wall-clock cap, if it has one, is a duration.
pub open spec fn caps_are_durations(tasks: Seq<TaskView>) -> Seq<bool> {
    Seq::new(tasks.len(), |i: int| tasks[i].max_duration matches Some(value) ==> is_duration(value))
}

/// An error for each wall-clock cap that is not a duration, given which are.
pub open spec fn duration_errors(tasks: Seq<TaskView>, are_durations: Seq<bool>) -> Seq<
    ValidationErrorView,
>
    decreases tasks.len(),
{
    if tasks.len() == 0 {
        Seq::empty()
    } else {
        let before = duration_errors(tasks.drop_last(), are_durations);
        match tasks.last().max_duration {
            Some(value) => if are_durations[tasks.len() - 1] {
                before
            } else {
                before.push(ValidationErrorView::InvalidDuration { task: tasks.last().id, value })
            },
            None => before,
        }
    }
}

/// What is wrong with the provider an agent task names.
pub open spec fn provider_errors(
    task: TaskView,
    declared: Seq<DeclaredProvider>,
) -> Seq<ValidationErrorView> {
    match (task.kind, task.provider) {
        (TaskKind::Agent, Some(name)) => if declares(declared, name) {
            Seq::empty()
        } else {
            seq![ValidationErrorView::UnknownProvider { task: task.id, provider: name }]
        },
        _ => Seq::empty(),
    }
}

/// What is worth flagging about an agent task: that nothing looks at its
/// output, and that nothing can tell what it costs.
pub open spec fn agent_warnings(task: TaskView, declared: Seq<DeclaredProvider>) -> Seq<
    WarningView,
> {
    match (task.kind, task.provider) {
        (TaskKind::Agent, Some(name)) => match provider_named(declared, name) {
            Some(provider) => (if task.supervise == Supervise::Unsupervised && task.verify is None {
                seq![WarningView::AgentWithoutVerify(task.id)]
            } else {
                Seq::empty()
            }) + (if task.has_max_cost_usd && provider.adapter is None {
                seq![WarningView::CostCapWithoutAdapter { task: task.id, provider: name }]
            } else {
                Seq::empty()
            }),
            None => Seq::empty(),
        },
        _ => Seq::empty(),
    }
}

/// [`provider_errors`] of each task, one after the other.
pub open spec fn all_provider_errors(
    tasks: Seq<TaskView>,
    declared: Seq<DeclaredProvider>,
) -> Seq<ValidationErrorView>
    decreases tasks.len(),
{
    if tasks.len() == 0 {
        Seq::empty()
    } else {
        all_provider_errors(tasks.drop_last(), declared) + provider_errors(tasks.last(), declared)
    }
}

/// [`agent_warnings`] of each task, one after the other.
pub open spec fn all_agent_warnings(
    tasks: Seq<TaskView>,
    declared: Seq<DeclaredProvider>,
) -> Seq<WarningView>
    decreases tasks.len(),
{
    if tasks.len() == 0 {
        Seq::empty()
    } else {
        all_agent_warnings(tasks.drop_last(), declared) + agent_warnings(tasks.last(), declared)
    }
}

/// Everything that keeps a graph from being run, given which of the tasks'
/// wall-clock caps are durations.
pub open spec fn validation_errors(
    tasks: Seq<TaskView>,
    declared: Seq<DeclaredProvider>,
    are_durations: Seq<bool>,
) -> Seq<ValidationErrorView> {
    build_errors(tasks) + duration_errors(tasks, are_durations) + all_provider_errors(
        tasks,
        declared,
    )
}

/// Validation adds to what building finds and leaves nothing of it out: every
/// wall-clock cap that is not a duration and every provider that is not
/// declared is among the errors too, whatever else is wrong.
pub proof fn law_validation_reports_every_problem(
    tasks: Seq<TaskView>,
    declared: Seq<DeclaredProvider>,
    are_durations: Seq<bool>,
    at: int,
)
    requires
        0 <= at < tasks.len(),
    ensures
        forall|x: ValidationErrorView| #[trigger]
            build_errors(tasks).contains(x) ==> validation_errors(
                tasks,
                declared,
                are_durations,
            ).contains(x),
        (tasks[at].max_duration is Some && !are_durations[at]) ==> validation_errors(
            tasks,
            declared,
            are_durations,
        ).contains(
            ValidationErrorView::InvalidDuration {
                task: tasks[at].id,
                value: tasks[at].max_duration->0,
            },
        ),
        (tasks[at].kind == TaskKind::Agent && tasks[at].provider is Some && !declares(
            declared,
            tasks[at].provider->0,
        )) ==> validation_errors(tasks, declared, are_durations).contains(
            ValidationErrorView::UnknownProvider {
                task: tasks[at].id,
                provider: tasks[at].provider->0,
            },
        ),
{
    let (a, b, c) = (
        build_errors(tasks),
        duration_errors(tasks, are_durations),
        all_provider_errors(tasks, declared),
    );
    lemma_duration_errors_hold(tasks, are_durations, at);
    lemma_provider_errors_hold(tasks, declared, at);
    assert forall|x: ValidationErrorView|
        a.contains(x) || b.contains(x) || c.contains(x) implies validation_errors(
        tasks,
        declared,
        are_durations,
    ).contains(x) by {
        lemma_contains_in_sum(a, b, x);
        lemma_contains_in_sum(a + b, c, x);
    }
}

proof fn lemma_duration_errors_hold(tasks: Seq<TaskView>, are_durations: Seq<bool>, at: int)
    requires
        0 <= at < tasks.len(),
    ensures
        (tasks[at].max_duration is Some && !are_durations[at]) ==> duration_errors(
            tasks,
            are_durations,
        ).contains(
            ValidationErrorView::InvalidDuration {
                task: tasks[at].id,
                value: tasks[at].max_duration->0,
            },
        ),
    decreases tasks.len(),
{
    if tasks[at].max_duration is Some && !are_durations[at] {
        let rest = tasks.drop_last();
        let e = ValidationErrorView::InvalidDuration {
            task: tasks[at].id,
            value: tasks[at].max_duration->0,
        };
        let all = duration_errors(tasks, are_durations);
        let before = duration_errors(rest, are_durations);
        if at < rest.len() {
            lemma_duration_errors_hold(rest, are_durations, at);
            assert(all[before.index_of(e)] == e);
        } else {
            assert(all[before.len() as int] == e);
        }
    }
}

proof fn lemma_provider_errors_hold(
    tasks: Seq<TaskView>,
    declared: Seq<DeclaredProvider>,
    at: int,
)
    requires
        0 <= at < tasks.len(),
    ensures
        forall|x: ValidationErrorView| #[trigger]
            provider_errors(tasks[at], declared).contains(x) ==> all_provider_errors(
                tasks,
                declared,
            ).contains(x),
        (tasks[at].kind == TaskKind::Agent && tasks[at].provider is Some && !declares(
            declared,
            tasks[at].provider->0,
        )) ==> all_provider_errors(tasks, declared).contains(
            ValidationErrorView::UnknownProvider {
                task: tasks[at].id,
                provider: tasks[at].provider->0,
            },
        ),
    decreases tasks.len(),
{
    let rest = tasks.drop_last();
    let before = all_provider_errors(rest, declared);
    let added = provider_errors(tasks.last(), declared);
    if at < rest.len() {
        lemma_provider_errors_hold(rest, declared, at);
    }
    assert forall|x: ValidationErrorView| #[trigger]
        provider_errors(tasks[at], declared).contains(x) implies all_provider_errors(
        tasks,
        declared,
    ).contains(x) by {
        lemma_contains_in_sum(before, added, x);
    }
    if tasks[at].kind == TaskKind::Agent && tasks[at].provider is Some && !declares(
        declared,
        tasks[at].provider->0,
    ) {
        let e = ValidationErrorView::UnknownProvider {
            task: tasks[at].id,
            provider: tasks[at].provider->0,
        };
        assert(provider_errors(tasks[at], declared)[0] == e);
        assert(provider_errors(tasks[at], declared).contains(e));
    }
}

fn unparseable_max_duration(task: &Task, is_duration: bool) -> (error: Option<ValidationError>)
    ensures
        match (error, task@.max_duration) {
            (Some(e), Some(value)) => !is_duration && e@ == (ValidationErrorView::InvalidDuration {
                task: task@.id,
                value,
            }),
            (Some(_), None) => false,
            (None, cap) => cap is None || is_duration,
        },
{
    match &task.max_duration {
        Some(value) => if is_duration {
            None
        } else {
            Some(ValidationError::InvalidDuration { task: task.id.clone(), value: value.clone() })
        },
        None => None,
    }
}

/// Checks that only apply to agent tasks: the provider must exist, and an
/// agent with no oversight at all is worth flagging.
fn check_agent_task(declared: &Vec<DeclaredProvider>, task: &Task) -> (found: (
    Vec<ValidationError>,
    Vec<Warning>,
))
    ensures
        views(found.0@) == provider_errors(task@, declared@),
        views(found.1@) == agent_warnings(task@, declared@),
{
    let mut errors: Vec<ValidationError> = Vec::new();
    let mut warnings: Vec<Warning> = Vec::new();
    match (task.kind, &task.provider) {
        (TaskKind::Agent, Some(name)) => {
            match find_provider(declared, name.as_str()) {
                None => {
                    errors.push(
                        ValidationError::UnknownProvider {
                            task: task.id.clone(),
                            provider: name.clone(),
                        },
                    );
                },
                Some(provider) => {
                    if task.supervise == Supervise::Unsupervised && task.verify.is_none() {
                        warnings.push(Warning::AgentWithoutVerify(task.id.clone()));
                    }
                    if task.has_max_cost_usd && provider.adapter.is_none() {
                        warnings.push(
                            Warning::CostCapWithoutAdapter {
                                task: task.id.clone(),
                                provider: name.clone(),
                            },
                        );
                    }
                },
            }
        },
        _ => {},
    }
    assert(views(errors@) =~= provider_errors(task@, declared@));
    assert(views(warnings@) =~= agent_warnings(task@, declared@));
    (errors, warnings)
}

/// Everything that is wrong with a graph and everything worth flagging, and
/// the graph itself when nothing is wrong.
pub fn validate(graph: &Graph) -> (validation: Validation)
    requires
        forall|i: int|
            0 <= i < graph.tasks.len() ==> ((#[trigger] graph.tasks@[i]).max_duration matches Some(
                value,
            ) ==> is_countable(value@)),
    ensures
        views(validation.errors@) == validation_errors(
            views(graph.tasks@),
            graph.providers@,
            caps_are_durations(views(graph.tasks@)),
        ),
        views(validation.warnings@) == all_agent_warnings(views(graph.tasks@), graph.providers@),
        match validation.dag {
            Some(dag) => validation.errors.len() == 0 && dag@ == dag_of(views(graph.tasks@)),
            None => validation.errors.len() > 0,
        },
{
    let mut are_durations: Vec<bool> = Vec::new();
    let mut at: usize = 0;
    while at < graph.tasks.len()
        invariant
            at <= graph.tasks.len(),
            are_durations.len() == at,
            forall|i: int|
                0 <= i < graph.tasks.len() ==> ((
                #[trigger] graph.tasks@[i]).max_duration matches Some(value) ==> is_countable(
                    value@,
                )),
            forall|i: int|
                0 <= i < at ==> #[trigger] are_durations@[i] == caps_are_durations(
                    views(graph.tasks@),
                )[i],
        decreases graph.tasks.len() - at,
    {
        assert(views(graph.tasks@)[at as int] == graph.tasks@[at as int]@);
        let readable = match &graph.tasks[at].max_duration {
            Some(value) => humantime_parse(value.as_str()).is_ok(),
            None => true,
        };
        are_durations.push(readable);
        at = at + 1;
    }
    assert(are_durations@ =~= caps_are_durations(views(graph.tasks@)));
    validate_given(graph, &are_durations)
}

/// [`validate`], told which of the tasks' wall-clock caps are durations.
pub fn validate_given(graph: &Graph, are_durations: &Vec<bool>) -> (validation: Validation)
    requires
        are_durations.len() == graph.tasks.len(),
    ensures
        views(validation.errors@) == validation_errors(
            views(graph.tasks@),
            graph.providers@,
            are_durations@,
        ),
        views(validation.warnings@) == all_agent_warnings(views(graph.tasks@), graph.providers@),
        match validation.dag {
            Some(dag) => validation.errors.len() == 0 && dag@ == dag_of(views(graph.tasks@)),
            None => validation.errors.len() > 0,
        },
{
    let ghost all = views(graph.tasks@);
    let mut unreadable: Vec<ValidationError> = Vec::new();
    let mut unknown: Vec<ValidationError> = Vec::new();
    let mut warnings: Vec<Warning> = Vec::new();
    let mut at: usize = 0;
    assert(views(unreadable@) =~= duration_errors(all.take(0), are_durations@));
    assert(views(unknown@) =~= all_provider_errors(all.take(0), graph.providers@));
    assert(views(warnings@) =~= all_agent_warnings(all.take(0), graph.providers@));
    while at < graph.tasks.len()
        invariant
            at <= graph.tasks.len(),
            are_durations.len() == graph.tasks.len(),
            all == views(graph.tasks@),
            views(unreadable@) == duration_errors(all.take(at as int), are_durations@),
            views(unknown@) == all_provider_errors(all.take(at as int), graph.providers@),
            views(warnings@) == all_agent_warnings(all.take(at as int), graph.providers@),
        decreases graph.tasks.len() - at,
    {
        let ghost (was_unreadable, was_unknown, was_warnings) = (unreadable@, unknown@, warnings@);
        let task = &graph.tasks[at];
        assert(all.take(at + 1).drop_last() =~= all.take(at as int));
        assert(all.take(at + 1).last() == task@);
        match unparseable_max_duration(task, are_durations[at]) {
            Some(e) => {
                unreadable.push(e);
                assert(views(unreadable@) =~= views(was_unreadable).push(e@));
            },
            None => {},
        }
        let (mut errors, mut flagged) = check_agent_task(&graph.providers, task);
        let ghost (new_errors, new_flagged) = (errors@, flagged@);
        unknown.append(&mut errors);
        assert(views(unknown@) =~= views(was_unknown) + views(new_errors));
        warnings.append(&mut flagged);
        assert(views(warnings@) =~= views(was_warnings) + views(new_flagged));
        at = at + 1;
    }
    assert(all.take(at as int) =~= all);
    let (dag, mut errors) = match Dag::build(graph.tasks.as_slice()) {
        Ok(dag) => (Some(dag), Vec::new()),
        Err(errors) => (None, errors),
    };
    let ghost (structural, caps, providers) = (errors@, unreadable@, unknown@);
    assert(views(structural) =~= build_errors(all));
    errors.append(&mut unreadable);
    errors.append(&mut unknown);
    assert(views(errors@) =~= views(structural) + views(caps) + views(providers));
    if errors.len() > 0 {
        Validation { dag: None, errors, warnings }
    } else {
        Validation { dag, errors, warnings }
    }
}

} // verus!
