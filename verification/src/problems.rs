//! What is told of a graph that cannot be run, as laws: each problem where it
//! stands, in turn, and nothing else.

use crate::config::{declares, law_the_first_block_of_a_name_is_found, provider_named,
    DeclaredProvider, Supervise, TaskKind, TaskView};
use crate::dag::{agent_warnings, all_agent_warnings, all_provider_errors, build_errors, cycle_errors, dag_of, declared_ids, dependency_error,
    dependency_errors, duplicate_id_errors, duration_errors, invalid_id_errors, is_declared, is_id_char,
    is_valid_id, law_a_cycle_is_reported_last_and_once, law_dag_of_tasks_is_consistent,
    law_the_graph_holds_exactly_the_declared_edges, lemma_declared_ids, lemma_filter_keeps_all, missing_field, missing_field_errors,
    need_errors, provider_errors, reserved_id_errors, validation_errors, ValidationErrorView,
    WarningView};
use crate::lines::joined;
use vstd::prelude::*;

verus! {

proof fn lemma_filter_keeps_none<T>(list: Seq<T>, keeps: spec_fn(T) -> bool)
    requires
        forall|i: int| 0 <= i < list.len() ==> !keeps(#[trigger] list[i]),
    ensures
        list.filter(keeps) == Seq::<T>::empty(),
    decreases list.len(),
{
    reveal(Seq::filter);
    if list.len() > 0 {
        let rest = list.drop_last();
        assert forall|i: int| 0 <= i < rest.len() implies !keeps(#[trigger] rest[i]) by {
            assert(rest[i] == list[i]);
        }
        lemma_filter_keeps_none(rest, keeps);
        assert(!keeps(list[list.len() - 1]));
    } else {
        assert(list =~= Seq::<T>::empty());
    }
}

/// What keeps a need from being an edge of the graph.
pub open spec fn wrong_need(tasks: Seq<TaskView>, id: Seq<char>, need: Seq<char>) -> Option<
    ValidationErrorView,
> {
    if need == id {
        Some(ValidationErrorView::SelfDep(id))
    } else if is_declared(tasks, need) {
        None
    } else {
        Some(ValidationErrorView::UnknownDep { task: id, dep: need })
    }
}

proof fn lemma_wrong_needs(tasks: Seq<TaskView>, id: Seq<char>, needs: Seq<Seq<char>>)
    ensures
        need_errors(id, needs, declared_ids(tasks)) == needs.filter_map(
            |need: Seq<char>| wrong_need(tasks, id, need),
        ),
        forall|i: int|
            0 <= i < need_errors(id, needs, declared_ids(tasks)).len() ==> ({
                let e = #[trigger] need_errors(id, needs, declared_ids(tasks))[i];
                e is SelfDep || e is UnknownDep
            }),
    decreases needs.len(),
{
    let known = declared_ids(tasks);
    if needs.len() > 0 {
        lemma_declared_ids(tasks);
        let rest = needs.drop_last();
        let before = need_errors(id, rest, known);
        lemma_wrong_needs(tasks, id, rest);
        assert(wrong_need(tasks, id, needs.last()) == dependency_error(id, needs.last(), known));
        if let Some(e) = wrong_need(tasks, id, needs.last()) {
            assert(before + seq![e] =~= before.push(e));
        }
    }
}

proof fn lemma_dependency_errors(tasks: Seq<TaskView>, first: Seq<TaskView>)
    ensures
        dependency_errors(first, declared_ids(tasks)) == first.flat_map(
            |task: TaskView|
                task.needs.filter_map(|need: Seq<char>| wrong_need(tasks, task.id, need)),
        ),
        forall|i: int|
            0 <= i < dependency_errors(first, declared_ids(tasks)).len() ==> ({
                let e = #[trigger] dependency_errors(first, declared_ids(tasks))[i];
                e is SelfDep || e is UnknownDep
            }),
    decreases first.len(),
{
    let known = declared_ids(tasks);
    let wrong = |task: TaskView|
        task.needs.filter_map(|need: Seq<char>| wrong_need(tasks, task.id, need));
    if first.len() > 0 {
        let rest = first.drop_last();
        let last = first.last();
        lemma_dependency_errors(tasks, rest);
        lemma_wrong_needs(tasks, last.id, last.needs);
        assert(rest.push(last) =~= first);
        rest.lemma_flat_map_push(wrong, last);
        let (a, b) = (dependency_errors(rest, known), need_errors(last.id, last.needs, known));
        assert forall|i: int| 0 <= i < (a + b).len() implies ({
            let e = #[trigger] (a + b)[i];
            e is SelfDep || e is UnknownDep
        }) by {
            if i < a.len() {
                assert(a[i] == (a + b)[i]);
            } else {
                assert(b[i - a.len()] == (a + b)[i]);
            }
        }
    } else {
        assert(first.map_values(wrong) =~= Seq::empty());
    }
}

/// The error of a task whose name cannot be used.
pub open spec fn bad_name(task: TaskView) -> Option<ValidationErrorView> {
    if is_valid_id(task.id) {
        None
    } else {
        Some(ValidationErrorView::InvalidId(task.id))
    }
}

/// The error of a task whose name is kept.
pub open spec fn kept_name(task: TaskView) -> Option<ValidationErrorView> {
    if task.id.len() > 0 && task.id[0] == '_' {
        Some(ValidationErrorView::ReservedId(task.id))
    } else {
        None
    }
}

/// The error of a shell task with nothing to run.
pub open spec fn nothing_to_run(task: TaskView) -> Option<ValidationErrorView> {
    if task.kind == TaskKind::Shell && task.run is None {
        Some(ValidationErrorView::ShellMissingRun(task.id))
    } else {
        None
    }
}

/// The error of an agent task with nothing to be asked.
pub open spec fn nothing_asked(task: TaskView) -> Option<ValidationErrorView> {
    if task.kind == TaskKind::Agent && task.prompt is None && task.prompt_file is None {
        Some(ValidationErrorView::AgentMissingPrompt(task.id))
    } else {
        None
    }
}

/// The error of the task at `i` if an earlier one has its name.
pub open spec fn taken_name(tasks: Seq<TaskView>, i: int) -> Option<ValidationErrorView> {
    if exists|j: int| 0 <= j < i && (#[trigger] tasks[j]).id == tasks[i].id {
        Some(ValidationErrorView::DuplicateId(tasks[i].id))
    } else {
        None
    }
}

/// The numbers below `n`, in order.
pub open spec fn places(n: nat) -> Seq<int> {
    Seq::new(n, |i: int| i)
}

proof fn lemma_task_errors_are(tasks: Seq<TaskView>)
    ensures
        invalid_id_errors(tasks) == tasks.filter_map(|t: TaskView| bad_name(t)),
        reserved_id_errors(tasks) == tasks.filter_map(|t: TaskView| kept_name(t)),
        missing_field_errors(tasks).filter(|e: ValidationErrorView| e is ShellMissingRun)
            == tasks.filter_map(|t: TaskView| nothing_to_run(t)),
        missing_field_errors(tasks).filter(|e: ValidationErrorView| e is AgentMissingPrompt)
            == tasks.filter_map(|t: TaskView| nothing_asked(t)),
        forall|i: int|
            0 <= i < invalid_id_errors(tasks).len() ==> #[trigger] invalid_id_errors(
                tasks,
            )[i] is InvalidId,
        forall|i: int|
            0 <= i < reserved_id_errors(tasks).len() ==> #[trigger] reserved_id_errors(
                tasks,
            )[i] is ReservedId,
        forall|i: int|
            0 <= i < missing_field_errors(tasks).len() ==> ({
                let e = #[trigger] missing_field_errors(tasks)[i];
                e is ShellMissingRun || e is AgentMissingPrompt
            }),
        forall|i: int|
            0 <= i < duplicate_id_errors(tasks).len() ==> #[trigger] duplicate_id_errors(
                tasks,
            )[i] is DuplicateId,
    decreases tasks.len(),
{
    reveal(Seq::filter);
    let a = |e: ValidationErrorView| e is ShellMissingRun;
    let b = |e: ValidationErrorView| e is AgentMissingPrompt;
    if tasks.len() > 0 {
        let rest = tasks.drop_last();
        let last = tasks.last();
        lemma_task_errors_are(rest);
        if let Some(e) = bad_name(last) {
            assert(invalid_id_errors(rest) + seq![e] =~= invalid_id_errors(tasks));
        }
        if let Some(e) = kept_name(last) {
            assert(reserved_id_errors(rest) + seq![e] =~= reserved_id_errors(tasks));
        }
        if let Some(e) = missing_field(last) {
            let before = missing_field_errors(rest);
            assert(missing_field_errors(tasks).drop_last() =~= before);
            assert(before.filter(a) + seq![e] =~= before.filter(a).push(e));
            assert(before.filter(b) + seq![e] =~= before.filter(b).push(e));
        }
    } else {
        let none = Seq::<ValidationErrorView>::empty();
        assert(missing_field_errors(tasks) =~= none);
        assert(none.filter(a) =~= none);
        assert(none.filter(b) =~= none);
    }
}

proof fn lemma_duplicates_are(tasks: Seq<TaskView>, n: nat)
    requires
        n <= tasks.len(),
    ensures
        duplicate_id_errors(tasks.take(n as int)) == places(n).filter_map(
            |i: int| taken_name(tasks, i),
        ),
    decreases n,
{
    if n > 0 {
        let m = (n - 1) as nat;
        let first = tasks.take(n as int);
        lemma_duplicates_are(tasks, m);
        assert(first.drop_last() =~= tasks.take(m as int));
        assert(places(n).drop_last() =~= places(m));
        lemma_declared_ids(tasks.take(m as int));
        let id = tasks[m as int].id;
        if is_declared(tasks.take(m as int), id) {
            let j = choose|j: int|
                0 <= j < m && (#[trigger] tasks.take(m as int)[j]).id == id;
            assert(tasks[j].id == id);
        }
        if taken_name(tasks, m as int) is Some {
            let j = choose|j: int| 0 <= j < m && (#[trigger] tasks[j]).id == id;
            assert(tasks.take(m as int)[j].id == id);
            assert(is_declared(tasks.take(m as int), id));
        }
        let before = duplicate_id_errors(tasks.take(m as int));
        let e = ValidationErrorView::DuplicateId(id);
        assert(before + seq![e] =~= before.push(e));
        assert(declared_ids(first.drop_last()).contains(id) <==> is_declared(
            tasks.take(m as int),
            id,
        ));
    } else {
        assert(duplicate_id_errors(tasks.take(0)) =~= places(0).filter_map(
            |i: int| taken_name(tasks, i),
        ));
    }
}

proof fn lemma_build_errors_of(tasks: Seq<TaskView>, of: spec_fn(ValidationErrorView) -> bool)
    ensures
        build_errors(tasks).filter(of) == invalid_id_errors(tasks).filter(of)
            + duplicate_id_errors(tasks).filter(of) + reserved_id_errors(tasks).filter(of)
            + missing_field_errors(tasks).filter(of) + dependency_errors(
            tasks,
            declared_ids(tasks),
        ).filter(of) + cycle_errors(dag_of(tasks)).filter(of),
{
    let (a, b, c, d, e, f) = (
        invalid_id_errors(tasks),
        duplicate_id_errors(tasks),
        reserved_id_errors(tasks),
        missing_field_errors(tasks),
        dependency_errors(tasks, declared_ids(tasks)),
        cycle_errors(dag_of(tasks)),
    );
    Seq::filter_distributes_over_add(a, b, of);
    Seq::filter_distributes_over_add(a + b, c, of);
    Seq::filter_distributes_over_add(a + b + c, d, of);
    Seq::filter_distributes_over_add(a + b + c + d, e, of);
    Seq::filter_distributes_over_add(a + b + c + d + e, f, of);
}

proof fn lemma_invalid_errors_of_a_build(tasks: Seq<TaskView>)
    ensures
        build_errors(tasks).filter(|e: ValidationErrorView| e is InvalidId) == tasks.filter_map(|t: TaskView| bad_name(t)),
{
    let of = |e: ValidationErrorView| e is InvalidId;
    let none = Seq::<ValidationErrorView>::empty();
    let all = invalid_id_errors(tasks);
    lemma_build_errors_of(tasks, of);
    lemma_task_errors_are(tasks);
    lemma_dependency_errors(tasks, tasks);
    lemma_filter_keeps_all(invalid_id_errors(tasks), of);
    lemma_filter_keeps_none(duplicate_id_errors(tasks), of);
    lemma_filter_keeps_none(reserved_id_errors(tasks), of);
    lemma_filter_keeps_none(missing_field_errors(tasks), of);
    lemma_filter_keeps_none(dependency_errors(tasks, declared_ids(tasks)), of);
    lemma_filter_keeps_none(cycle_errors(dag_of(tasks)), of);
    assert(all + none + none + none + none + none =~= all);
}

proof fn lemma_duplicate_errors_of_a_build(tasks: Seq<TaskView>)
    ensures
        build_errors(tasks).filter(|e: ValidationErrorView| e is DuplicateId) == places(tasks.len()).filter_map(|i: int| taken_name(tasks, i)),
{
    let of = |e: ValidationErrorView| e is DuplicateId;
    let none = Seq::<ValidationErrorView>::empty();
    let all = duplicate_id_errors(tasks);
    lemma_build_errors_of(tasks, of);
    lemma_task_errors_are(tasks);
    lemma_duplicates_are(tasks, tasks.len());
    assert(tasks.take(tasks.len() as int) =~= tasks);
    lemma_dependency_errors(tasks, tasks);
    lemma_filter_keeps_none(invalid_id_errors(tasks), of);
    lemma_filter_keeps_all(duplicate_id_errors(tasks), of);
    lemma_filter_keeps_none(reserved_id_errors(tasks), of);
    lemma_filter_keeps_none(missing_field_errors(tasks), of);
    lemma_filter_keeps_none(dependency_errors(tasks, declared_ids(tasks)), of);
    lemma_filter_keeps_none(cycle_errors(dag_of(tasks)), of);
    assert(none + all + none + none + none + none =~= all);
}

proof fn lemma_reserved_errors_of_a_build(tasks: Seq<TaskView>)
    ensures
        build_errors(tasks).filter(|e: ValidationErrorView| e is ReservedId) == tasks.filter_map(|t: TaskView| kept_name(t)),
{
    let of = |e: ValidationErrorView| e is ReservedId;
    let none = Seq::<ValidationErrorView>::empty();
    let all = reserved_id_errors(tasks);
    lemma_build_errors_of(tasks, of);
    lemma_task_errors_are(tasks);
    lemma_dependency_errors(tasks, tasks);
    lemma_filter_keeps_none(invalid_id_errors(tasks), of);
    lemma_filter_keeps_none(duplicate_id_errors(tasks), of);
    lemma_filter_keeps_all(reserved_id_errors(tasks), of);
    lemma_filter_keeps_none(missing_field_errors(tasks), of);
    lemma_filter_keeps_none(dependency_errors(tasks, declared_ids(tasks)), of);
    lemma_filter_keeps_none(cycle_errors(dag_of(tasks)), of);
    assert(none + none + all + none + none + none =~= all);
}

proof fn lemma_unrunnable_errors_of_a_build(tasks: Seq<TaskView>)
    ensures
        build_errors(tasks).filter(|e: ValidationErrorView| e is ShellMissingRun) == tasks.filter_map(|t: TaskView| nothing_to_run(t)),
{
    let of = |e: ValidationErrorView| e is ShellMissingRun;
    let none = Seq::<ValidationErrorView>::empty();
    let all = missing_field_errors(tasks).filter(of);
    lemma_build_errors_of(tasks, of);
    lemma_task_errors_are(tasks);
    lemma_dependency_errors(tasks, tasks);
    lemma_filter_keeps_none(invalid_id_errors(tasks), of);
    lemma_filter_keeps_none(duplicate_id_errors(tasks), of);
    lemma_filter_keeps_none(reserved_id_errors(tasks), of);
    lemma_filter_keeps_none(dependency_errors(tasks, declared_ids(tasks)), of);
    lemma_filter_keeps_none(cycle_errors(dag_of(tasks)), of);
    assert(none + none + none + all + none + none =~= all);
}

proof fn lemma_unasked_errors_of_a_build(tasks: Seq<TaskView>)
    ensures
        build_errors(tasks).filter(|e: ValidationErrorView| e is AgentMissingPrompt) == tasks.filter_map(|t: TaskView| nothing_asked(t)),
{
    let of = |e: ValidationErrorView| e is AgentMissingPrompt;
    let none = Seq::<ValidationErrorView>::empty();
    let all = missing_field_errors(tasks).filter(of);
    lemma_build_errors_of(tasks, of);
    lemma_task_errors_are(tasks);
    lemma_dependency_errors(tasks, tasks);
    lemma_filter_keeps_none(invalid_id_errors(tasks), of);
    lemma_filter_keeps_none(duplicate_id_errors(tasks), of);
    lemma_filter_keeps_none(reserved_id_errors(tasks), of);
    lemma_filter_keeps_none(dependency_errors(tasks, declared_ids(tasks)), of);
    lemma_filter_keeps_none(cycle_errors(dag_of(tasks)), of);
    assert(none + none + none + all + none + none =~= all);
}

proof fn lemma_dependency_errors_of_a_build(tasks: Seq<TaskView>)
    ensures
        build_errors(tasks).filter(|e: ValidationErrorView| e is SelfDep || e is UnknownDep) == tasks.flat_map(
            |task: TaskView|
                task.needs.filter_map(|need: Seq<char>| wrong_need(tasks, task.id, need)),
        ),
{
    let of = |e: ValidationErrorView| e is SelfDep || e is UnknownDep;
    let none = Seq::<ValidationErrorView>::empty();
    let all = dependency_errors(tasks, declared_ids(tasks));
    lemma_build_errors_of(tasks, of);
    lemma_task_errors_are(tasks);
    lemma_dependency_errors(tasks, tasks);
    lemma_filter_keeps_none(invalid_id_errors(tasks), of);
    lemma_filter_keeps_none(duplicate_id_errors(tasks), of);
    lemma_filter_keeps_none(reserved_id_errors(tasks), of);
    lemma_filter_keeps_none(missing_field_errors(tasks), of);
    lemma_filter_keeps_all(dependency_errors(tasks, declared_ids(tasks)), of);
    lemma_filter_keeps_none(cycle_errors(dag_of(tasks)), of);
    assert(none + none + none + none + all + none =~= all);
}

proof fn lemma_other_errors_of_a_build(tasks: Seq<TaskView>)
    ensures
        build_errors(tasks).filter(|e: ValidationErrorView| e is UnknownProvider || e is InvalidDuration) == Seq::<ValidationErrorView>::empty(),
{
    let of = |e: ValidationErrorView| e is UnknownProvider || e is InvalidDuration;
    let none = Seq::<ValidationErrorView>::empty();
    let all = none;
    lemma_build_errors_of(tasks, of);
    lemma_task_errors_are(tasks);
    lemma_dependency_errors(tasks, tasks);
    lemma_filter_keeps_none(invalid_id_errors(tasks), of);
    lemma_filter_keeps_none(duplicate_id_errors(tasks), of);
    lemma_filter_keeps_none(reserved_id_errors(tasks), of);
    lemma_filter_keeps_none(missing_field_errors(tasks), of);
    lemma_filter_keeps_none(dependency_errors(tasks, declared_ids(tasks)), of);
    lemma_filter_keeps_none(cycle_errors(dag_of(tasks)), of);
    assert(none + none + none + none + none + none =~= all);
}

/// Each problem is reported once for each place it stands at, in the order of
/// the tasks and of their needs, and nothing is reported that is not there.
pub proof fn law_problems_are_reported_in_turn(tasks: Seq<TaskView>)
    ensures
        build_errors(tasks).filter(|e: ValidationErrorView| e is InvalidId) == tasks.filter_map(
            |t: TaskView| bad_name(t),
        ),
        build_errors(tasks).filter(|e: ValidationErrorView| e is DuplicateId) == places(
            tasks.len(),
        ).filter_map(|i: int| taken_name(tasks, i)),
        build_errors(tasks).filter(|e: ValidationErrorView| e is ReservedId) == tasks.filter_map(
            |t: TaskView| kept_name(t),
        ),
        build_errors(tasks).filter(|e: ValidationErrorView| e is ShellMissingRun)
            == tasks.filter_map(|t: TaskView| nothing_to_run(t)),
        build_errors(tasks).filter(|e: ValidationErrorView| e is AgentMissingPrompt)
            == tasks.filter_map(|t: TaskView| nothing_asked(t)),
        build_errors(tasks).filter(|e: ValidationErrorView| e is SelfDep || e is UnknownDep)
            == tasks.flat_map(
            |task: TaskView|
                task.needs.filter_map(|need: Seq<char>| wrong_need(tasks, task.id, need)),
        ),
        build_errors(tasks).filter(
            |e: ValidationErrorView| e is UnknownProvider || e is InvalidDuration,
        ).len() == 0,
{
    lemma_invalid_errors_of_a_build(tasks);
    lemma_duplicate_errors_of_a_build(tasks);
    lemma_reserved_errors_of_a_build(tasks);
    lemma_unrunnable_errors_of_a_build(tasks);
    lemma_unasked_errors_of_a_build(tasks);
    lemma_dependency_errors_of_a_build(tasks);
    lemma_other_errors_of_a_build(tasks);
}

/// A name made of usable names is usable, and no usable name holds what would
/// lead out of a directory, separate words or end a branch's name.
pub proof fn law_usable_names_are_plain(a: Seq<char>, b: Seq<char>, c: char)
    ensures
        a.len() > 0 && b.len() > 0 ==> (is_valid_id(a + b) <==> is_valid_id(a) && is_valid_id(b)),
        !is_valid_id(Seq::empty()),
        is_valid_id(a) && a.contains(c) ==> is_valid_id(seq![c]),
        is_valid_id(seq![c]) ==> c as u32 <= 122 && c != '/' && c != '.' && c != ' ' && c != ':'
            && c != '~' && c != '\\' && c != '\n',
        (c as u32 - 'a' as u32) < 26 && c >= 'a' ==> is_valid_id(seq![c]),
        (c as u32 - 'A' as u32) < 26 && c >= 'A' ==> is_valid_id(seq![c]),
        (c as u32 - '0' as u32) < 10 && c >= '0' ==> is_valid_id(seq![c]),
        c == '-' || c == '_' ==> is_valid_id(seq![c]),
{
    if a.len() > 0 && b.len() > 0 {
        let ab = a + b;
        if is_valid_id(ab) {
            assert forall|i: int| 0 <= i < a.len() implies is_id_char(#[trigger] a[i]) by {
                assert(ab[i] == a[i]);
            }
            assert forall|i: int| 0 <= i < b.len() implies is_id_char(#[trigger] b[i]) by {
                assert(ab[a.len() + i] == b[i]);
            }
        }
    }
    if is_valid_id(a) && a.contains(c) {
        assert(is_id_char(a[a.index_of(c)]));
    }
    if is_valid_id(seq![c]) {
        assert(is_id_char(seq![c][0]));
    }
}

/// The error of an agent task whose provider nobody declared.
pub open spec fn stranger(task: TaskView, declared: Seq<DeclaredProvider>) -> Option<
    ValidationErrorView,
> {
    match task.provider {
        Some(name) => if task.kind == TaskKind::Agent && (forall|i: int|
            0 <= i < declared.len() ==> (#[trigger] declared[i]).name@ != name) {
            Some(ValidationErrorView::UnknownProvider { task: task.id, provider: name })
        } else {
            None
        },
        None => None,
    }
}

/// The error of the task at `i` if its wall-clock cap is not a duration.
pub open spec fn unreadable_cap(
    tasks: Seq<TaskView>,
    are_durations: Seq<bool>,
    i: int,
) -> Option<ValidationErrorView> {
    match tasks[i].max_duration {
        Some(value) => if are_durations[i] {
            None
        } else {
            Some(ValidationErrorView::InvalidDuration { task: tasks[i].id, value })
        },
        None => None,
    }
}

proof fn lemma_strangers_are(tasks: Seq<TaskView>, declared: Seq<DeclaredProvider>)
    ensures
        all_provider_errors(tasks, declared) == tasks.filter_map(
            |t: TaskView| stranger(t, declared),
        ),
    decreases tasks.len(),
{
    if tasks.len() > 0 {
        let rest = tasks.drop_last();
        lemma_strangers_are(rest, declared);
        let before = all_provider_errors(rest, declared);
        let last = tasks.last();
        match stranger(last, declared) {
            Some(e) => {
                assert(provider_errors(last, declared) =~= seq![e]);
            },
            None => {
                assert(provider_errors(last, declared) =~= Seq::empty());
                assert(before + Seq::empty() =~= before);
            },
        }
    }
}

proof fn lemma_unreadable_caps_are(tasks: Seq<TaskView>, are_durations: Seq<bool>, n: nat)
    requires
        n <= tasks.len(),
    ensures
        duration_errors(tasks.take(n as int), are_durations) == places(n).filter_map(
            |i: int| unreadable_cap(tasks, are_durations, i),
        ),
    decreases n,
{
    if n > 0 {
        let m = (n - 1) as nat;
        lemma_unreadable_caps_are(tasks, are_durations, m);
        assert(tasks.take(n as int).drop_last() =~= tasks.take(m as int));
        assert(places(n).drop_last() =~= places(m));
        let before = duration_errors(tasks.take(m as int), are_durations);
        if let Some(e) = unreadable_cap(tasks, are_durations, m as int) {
            assert(before + seq![e] =~= before.push(e));
        }
    } else {
        assert(duration_errors(tasks.take(0), are_durations) =~= places(0).filter_map(
            |i: int| unreadable_cap(tasks, are_durations, i),
        ));
    }
}

/// Validation tells first what building tells, all of it, then of each cap that
/// is not a duration, then of each provider that nobody declared, each in the
/// order of the tasks; and of nothing else.
pub proof fn law_validation_adds_caps_and_providers(
    tasks: Seq<TaskView>,
    declared: Seq<DeclaredProvider>,
    are_durations: Seq<bool>,
)
    ensures
        validation_errors(tasks, declared, are_durations) == build_errors(tasks) + places(
            tasks.len(),
        ).filter_map(|i: int| unreadable_cap(tasks, are_durations, i)) + tasks.filter_map(
            |t: TaskView| stranger(t, declared),
        ),
{
    lemma_strangers_are(tasks, declared);
    lemma_unreadable_caps_are(tasks, are_durations, tasks.len());
    assert(tasks.take(tasks.len() as int) =~= tasks);
}

/// Whether the first block of this name is there and meets `is_so`.
pub open spec fn block_is(
    declared: Seq<DeclaredProvider>,
    name: Option<Seq<char>>,
    is_so: spec_fn(DeclaredProvider) -> bool,
) -> bool {
    exists|at: int|
        0 <= at < declared.len() && name == Some((#[trigger] declared[at]).name@) && is_so(
            declared[at],
        ) && forall|i: int|
            0 <= i < at ==> (#[trigger] declared[i]).name@ != declared[at].name@
}

/// The warning of an agent task whose work nobody looks at.
pub open spec fn unwatched(task: TaskView, declared: Seq<DeclaredProvider>) -> Option<WarningView> {
    if task.kind == TaskKind::Agent && block_is(declared, task.provider, |block| true)
        && task.supervise == Supervise::Unsupervised && task.verify is None {
        Some(WarningView::AgentWithoutVerify(task.id))
    } else {
        None
    }
}

/// The warning of an agent task whose cost nobody reports.
pub open spec fn uncapped(task: TaskView, declared: Seq<DeclaredProvider>) -> Option<WarningView> {
    if task.kind == TaskKind::Agent && task.has_max_cost_usd && block_is(
        declared,
        task.provider,
        |block: DeclaredProvider| block.provider.adapter is None,
    ) {
        Some(WarningView::CostCapWithoutAdapter { task: task.id, provider: task.provider->0 })
    } else {
        None
    }
}

proof fn lemma_found_block(
    declared: Seq<DeclaredProvider>,
    name: Seq<char>,
    is_so: spec_fn(DeclaredProvider) -> bool,
) -> (at: int)
    ensures
        block_is(declared, Some(name), is_so) <==> provider_named(declared, name) is Some && is_so(
            declared[at],
        ),
        provider_named(declared, name) is Some ==> 0 <= at < declared.len() && declared[at].provider
            == provider_named(declared, name)->0,
    decreases declared.len(),
{
    if declares(declared, name) {
        let at = lemma_first_of(declared, name);
        law_the_first_block_of_a_name_is_found(declared, at);
        assert(declared[at].name@ == name);
        if block_is(declared, Some(name), is_so) {
            let other = choose|at: int|
                0 <= at < declared.len() && Some(name) == Some((#[trigger] declared[at]).name@)
                    && is_so(declared[at]) && forall|i: int|
                    0 <= i < at ==> (#[trigger] declared[i]).name@ != declared[at].name@;
            assert(declared[other].name@ == name);
            assert(other == at);
        }
        at
    } else {
        lemma_nothing_found(declared, name);
        if block_is(declared, Some(name), is_so) {
            let other = choose|at: int|
                0 <= at < declared.len() && Some(name) == Some((#[trigger] declared[at]).name@)
                    && is_so(declared[at]) && forall|i: int|
                    0 <= i < at ==> (#[trigger] declared[i]).name@ != declared[at].name@;
            assert(declared[other].name@ == name);
        }
        0
    }
}

proof fn lemma_nothing_found(declared: Seq<DeclaredProvider>, name: Seq<char>)
    requires
        !declares(declared, name),
    ensures
        provider_named(declared, name) is None,
    decreases declared.len(),
{
    if declared.len() > 0 {
        let rest = declared.skip(1);
        if declares(rest, name) {
            let i = choose|i: int| 0 <= i < rest.len() && (#[trigger] rest[i]).name@ == name;
            assert(declared[i + 1].name@ == name);
        }
        assert(declared[0].name@ != name);
        lemma_nothing_found(rest, name);
    }
}

proof fn lemma_first_of(declared: Seq<DeclaredProvider>, name: Seq<char>) -> (at: int)
    requires
        declares(declared, name),
    ensures
        0 <= at < declared.len(),
        declared[at].name@ == name,
        forall|i: int| 0 <= i < at ==> (#[trigger] declared[i]).name@ != name,
    decreases declared.len(),
{
    let rest = declared.drop_last();
    if declares(rest, name) {
        let at = lemma_first_of(rest, name);
        assert forall|i: int| 0 <= i < at implies (#[trigger] declared[i]).name@ != name by {
            assert(rest[i] == declared[i]);
        }
        at
    } else {
        let at = choose|i: int| 0 <= i < declared.len() && (#[trigger] declared[i]).name@ == name;
        if at < rest.len() {
            assert(rest[at].name@ == name);
        }
        assert forall|i: int| 0 <= i < at implies (#[trigger] declared[i]).name@ != name by {
            assert(rest[i] == declared[i]);
        }
        at
    }
}

proof fn lemma_warnings_of_one(task: TaskView, declared: Seq<DeclaredProvider>)
    ensures
        agent_warnings(task, declared) == (match unwatched(task, declared) {
            Some(w) => seq![w],
            None => Seq::empty(),
        }) + (match uncapped(task, declared) {
            Some(w) => seq![w],
            None => Seq::empty(),
        }),
{
    if let Some(name) = task.provider {
        let any = lemma_found_block(declared, name, |block| true);
        let free = lemma_found_block(
            declared,
            name,
            |block: DeclaredProvider| block.provider.adapter is None,
        );
    }
    assert(agent_warnings(task, declared) =~= (match unwatched(task, declared) {
        Some(w) => seq![w],
        None => Seq::empty(),
    }) + (match uncapped(task, declared) {
        Some(w) => seq![w],
        None => Seq::empty(),
    }));
}

/// Each agent task that nobody looks at, and each whose cost cap cannot be kept,
/// is warned of once, in the order of the tasks; of a provider that nobody
/// declared nothing is known, so nothing is warned of.
pub proof fn law_warnings_are_given_in_turn(
    tasks: Seq<TaskView>,
    declared: Seq<DeclaredProvider>,
)
    ensures
        all_agent_warnings(tasks, declared).filter(|w: WarningView| w is AgentWithoutVerify)
            == tasks.filter_map(|t: TaskView| unwatched(t, declared)),
        all_agent_warnings(tasks, declared).filter(|w: WarningView| w is CostCapWithoutAdapter)
            == tasks.filter_map(|t: TaskView| uncapped(t, declared)),
    decreases tasks.len(),
{
    let p = |w: WarningView| w is AgentWithoutVerify;
    let q = |w: WarningView| w is CostCapWithoutAdapter;
    let none = Seq::<WarningView>::empty();
    reveal(Seq::filter);
    if tasks.len() > 0 {
        let rest = tasks.drop_last();
        let last = tasks.last();
        law_warnings_are_given_in_turn(rest, declared);
        lemma_warnings_of_one(last, declared);
        let before = all_agent_warnings(rest, declared);
        let a = match unwatched(last, declared) {
            Some(w) => seq![w],
            None => none,
        };
        let b = match uncapped(last, declared) {
            Some(w) => seq![w],
            None => none,
        };
        Seq::filter_distributes_over_add(before, a + b, p);
        Seq::filter_distributes_over_add(before, a + b, q);
        Seq::filter_distributes_over_add(a, b, p);
        Seq::filter_distributes_over_add(a, b, q);
        lemma_filter_keeps_all(a, p);
        lemma_filter_keeps_none(a, q);
        lemma_filter_keeps_none(b, p);
        lemma_filter_keeps_all(b, q);
        assert(before.filter(p) + (a + none) =~= before.filter(p) + a);
        assert(before.filter(q) + (none + b) =~= before.filter(q) + b);
        assert(before.filter(p) + none =~= before.filter(p));
        assert(before.filter(q) + none =~= before.filter(q));
    } else {
        assert(all_agent_warnings(tasks, declared) =~= none);
        lemma_filter_keeps_none(none, p);
        lemma_filter_keeps_none(none, q);
    }
}

/// What the user is told of a problem names the task it is of, and what is
/// wrong about it.
pub proof fn law_a_problem_names_its_task(error: ValidationErrorView)
    ensures
        match error {
            ValidationErrorView::DuplicateId(id) => quotes(error.message(), id),
            ValidationErrorView::InvalidId(id) => quotes(error.message(), id),
            ValidationErrorView::ReservedId(id) => quotes(error.message(), id),
            ValidationErrorView::SelfDep(id) => quotes(error.message(), id),
            ValidationErrorView::ShellMissingRun(id) => quotes(error.message(), id),
            ValidationErrorView::AgentMissingPrompt(id) => quotes(error.message(), id),
            ValidationErrorView::UnknownDep { task, dep } => quotes_both(
                error.message(),
                task,
                dep,
            ),
            ValidationErrorView::UnknownProvider { task, provider } => quotes_both(
                error.message(),
                task,
                provider,
            ),
            ValidationErrorView::InvalidDuration { task, value } => quotes_both(
                error.message(),
                task,
                value,
            ),
            ValidationErrorView::Cycle(path) => joined(path, " -> "@).is_suffix_of(
                error.message(),
            ),
        },
{
    let told = error.message();
    let (a, b, c) = match error {
        ValidationErrorView::DuplicateId(_) => ("duplicate task id '"@, "'"@, ""@),
        ValidationErrorView::InvalidId(_) => (
            "invalid task id '"@,
            "': ids must match [A-Za-z0-9_-]+ (they become filenames and branch names)"@,
            ""@,
        ),
        ValidationErrorView::ReservedId(_) => (
            "task id '"@,
            "' is reserved: ids may not start with '_', which assembly-line keeps for itself"@,
            ""@,
        ),
        ValidationErrorView::SelfDep(_) => ("task '"@, "' depends on itself"@, ""@),
        ValidationErrorView::UnknownDep { .. } => (
            "task '"@,
            "' needs '"@,
            "', which does not exist"@,
        ),
        ValidationErrorView::ShellMissingRun(_) => ("shell task '"@, "' has no `run`"@, ""@),
        ValidationErrorView::AgentMissingPrompt(_) => (
            "agent task '"@,
            "' has no `prompt` or `prompt_file`"@,
            ""@,
        ),
        ValidationErrorView::UnknownProvider { .. } => (
            "task '"@,
            "' uses undefined provider '"@,
            "'"@,
        ),
        ValidationErrorView::InvalidDuration { .. } => (
            "task '"@,
            "' has invalid max_duration '"@,
            "'"@,
        ),
        ValidationErrorView::Cycle(_) => ("dependency cycle: "@, ""@, ""@),
    };
    match error {
        ValidationErrorView::DuplicateId(id) => {
            assert(told == a + id + b);
        },
        ValidationErrorView::InvalidId(id) => {
            assert(told == a + id + b);
        },
        ValidationErrorView::ReservedId(id) => {
            assert(told == a + id + b);
        },
        ValidationErrorView::SelfDep(id) => {
            assert(told == a + id + b);
        },
        ValidationErrorView::ShellMissingRun(id) => {
            assert(told == a + id + b);
        },
        ValidationErrorView::AgentMissingPrompt(id) => {
            assert(told == a + id + b);
        },
        ValidationErrorView::UnknownDep { task, dep } => {
            assert(told == a + task + b + dep + c);
        },
        ValidationErrorView::UnknownProvider { task, provider } => {
            assert(told == a + task + b + provider + c);
        },
        ValidationErrorView::InvalidDuration { task, value } => {
            assert(told == a + task + b + value + c);
        },
        ValidationErrorView::Cycle(path) => {
            let way = joined(path, " -> "@);
            assert(told.skip(told.len() - way.len()) =~= way);
        },
    }
}

/// Whether a text holds another.
pub open spec fn quotes(text: Seq<char>, what: Seq<char>) -> bool {
    exists|a: Seq<char>, b: Seq<char>| text == #[trigger] (a + what + b)
}

/// Whether a text holds two others, one after the other.
pub open spec fn quotes_both(text: Seq<char>, first: Seq<char>, second: Seq<char>) -> bool {
    exists|a: Seq<char>, b: Seq<char>, c: Seq<char>|
        text == #[trigger] (a + first + b + second + c)
}

/// Whether a task is declared to need another: the first of its id does.
pub open spec fn is_need(tasks: Seq<TaskView>, a: Seq<char>, b: Seq<char>) -> bool {
    exists|at: int|
        0 <= at < tasks.len() && (#[trigger] tasks[at]).id == a && tasks[at].needs.contains(b)
            && forall|i: int| 0 <= i < at ==> (#[trigger] tasks[i]).id != a
}

proof fn lemma_first_task(tasks: Seq<TaskView>, id: Seq<char>) -> (at: int)
    requires
        is_declared(tasks, id),
    ensures
        0 <= at < tasks.len(),
        tasks[at].id == id,
        forall|i: int| 0 <= i < at ==> (#[trigger] tasks[i]).id != id,
    decreases tasks.len(),
{
    let rest = tasks.drop_last();
    if is_declared(rest, id) {
        let at = lemma_first_task(rest, id);
        assert forall|i: int| 0 <= i < at implies (#[trigger] tasks[i]).id != id by {
            assert(rest[i] == tasks[i]);
        }
        at
    } else {
        let at = choose|j: int| 0 <= j < tasks.len() && (#[trigger] tasks[j]).id == id;
        assert forall|i: int| 0 <= i < tasks.len() - 1 implies (#[trigger] tasks[i]).id != id by {
            assert(rest[i] == tasks[i]);
        }
        at
    }
}

/// The edges of the graph are the needs that were declared, as far as they name
/// another task that is there; whoever needs a task is told as its dependent.
pub proof fn law_edges_are_declared_needs(tasks: Seq<TaskView>, a: Seq<char>, b: Seq<char>)
    ensures
        dag_of(tasks).needs_of(a).contains(b) <==> is_need(tasks, a, b) && a != b && is_declared(
            tasks,
            b,
        ),
        dag_of(tasks).dependents_of(b).contains(a) <==> is_need(tasks, a, b) && a != b
            && is_declared(tasks, b),
{
    law_dag_of_tasks_is_consistent(tasks);
    dag_of(tasks).law_dependents_are_those_that_need(b, a);
    if is_declared(tasks, a) {
        let at = lemma_first_task(tasks, a);
        law_the_graph_holds_exactly_the_declared_edges(tasks, at);
        if is_need(tasks, a, b) {
            let other = choose|at: int|
                0 <= at < tasks.len() && (#[trigger] tasks[at]).id == a
                    && tasks[at].needs.contains(b) && forall|i: int|
                    0 <= i < at ==> (#[trigger] tasks[i]).id != a;
            assert(tasks[other].id == a);
            assert(other == at);
        }
        assert(tasks[at].needs.contains(b) ==> is_need(tasks, a, b));
    } else {
        lemma_declared_ids(tasks);
        if is_need(tasks, a, b) {
            let at = choose|at: int|
                0 <= at < tasks.len() && (#[trigger] tasks[at]).id == a
                    && tasks[at].needs.contains(b) && forall|i: int|
                    0 <= i < at ==> (#[trigger] tasks[i]).id != a;
            assert(tasks[at].id == a);
        }
    }
}

/// Whether the tasks along the path are each declared to need the next, another
/// task that is there, and it leads back to where it began.
pub open spec fn is_circle(tasks: Seq<TaskView>, path: Seq<Seq<char>>) -> bool {
    &&& path.len() >= 2
    &&& path[0] == path.last()
    &&& forall|i: int|
        0 <= i < path.len() - 1 ==> is_need(tasks, #[trigger] path[i], path[i + 1]) && path[i]
            != path[i + 1] && is_declared(tasks, path[i + 1])
}

/// A cycle is reported exactly when the declared needs go in a circle, after
/// everything else, and what is reported is such a circle.
pub proof fn law_a_circle_of_needs_is_reported(tasks: Seq<TaskView>)
    ensures
        (exists|path: Seq<Seq<char>>| is_circle(tasks, path)) <==> build_errors(tasks).len() > 0
            && build_errors(tasks).last() is Cycle,
        forall|at: int|
            0 <= at < build_errors(tasks).len() ==> ((
            #[trigger] build_errors(tasks)[at]) matches ValidationErrorView::Cycle(path) ==> at
                == build_errors(tasks).len() - 1 && is_circle(tasks, path)
                && path.drop_last().no_duplicates()),
{
    let dag = dag_of(tasks);
    dag.law_a_cycle_is_reported_exactly_when_there_is_one();
    assert forall|path: Seq<Seq<char>>| is_circle(tasks, path) implies #[trigger] dag.is_cycle(
        path,
    ) by {
        assert forall|i: int| 0 <= i < path.len() - 1 implies dag.needs_of(
            #[trigger] path[i],
        ).contains(path[i + 1]) by {
            law_edges_are_declared_needs(tasks, path[i], path[i + 1]);
        }
    }
    if exists|path: Seq<Seq<char>>| is_circle(tasks, path) {
        let path = choose|path: Seq<Seq<char>>| is_circle(tasks, path);
        assert(dag.is_cycle(path));
        assert(cycle_errors(dag).len() == 1);
        assert(build_errors(tasks).last() == cycle_errors(dag)[0]);
    }
    assert forall|at: int| 0 <= at < build_errors(tasks).len() implies ((
    #[trigger] build_errors(tasks)[at]) matches ValidationErrorView::Cycle(path) ==> at
        == build_errors(tasks).len() - 1 && is_circle(tasks, path)
        && path.drop_last().no_duplicates()) by {
        if let ValidationErrorView::Cycle(path) = build_errors(tasks)[at] {
            law_a_cycle_is_reported_last_and_once(tasks, at);
            assert forall|i: int| 0 <= i < path.len() - 1 implies is_need(
                tasks,
                #[trigger] path[i],
                path[i + 1],
            ) && path[i] != path[i + 1] && is_declared(tasks, path[i + 1]) by {
                assert(dag.needs_of(path[i]).contains(path[i + 1]));
                law_edges_are_declared_needs(tasks, path[i], path[i + 1]);
            }
        }
    }
    if build_errors(tasks).len() > 0 && build_errors(tasks).last() is Cycle {
        let last = build_errors(tasks).len() - 1;
        assert(build_errors(tasks)[last] is Cycle);
        if let ValidationErrorView::Cycle(path) = build_errors(tasks)[last] {
            assert(is_circle(tasks, path));
        }
    }
}

} // verus!
