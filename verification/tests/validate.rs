use assembly_line::config::{DeclaredProvider, Graph, Provider, Supervise, Task, TaskKind};
use assembly_line::dag::{validate, validate_given, Dag, ValidationError, Warning};

/// An agent task with a prompt, as a graph file gives it when nothing else is
/// said.
fn task(id: &str, needs: &[&str]) -> Task {
    Task {
        id: id.to_string(),
        kind: TaskKind::default(),
        needs: needs.iter().map(|n| n.to_string()).collect(),
        run: None,
        prompt: Some("x".to_string()),
        prompt_file: None,
        provider: None,
        supervise: Supervise::default(),
        verify: None,
        max_duration: None,
        has_max_cost_usd: false,
    }
}

fn graph(tasks: Vec<Task>) -> Graph {
    Graph { tasks, providers: vec![] }
}

fn provider_p(adapter: Option<&str>) -> DeclaredProvider {
    DeclaredProvider {
        name: "p".to_string(),
        provider: Provider {
            cmd: "true".to_string(),
            args: vec![],
            adapter: adapter.map(|a| a.to_string()),
        },
    }
}

fn diamond() -> Vec<Task> {
    vec![
        task("build", &[]),
        task("left", &["build"]),
        task("right", &["build"]),
        task("join", &["left", "right"]),
    ]
}

#[test]
fn builds_a_valid_dag_and_reports_descendants() {
    let dag = Dag::build(&diamond()).expect("valid");
    assert_eq!(dag.ids(), ["build", "left", "right", "join"]);
    assert_eq!(dag.needs("join"), ["left", "right"]);

    let d: Vec<String> = dag.descendants("build").into_iter().collect();
    assert_eq!(
        d,
        vec!["join".to_string(), "left".to_string(), "right".to_string()]
    );
    assert!(dag.descendants("join").is_empty());
}

#[test]
fn descendants_reach_the_far_end_of_a_long_chain() {
    let tasks: Vec<Task> = (0..12)
        .map(|i| match i {
            0 => task("n0", &[]),
            n => task(&format!("n{n}"), &[&format!("n{}", n - 1)]),
        })
        .collect();
    let dag = Dag::build(&tasks).expect("valid");
    assert_eq!(dag.descendants("n0").len(), 11);
    assert!(dag.descendants("n0").contains(&"n11".to_string()));
}

#[test]
fn rejects_duplicate_ids() {
    let errs = Dag::build(&[task("a", &[]), task("a", &[])]).unwrap_err();
    assert!(
        errs.contains(&ValidationError::DuplicateId("a".into())),
        "{errs:?}"
    );
}

#[test]
fn rejects_unknown_dependency() {
    let errs = Dag::build(&[task("a", &["ghost"])]).unwrap_err();
    assert!(
        errs.contains(&ValidationError::UnknownDep {
            task: "a".into(),
            dep: "ghost".into()
        }),
        "{errs:?}"
    );
}

#[test]
fn rejects_a_cycle() {
    let errs = Dag::build(&[task("a", &["b"]), task("b", &["a"])]).unwrap_err();
    let cycle = errs
        .iter()
        .find_map(|e| match e {
            ValidationError::Cycle(p) => Some(p.clone()),
            _ => None,
        })
        .unwrap_or_else(|| panic!("expected a cycle error, got {errs:?}"));
    assert!(cycle.contains(&"a".to_string()) && cycle.contains(&"b".to_string()));
    assert_eq!(cycle.first(), cycle.last(), "cycle should be a closed loop");
}

#[test]
fn detects_a_cycle_downstream_of_valid_nodes() {
    let errs = Dag::build(&[
        task("root", &[]),
        task("a", &["root", "b"]),
        task("b", &["a"]),
    ])
    .unwrap_err();
    assert!(
        errs.iter().any(|e| matches!(e, ValidationError::Cycle(_))),
        "{errs:?}"
    );
}

#[test]
fn accepts_a_wide_diamond_chain_without_blowing_up() {
    // Eight stacked diamonds: exponential for a naive recursive walk.
    let tasks: Vec<Task> = (0..8)
        .flat_map(|i: i32| {
            let prev = format!("j{}", i - 1);
            let needs: Vec<&str> = if i == 0 { vec![] } else { vec![&prev] };
            let (a, b) = (format!("a{i}"), format!("b{i}"));
            vec![
                task(&a, &needs),
                task(&b, &needs),
                task(&format!("j{i}"), &[&a, &b]),
            ]
        })
        .collect();
    let dag = Dag::build(&tasks).expect("valid");
    assert!(dag.descendants("j0").contains(&"j7".to_string()));
}

#[test]
fn rejects_self_dependency() {
    let errs = Dag::build(&[task("a", &["a"])]).unwrap_err();
    assert!(
        errs.contains(&ValidationError::SelfDep("a".into())),
        "{errs:?}"
    );
}

#[test]
fn rejects_ids_that_are_unsafe_as_paths() {
    let errs = Dag::build(&[task("../etc", &[])]).unwrap_err();
    assert!(
        errs.contains(&ValidationError::InvalidId("../etc".into())),
        "{errs:?}"
    );
}

#[test]
fn a_task_without_a_prompt_is_rejected() {
    let validation = validate(&graph(vec![Task {
        prompt: None,
        ..task("impl", &[])
    }]));
    assert!(
        validation
            .errors
            .iter()
            .any(|e| matches!(e, ValidationError::AgentMissingPrompt(id) if id == "impl")),
        "expected a missing-prompt error, got {:?}",
        validation.errors
    );
}

#[test]
fn validate_reports_every_problem_at_once() {
    let errs = Dag::build(&[
        Task {
            prompt: None,
            ..task("a", &[])
        },
        task("b", &["ghost"]),
    ])
    .unwrap_err();
    assert_eq!(errs.len(), 2, "{errs:?}");
}

#[test]
fn rejects_unknown_provider() {
    let v = validate(&graph(vec![Task {
        provider: Some("nope".into()),
        ..task("a", &[])
    }]));
    assert!(
        v.errors.contains(&ValidationError::UnknownProvider {
            task: "a".into(),
            provider: "nope".into()
        }),
        "{:?}",
        v.errors
    );
    assert!(v.dag.is_none());
}

#[test]
fn warns_on_agent_without_verify() {
    let v = validate(&Graph {
        tasks: vec![Task {
            provider: Some("p".into()),
            ..task("a", &[])
        }],
        providers: vec![provider_p(None)],
    });
    assert!(v.errors.is_empty(), "{:?}", v.errors);
    assert!(
        v.warnings
            .contains(&Warning::AgentWithoutVerify("a".into())),
        "{:?}",
        v.warnings
    );
}

fn capped_task() -> Task {
    Task {
        provider: Some("p".into()),
        verify: Some("true".into()),
        has_max_cost_usd: true,
        ..task("a", &[])
    }
}

#[test]
fn warns_when_cost_cap_has_no_adapter() {
    let v = validate(&Graph {
        tasks: vec![capped_task()],
        providers: vec![provider_p(None)],
    });
    assert!(
        v.warnings.contains(&Warning::CostCapWithoutAdapter {
            task: "a".into(),
            provider: "p".into()
        }),
        "{:?}",
        v.warnings
    );
}

#[test]
fn no_cost_warning_when_the_provider_has_an_adapter() {
    let v = validate(&Graph {
        tasks: vec![capped_task()],
        providers: vec![provider_p(Some("wrap.sh"))],
    });
    assert!(v.warnings.is_empty(), "{:?}", v.warnings);
}

#[test]
fn rejects_invalid_max_duration() {
    let v = validate(&graph(vec![Task {
        max_duration: Some("soon".into()),
        ..task("a", &[])
    }]));
    assert!(
        v.errors
            .iter()
            .any(|e| matches!(e, ValidationError::InvalidDuration { .. })),
        "{:?}",
        v.errors
    );
}

#[test]
fn a_long_max_duration_is_judged_like_any_other() {
    let capped = |cap: &str| {
        validate(&graph(vec![Task {
            max_duration: Some(cap.into()),
            ..task("a", &[])
        }]))
    };
    let fine = capped("1000000000000000ns");
    assert!(fine.errors.is_empty());
    assert!(fine.dag.is_some());

    let bad = capped("1000000000000000 parsecs");
    assert_eq!(
        bad.errors,
        vec![ValidationError::InvalidDuration {
            task: "a".into(),
            value: "1000000000000000 parsecs".into()
        }]
    );
    assert!(bad.dag.is_none());
}

#[test]
fn rejects_an_id_that_would_collide_with_the_integration_worktree() {
    let errs = Dag::build(&[task("_integration", &[])]).unwrap_err();
    assert!(
        errs.contains(&ValidationError::ReservedId("_integration".into())),
        "{errs:?}"
    );
}

#[test]
fn an_agent_with_only_a_prompt_file_passes_validation() {
    let v = validate(&Graph {
        tasks: vec![Task {
            prompt: None,
            prompt_file: Some("p.md".into()),
            provider: Some("p".into()),
            verify: Some("true".into()),
            ..task("a", &[])
        }],
        providers: vec![provider_p(None)],
    });
    assert!(v.errors.is_empty());
}

#[test]
fn an_agent_with_neither_prompt_nor_prompt_file_is_rejected() {
    let errs = validate(&graph(vec![Task {
        prompt: None,
        ..task("a", &[])
    }]))
    .errors;
    assert!(
        errs.contains(&ValidationError::AgentMissingPrompt("a".into())),
        "{errs:?}"
    );
}

#[test]
fn a_shell_task_needs_something_to_run() {
    let shell = Task {
        kind: TaskKind::Shell,
        prompt: None,
        ..task("sh", &[])
    };
    assert_eq!(
        Dag::build(&[shell.clone()]).unwrap_err(),
        vec![ValidationError::ShellMissingRun("sh".into())]
    );
    assert!(Dag::build(&[Task {
        run: Some("true".into()),
        ..shell
    }])
    .is_ok());
}

#[test]
fn errors_come_in_order_and_the_cycle_last() {
    let errs = Dag::build(&[
        task("b!", &["b!"]),
        task("y", &["x", "nowhere"]),
        task("x", &["y"]),
        task("x", &[]),
        task("_own", &[]),
        Task {
            prompt: None,
            ..task("quiet", &[])
        },
    ])
    .unwrap_err();
    assert_eq!(
        errs,
        vec![
            ValidationError::InvalidId("b!".into()),
            ValidationError::DuplicateId("x".into()),
            ValidationError::ReservedId("_own".into()),
            ValidationError::AgentMissingPrompt("quiet".into()),
            ValidationError::SelfDep("b!".into()),
            ValidationError::UnknownDep {
                task: "y".into(),
                dep: "nowhere".into()
            },
            ValidationError::Cycle(vec!["x".into(), "y".into(), "x".into()]),
        ]
    );
}

/// The walk starts at the id that sorts first of those that can never start,
/// and what is reported is the loop it runs into, not the way there.
#[test]
fn the_reported_cycle_leaves_out_what_leads_to_it() {
    let errs = Dag::build(&[
        task("z", &["y"]),
        task("y", &["z"]),
        task("a", &["y"]),
        task("free", &[]),
    ])
    .unwrap_err();
    assert_eq!(
        errs,
        vec![ValidationError::Cycle(vec![
            "y".into(),
            "z".into(),
            "y".into()
        ])]
    );
}

#[test]
fn needs_and_dependents_are_two_sides_of_one_thing() {
    let dag = Dag::build(&diamond()).expect("valid");
    for a in dag.ids() {
        for b in dag.ids() {
            assert_eq!(
                dag.dependents(a).contains(b),
                dag.needs(b).contains(a),
                "{a} {b}"
            );
        }
        assert!(!dag.descendants(a).contains(a));
    }
    assert_eq!(dag.dependents("build"), ["left", "right"]);
    assert!(dag.needs("unknown").is_empty());
    assert!(dag.dependents("unknown").is_empty());
    assert!(dag.descendants("unknown").is_empty());
}

#[test]
fn a_copied_graph_is_the_same_graph() {
    let dag = Dag::build(&diamond()).expect("valid");
    let copy = dag.clone();
    assert_eq!(copy.ids(), dag.ids());
    assert_eq!(copy.needs("join"), dag.needs("join"));
    assert_eq!(copy.dependents("build"), dag.dependents("build"));
}

#[test]
fn validation_goes_by_what_it_is_told_of_durations() {
    let graph = graph(vec![
        Task {
            max_duration: Some("whatever".into()),
            ..task("a", &[])
        },
        task("b", &[]),
    ]);
    assert!(validate_given(&graph, &vec![true, false]).errors.is_empty());
    assert_eq!(
        validate_given(&graph, &vec![false, true]).errors,
        vec![ValidationError::InvalidDuration {
            task: "a".into(),
            value: "whatever".into()
        }]
    );
}

#[test]
fn a_supervised_agent_without_verify_is_not_flagged() {
    let v = validate(&Graph {
        tasks: vec![Task {
            provider: Some("p".into()),
            supervise: Supervise::OnComplete,
            ..task("a", &[])
        }],
        providers: vec![provider_p(None)],
    });
    assert!(v.warnings.is_empty(), "{:?}", v.warnings);
    assert!(v.dag.is_some());
}

#[test]
fn every_validation_error_says_what_is_wrong() {
    let told = |e: ValidationError| e.message();
    assert_eq!(
        told(ValidationError::DuplicateId("a".into())),
        "duplicate task id 'a'"
    );
    assert_eq!(
        told(ValidationError::InvalidId("a b".into())),
        "invalid task id 'a b': ids must match [A-Za-z0-9_-]+ (they become filenames and branch names)"
    );
    assert_eq!(
        told(ValidationError::ReservedId("_x".into())),
        "task id '_x' is reserved: ids may not start with '_', which assembly-line keeps for itself"
    );
    assert_eq!(
        told(ValidationError::SelfDep("a".into())),
        "task 'a' depends on itself"
    );
    assert_eq!(
        told(ValidationError::UnknownDep {
            task: "a".into(),
            dep: "b".into()
        }),
        "task 'a' needs 'b', which does not exist"
    );
    assert_eq!(
        told(ValidationError::Cycle(vec![
            "a".into(),
            "b".into(),
            "a".into()
        ])),
        "dependency cycle: a -> b -> a"
    );
    assert_eq!(
        told(ValidationError::ShellMissingRun("a".into())),
        "shell task 'a' has no `run`"
    );
    assert_eq!(
        told(ValidationError::AgentMissingPrompt("a".into())),
        "agent task 'a' has no `prompt` or `prompt_file`"
    );
    assert_eq!(
        told(ValidationError::UnknownProvider {
            task: "a".into(),
            provider: "p".into()
        }),
        "task 'a' uses undefined provider 'p'"
    );
    assert_eq!(
        told(ValidationError::InvalidDuration {
            task: "a".into(),
            value: "soon".into()
        }),
        "task 'a' has invalid max_duration 'soon'"
    );
    assert_eq!(
        Warning::AgentWithoutVerify("a".into()).message(),
        "agent task 'a' declares no `verify` — nothing will check its output"
    );
    assert_eq!(
        Warning::CostCapWithoutAdapter {
            task: "a".into(),
            provider: "p".into()
        }
        .message(),
        "task 'a' sets max_cost_usd but provider 'p' reports no cost — the cap will not apply"
    );
}
