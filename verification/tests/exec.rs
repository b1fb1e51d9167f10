use assembly_line::exec::{
    run_command, run_shell, shell_command, spawn_failure, supervise, Interruption, ShellOutcome,
    Supervised,
};
use assembly_line::provider::CommandSpec;
use assembly_line::time::Span;

#[test]
fn only_a_zero_exit_succeeds() {
    assert!(ShellOutcome::Exited(0).succeeded());
    assert_eq!(ShellOutcome::Exited(0).failure_reason(), None);
    for (outcome, reason) in [
        (ShellOutcome::Exited(1), "exit 1"),
        (ShellOutcome::Exited(-1), "exit -1"),
        (ShellOutcome::Exited(i32::MIN), "exit -2147483648"),
        (ShellOutcome::TimedOut, "timed out"),
        (ShellOutcome::Cancelled, "cancelled"),
    ] {
        assert!(!outcome.succeeded());
        assert_eq!(outcome.failure_reason().as_deref(), Some(reason));
    }
}

#[test]
fn a_shell_line_is_one_argument_of_sh() {
    let spec = shell_command("cargo test | tee out; exit 3");
    assert_eq!(spec.program, "sh");
    assert_eq!(spec.args, vec!["-c", "cargo test | tee out; exit 3"]);
}

#[test]
fn a_command_is_run_where_it_is_told_to_be() {
    let cap = Some(Span::from_secs(20));
    let verify = run_shell("cargo test", "/wt", "/j/job.log", cap);
    assert_eq!(verify.command, shell_command("cargo test"));
    assert_eq!(verify.described_as, "cargo test");
    assert_eq!((verify.dir.as_str(), verify.log_path.as_str()), ("/wt", "/j/job.log"));
    assert_eq!(verify.timeout, cap);

    let spec = CommandSpec {
        program: "agent".into(),
        args: vec!["-p".into(), "do it".into()],
    };
    let agent = run_command(&spec, "/wt", "/j/job.log", None);
    assert_eq!(agent.command, spec);
    assert_eq!(agent.described_as, "agent");
    assert_eq!((agent.dir.as_str(), agent.log_path.as_str()), ("/wt", "/j/job.log"));
    assert_eq!(agent.timeout, None);
}

#[test]
fn whatever_comes_first_settles_the_command() {
    let settled = |kill: bool, outcome: Result<ShellOutcome, String>| Supervised { kill, outcome };
    assert_eq!(
        supervise(Interruption::Ended(Some(3))),
        settled(false, Ok(ShellOutcome::Exited(3)))
    );
    assert_eq!(
        supervise(Interruption::Ended(None)),
        settled(false, Ok(ShellOutcome::Exited(-1)))
    );
    assert_eq!(
        supervise(Interruption::WaitFailed("gone".into())),
        settled(false, Err("gone".into()))
    );
    assert_eq!(
        supervise(Interruption::Deadline),
        settled(true, Ok(ShellOutcome::TimedOut))
    );
    assert_eq!(
        supervise(Interruption::Cancel),
        settled(true, Ok(ShellOutcome::Cancelled))
    );
    assert_eq!(
        spawn_failure("coder", "not found"),
        "spawning `coder`: not found"
    );
}
