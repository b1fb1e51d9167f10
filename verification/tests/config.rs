use assembly_line::commands::{deliver_if_verified, Handover};
use assembly_line::config::{
    duration_given, find_provider, parse_duration, ConfigError, ConfigStep, DeclaredProvider, Delivery,
    DeliveryMode, Provider, RepoConfig, Warning, REPO_CONFIG_PATH,
};
use assembly_line::delivery::{deliver, DeliverStep, Delivered};
use assembly_line::git::GitOutput;
use assembly_line::job::JobOutcome;
use assembly_line::time::{countable, Span};

fn declared(name: &str) -> DeclaredProvider {
    DeclaredProvider {
        name: name.to_string(),
        provider: Provider {
            cmd: "true".to_string(),
            args: vec![],
            adapter: None,
        },
    }
}

fn with_providers(names: &[&str]) -> RepoConfig {
    RepoConfig {
        providers: names.iter().map(|n| declared(n)).collect(),
        ..RepoConfig::default()
    }
}

#[test]
fn parses_durations() {
    assert_eq!(parse_duration("20m").unwrap(), Span::from_secs(1200));
    assert_eq!(parse_duration("1h 30m").unwrap(), Span::from_secs(5400));
    assert!(parse_duration("soon").is_err());
}

#[test]
fn a_provider_the_repository_never_declared_is_rejected() {
    let config = with_providers(&["real"]);

    assert_eq!(
        config.problems("ghost"),
        vec![ConfigError::UnknownProvider("ghost".into())]
    );
}

#[test]
fn a_repository_naming_no_provider_at_all_is_rejected() {
    let config = with_providers(&["real"]);

    assert_eq!(config.problems(""), vec![ConfigError::NoProviderDeclared]);
}

#[test]
fn a_declared_provider_is_accepted() {
    let config = RepoConfig {
        provider: Some("real".into()),
        verify: Some("true".into()),
        ..with_providers(&["real"])
    };

    assert!(config.problems("real").is_empty());
}

#[test]
fn rejects_an_unparseable_max_duration() {
    let config = RepoConfig {
        provider: Some("p".into()),
        max_duration: Some("soon".into()),
        ..with_providers(&["p"])
    };

    assert_eq!(
        config.problems("p"),
        vec![ConfigError::UnparseableMaxDuration("soon".into())]
    );
}

#[test]
fn config_reports_every_problem_at_once() {
    let config = RepoConfig {
        max_duration: Some("soon".into()),
        ..RepoConfig::default()
    };

    assert_eq!(
        config.problems(""),
        vec![
            ConfigError::NoProviderDeclared,
            ConfigError::UnparseableMaxDuration("soon".into())
        ],
        "a user should fix every problem in one pass, not one per run"
    );
}

#[test]
fn every_config_error_says_what_to_do_about_it() {
    assert!(ConfigError::UnknownProvider("ghost".into())
        .message()
        .contains("add a block for it"));
    assert!(ConfigError::NoProviderDeclared
        .message()
        .contains("[providers]"));
    assert!(ConfigError::UnparseableMaxDuration("soon".into())
        .message()
        .contains("20m"));
}

#[test]
fn a_repository_with_no_verify_is_warned_about_but_still_runnable() {
    let config = RepoConfig {
        provider: Some("p".into()),
        ..with_providers(&["p"])
    };

    assert!(config.problems("p").is_empty());
    assert_eq!(config.warnings(), vec![Warning::NoVerify]);
    assert!(config.warnings()[0].message().contains("nothing will check"));
}

#[test]
fn a_repository_that_declares_verify_warns_about_nothing() {
    let config = RepoConfig {
        provider: Some("p".into()),
        verify: Some("cargo test".into()),
        ..with_providers(&["p"])
    };

    assert!(config.warnings().is_empty());
}

#[test]
fn delivery_defaults_to_a_pull_request_and_the_branch_you_started_from() {
    let config = RepoConfig {
        provider: Some("p".into()),
        ..RepoConfig::default()
    };
    assert_eq!(config.delivery.mode, DeliveryMode::Pr);
    assert_eq!(config.base, None);
}

#[test]
fn delivery_is_configurable_from_the_repositorys_own_config() {
    let config = RepoConfig {
        base: Some("develop".into()),
        delivery: Delivery {
            mode: DeliveryMode::NoDelivery,
        },
        ..RepoConfig::default()
    };

    let handover = deliver_if_verified(
        "/r",
        &config,
        "main",
        Some("al/job-1".into()),
        JobOutcome::Passed,
    );
    let Handover::Deliver {
        repo,
        delivery,
        remote,
        branch,
        base,
        ..
    } = handover
    else {
        panic!("work that passed is handed on");
    };
    assert_eq!(base, "develop");
    assert_eq!(
        deliver(&repo, &delivery, &remote, &branch, &base, &None, &None, &None),
        DeliverStep::Done(Ok(Delivered::Skipped(
            "delivery mode is \"none\"".to_string()
        )))
    );
}

#[test]
fn config_errors_read_as_sentences() {
    assert_eq!(
        ConfigError::UnknownProvider("ghost".into()).message(),
        "provider 'ghost' is not declared in [providers] \u{2014} add a block for it"
    );
    assert_eq!(
        ConfigError::NoProviderDeclared.message(),
        "no provider: set `provider = \"...\"` and declare it under [providers]"
    );
    assert_eq!(
        ConfigError::UnparseableMaxDuration("soon".into()).message(),
        "max_duration 'soon' is not a duration like \"20m\""
    );
    assert_eq!(
        Warning::NoVerify.message(),
        "no `verify` \u{2014} nothing will check a job's output before it is delivered"
    );
}

#[test]
fn a_duration_error_quotes_the_text_and_the_reason() {
    assert_eq!(
        parse_duration("soon").unwrap_err(),
        "invalid duration \"soon\": expected number at 0"
    );
    assert_eq!(
        parse_duration("a\"b\n").unwrap_err(),
        "invalid duration \"a\\\"b\\n\": expected number at 0"
    );
    assert_eq!(
        parse_duration("").unwrap_err(),
        "invalid duration \"\": value was empty"
    );
}

#[test]
fn durations_keep_their_nanoseconds() {
    let span = parse_duration("2s 5ns").unwrap();
    assert_eq!((span.as_secs(), span.subsec_nanos()), (2, 5));
    assert_eq!(parse_duration("1.5ms").unwrap(), Span::new(0, 1_500_000).unwrap());
}

#[test]
fn a_duration_is_what_the_parser_made_of_it() {
    assert_eq!(
        duration_given("\"x\"", Ok((3, 999_999_999))),
        Ok(Span::from_parts(3, 999_999_999))
    );
    assert_eq!(
        duration_given("\"x\"", Err("no".into())),
        Err("invalid duration \"x\": no".to_string())
    );
}

#[test]
fn text_is_countable_unless_its_spans_could_reach_the_end_of_time() {
    assert!(countable("999999999999999ns"));
    assert!(!countable("18446744073709551615s 1000ms"));
    assert!(!countable("584542046090y 12345678s 1000ms"));
    assert!(countable(""));
    assert!(countable("no digits at all, however long the text is"));
}

#[test]
fn one_span_may_have_any_number_of_digits() {
    for (text, secs, nanos) in [
        ("1000000000000000ns", 1_000_000, 0),
        ("0000000000000001s", 1, 0),
        ("1234567 8 90123456s", 1_234_567_890_123_456, 0),
        ("18446744073709551615s", u64::MAX, 0),
        ("18446744073709551615.999999999s", u64::MAX, 999_999_999),
    ] {
        assert!(countable(text), "{text}");
        assert_eq!(parse_duration(text), Ok(Span::from_parts(secs, nanos)));
    }
    assert!(countable("99999999999999999999s"));
    assert!(parse_duration("99999999999999999999s").is_err());
}

#[test]
fn many_spans_may_have_many_digits() {
    let text = "1day 02hours 003min 0004s 500ms 600us 700ns";
    assert!(countable(text));
    assert_eq!(
        parse_duration(text),
        Ok(Span::from_parts(86400 + 7200 + 180 + 4, 500_600_700))
    );
    for (text, secs, nanos) in [
        ("1000000000000ns 1000us", 1000, 1_000_000),
        ("10000000000000000s 59s", 10_000_000_000_000_059, 0),
        ("600000000000min 5h", 36_000_000_018_000, 0),
    ] {
        assert!(countable(text), "{text}");
        assert_eq!(parse_duration(text), Ok(Span::from_parts(secs, nanos)));
    }
    assert!(!countable("600000000000s 500ms 0"));
    let text = "000000000000000000.5s 0.25s";
    assert!(countable(text));
    assert_eq!(parse_duration(text), Ok(Span::from_parts(0, 750_000_000)));
}

#[test]
fn a_long_cap_is_a_problem_only_if_it_is_no_duration() {
    let capped = |cap: &str| RepoConfig {
        max_duration: Some(cap.into()),
        ..with_providers(&["p"])
    };
    assert!(capped("1000000000000000ns").problems("p").is_empty());
    assert_eq!(
        capped("1000000000000000 parsecs").problems("p"),
        vec![ConfigError::UnparseableMaxDuration(
            "1000000000000000 parsecs".into()
        )]
    );
}

#[test]
fn problems_go_by_what_they_are_told_of_the_cap() {
    let config = RepoConfig {
        max_duration: Some("20m".into()),
        ..with_providers(&["p"])
    };
    assert!(config.problems_given("p", true).is_empty());
    assert_eq!(
        config.problems_given("p", false),
        vec![ConfigError::UnparseableMaxDuration("20m".into())]
    );
    assert!(with_providers(&["p"]).problems_given("p", false).is_empty());
}

#[test]
fn the_provider_found_is_the_one_of_that_name() {
    let mut list = vec![declared("a"), declared("b")];
    list[1].provider.cmd = "coder".into();
    assert_eq!(find_provider(&list, "b").unwrap().cmd, "coder");
    assert!(find_provider(&list, "c").is_none());
}

#[test]
fn the_cap_is_read_as_a_duration() {
    let capped = |cap: Option<&str>| RepoConfig {
        max_duration: cap.map(|c| c.to_string()),
        ..RepoConfig::default()
    };
    assert!(capped(None).cap_parses());
    assert!(capped(Some("20m")).cap_parses());
    assert!(!capped(Some("soon")).cap_parses());
}

#[test]
fn a_ref_without_the_file_is_not_opted_in() {
    assert_eq!(REPO_CONFIG_PATH, ".assembly/config.toml");
    let output = |code: i32, stdout: &str| GitOutput {
        exit_code: code,
        stdout: stdout.to_string(),
        stderr: "broken\n".to_string(),
    };
    match RepoConfig::from_ref("/r", "main", None, None) {
        ConfigStep::Run(call) => assert_eq!(
            call.args,
            vec!["cat-file", "-e", "main:.assembly/config.toml"]
        ),
        other => panic!("{other:?}"),
    }
    assert_eq!(
        RepoConfig::from_ref("/r", "main", Some(&output(128, "")), None),
        ConfigStep::Done(Err(
            "main carries no .assembly/config.toml \u{2014} this repository is not opted in"
                .to_string()
        ))
    );
    match RepoConfig::from_ref("/r", "main", Some(&output(0, "")), None) {
        ConfigStep::Run(call) => {
            assert_eq!(call.args, vec!["show", "main:.assembly/config.toml"]);
            assert_eq!(call.dir, "/r");
            assert_eq!(call.operation, "show main:.assembly/config.toml");
        }
        other => panic!("{other:?}"),
    }
    assert_eq!(
        RepoConfig::from_ref(
            "/r",
            "main",
            Some(&output(0, "")),
            Some(&output(0, "provider = \"p\"\n"))
        ),
        ConfigStep::Done(Ok("provider = \"p\"\n".to_string()))
    );
    assert_eq!(
        RepoConfig::from_ref("/r", "main", Some(&output(0, "")), Some(&output(1, ""))),
        ConfigStep::Done(Err(
            "show main:.assembly/config.toml failed (exit 1): broken".to_string()
        ))
    );
    assert_eq!(
        RepoConfig::parse_failure("bad"),
        "parsing .assembly/config.toml: bad"
    );
}

#[test]
fn an_empty_config_declares_nothing() {
    let config = RepoConfig::default();
    assert_eq!(config.provider, None);
    assert_eq!(config.verify, None);
    assert_eq!(config.max_duration, None);
    assert!(config.copy.is_empty());
    assert!(config.providers.is_empty());
}
