use assembly_line::event::{event_lines, framed, read_events, Event, EventKind};
use assembly_line::time::{Span, Timestamp};

/// One line of a log, for the two kinds of event that these tests write.
fn parsed(line: &str) -> Option<Event> {
    let object: serde_json::Value = serde_json::from_str(line).ok()?;
    let at = chrono::DateTime::parse_from_rfc3339(object["at"].as_str()?).ok()?;
    let kind = match object["t"].as_str()? {
        "job_started" => EventKind::JobStarted {
            round: u32::try_from(object["round"].as_u64()?).ok()?,
        },
        "job_finished" => EventKind::JobFinished {
            exit_code: i32::try_from(object["exit_code"].as_i64()?).ok()?,
        },
        _ => return None,
    };
    Some(Event {
        at: Timestamp::new(at.timestamp(), at.timestamp_subsec_nanos())?,
        kind,
    })
}

fn read(raw: &str) -> Vec<Event> {
    read_events(event_lines(raw).iter().map(|line| parsed(line)).collect())
}

#[test]
fn a_torn_final_line_is_ignored() {
    let raw = format!(
        "{}\n{}",
        r#"{"at":"2026-08-15T00:00:00Z","t":"job_started","round":1}"#, r#"{"t":"job_fin"#,
    );
    let events: Vec<Event> = read(&raw);
    assert_eq!(events.len(), 1);
    assert!(matches!(events[0].kind, EventKind::JobStarted { .. }));
}

#[test]
fn blank_lines_are_ignored() {
    let raw = format!(
        "{}\n\n\n{}\n",
        r#"{"at":"2026-08-15T00:00:00Z","t":"job_started","round":1}"#,
        r#"{"at":"2026-08-15T00:00:01Z","t":"job_finished","exit_code":0}"#,
    );
    assert_eq!(read(&raw).len(), 2);
    assert_eq!(event_lines(&raw).len(), 2);
    assert_eq!(event_lines(" \t\n\u{a0}\n\r\n"), Vec::<String>::new());
}

#[test]
fn what_was_framed_is_read_back_in_order() {
    let raw = format!("{}{}{}", framed("one"), framed("two"), framed("three"));
    assert_eq!(raw, "one\ntwo\nthree\n");
    assert_eq!(event_lines(&raw), vec!["one", "two", "three"]);
    assert_eq!(event_lines(&format!("{raw}fo")), vec!["one", "two", "three", "fo"]);
}

#[test]
fn events_are_read_back_as_they_were_written() {
    let kinds = [
        EventKind::JobStarted { round: 1 },
        EventKind::JobFinished { exit_code: 3 },
        EventKind::JobStarted { round: 2 },
    ];
    let written: Vec<String> = kinds
        .iter()
        .map(|kind| match kind {
            EventKind::JobStarted { round } => format!(
                r#"{{"at":"2026-08-15T00:00:00Z","t":"job_started","round":{round}}}"#
            ),
            EventKind::JobFinished { exit_code } => format!(
                r#"{{"at":"2026-08-15T00:00:00Z","t":"job_finished","exit_code":{exit_code}}}"#
            ),
            other => panic!("{other:?}"),
        })
        .collect();
    let log: String = written.iter().map(|line| framed(line)).collect();

    let read_back = |raw: &str| -> Vec<EventKind> {
        read(raw).into_iter().map(|event| event.kind).collect()
    };
    assert_eq!(read_back(&log), kinds);
    assert_eq!(read_back(&format!("{log}{}", &written[0][..30])), kinds);
}

#[test]
fn lines_end_as_the_standard_library_ends_them() {
    for raw in ["a\r\nb", "a\rb\n", "a\r", "\n\na", "a\n\r\nb\r\r\n"] {
        let expected: Vec<&str> = raw.lines().filter(|l| !l.trim().is_empty()).collect();
        assert_eq!(event_lines(raw), expected, "{raw:?}");
    }
}

#[test]
fn an_unreadable_line_in_the_middle_is_skipped() {
    let at = Timestamp::new(0, 0).unwrap();
    let event = |round: u32| Event {
        at,
        kind: EventKind::JobStarted { round },
    };
    assert_eq!(
        read_events(vec![Some(event(1)), None, Some(event(2))]),
        vec![event(1), event(2)]
    );
    assert!(read_events(vec![]).is_empty());
}

#[test]
fn the_time_between_two_events_is_exact() {
    let start = Timestamp::new(-1, 999_999_999).unwrap();
    let end = Timestamp::new(2, 1).unwrap();
    assert_eq!(end.since(&start), Span::new(2, 2));
    assert_eq!(end.since(&end), Some(Span::from_secs(0)));
    assert_eq!(start.since(&end), None);
    assert_eq!((start.secs(), start.nanos()), (-1, 999_999_999));
}

/// A leap second is the one after the last of a minute, written as nanoseconds
/// past that. It is counted when the moments lie on either side of it in time
/// of day, so not across midnight.
#[test]
fn leap_seconds_are_moments_too() {
    let leap = Timestamp::new(1_483_228_739, 1_500_000_000).unwrap();
    let after = Timestamp::new(1_483_228_740, 0).unwrap();
    let before = Timestamp::new(1_483_228_738, 0).unwrap();
    assert_eq!(leap.since(&before), Span::new(2, 500_000_000));
    assert_eq!(after.since(&leap), Span::new(0, 500_000_000));
    let at_midnight = Timestamp::new(1_483_228_799, 1_500_000_000).unwrap();
    let next_day = Timestamp::new(1_483_228_800, 0).unwrap();
    assert_eq!(next_day.since(&at_midnight), None);
    assert_eq!(Timestamp::new(1_483_228_800, 1_000_000_000), None);
    assert_eq!(Timestamp::new(0, 2_000_000_000), None);
}

#[test]
fn moments_reach_as_far_as_the_calendar() {
    for secs in [-8_334_601_228_800, 0, 8_210_266_876_799] {
        assert!(Timestamp::new(secs, 0).is_some());
        assert!(chrono::DateTime::from_timestamp(secs, 0).is_some());
    }
    for secs in [-8_334_601_228_801, 8_210_266_876_800] {
        assert!(Timestamp::new(secs, 0).is_none());
        assert!(chrono::DateTime::from_timestamp(secs, 0).is_none());
    }
    let first = Timestamp::new(-8_334_601_228_800, 0).unwrap();
    let last = Timestamp::new(8_210_266_876_799, 1_999_999_999).unwrap();
    assert_eq!(last.since(&first), Span::new(16_544_868_105_600, 999_999_999));
}

#[test]
fn spans_compare_by_their_length() {
    let a = Span::from_parts(1, 5);
    assert!(a.longer_than(&Span::from_secs(1)));
    assert!(!a.longer_than(&a));
    assert!(!a.longer_than(&Span::from_secs(2)));
    assert_eq!(Span::new(0, 1_000_000_000), None);
}
