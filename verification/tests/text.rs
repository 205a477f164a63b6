use ll::data::{Data, DataValue, FloatValue};
use ll::style::strip_ansi;
use ll::task_tree::{TaskInternal, TaskResult, TaskStatus};
use ll::text::{make_string, pad_left_str, DurationFormat, TaskReportType, TimestampFormat};
use ll::time::Timestamp;

fn task(name: &str, parents: &[&str], status: TaskStatus) -> TaskInternal {
    TaskInternal {
        id: 1,
        name: name.to_string(),
        parent_names: parents.iter().map(|p| p.to_string()).collect(),
        started_at: Timestamp { nanos: 1_000_000_000 },
        status,
        data: Data::empty(),
        data_transitive: Data::empty(),
        tags: vec![],
        progress: None,
        hide_errors: None,
        attach_transitive_data_to_errors: true,
    }
}

fn line(t: &TaskInternal, tf: TimestampFormat, df: DurationFormat, rt: TaskReportType) -> String {
    strip_ansi(&make_string(t, tf, df, rt))
}

#[test]
fn start_and_success_lines() {
    let t = task("root", &[], TaskStatus::Running);
    assert_eq!(line(&t, TimestampFormat::Redacted, DurationFormat::NoDuration, TaskReportType::Start), "[ ] | STARTING | root");
    let t = task("test", &["root"], TaskStatus::Finished(TaskResult::Success, Timestamp { nanos: 2_000_000_000 }));
    assert_eq!(line(&t, TimestampFormat::Redacted, DurationFormat::NoDuration, TaskReportType::End), "[ ] root:test");
    assert_eq!(line(&t, TimestampFormat::NoTimestamp, DurationFormat::NoDuration, TaskReportType::End), "root:test");
}

#[test]
fn failure_line_with_data_and_error() {
    let mut t = task(
        "test_with_data",
        &["root"],
        TaskStatus::Finished(TaskResult::Failure("first\nsecond".to_string()), Timestamp { nanos: 2_000_000_000 }),
    );
    t.data.add("hello", DataValue::String("hi".to_string()));
    t.data.add("int", DataValue::Int(5));
    t.data.add("float", DataValue::Float(FloatValue { bits: 5.98f64.to_bits(), text: "5.98".to_string() }));
    t.data.add("secret #dontprint", DataValue::Int(1));
    t.data_transitive.add("run_id", DataValue::String("r-1".to_string()));
    assert_eq!(
        line(&t, TimestampFormat::Redacted, DurationFormat::NoDuration, TaskReportType::End),
        "[ ] [ERR] root:test_with_data\n  |      float: 5.98\n  |      hello: hi\n  |      int: 5\n  |      run_id: r-1\n  |\n  |  first\n  |  second"
    );
}

#[test]
fn hidden_error_replaces_the_message() {
    let mut t = task("t", &[], TaskStatus::Finished(TaskResult::Failure("secret".to_string()), Timestamp { nanos: 2_000_000_000 }));
    t.hide_errors = Some("(see logs)".to_string());
    assert_eq!(line(&t, TimestampFormat::Redacted, DurationFormat::NoDuration, TaskReportType::End), "[ ] [ERR] t(see logs)");
    t.data.add("k", DataValue::NoValue);
    assert_eq!(
        line(&t, TimestampFormat::Redacted, DurationFormat::NoDuration, TaskReportType::End),
        "[ ] [ERR] t\n  |      k: None\n(see logs)"
    );
}

#[test]
fn duration_in_milliseconds() {
    let t = task("t", &[], TaskStatus::Finished(TaskResult::Success, Timestamp { nanos: 1_012_400_000 }));
    assert_eq!(line(&t, TimestampFormat::Redacted, DurationFormat::Milliseconds, TaskReportType::End), "[ ] |     12ms | t");
    let long = task("t", &[], TaskStatus::Finished(TaskResult::Success, Timestamp { nanos: 1_000_000_000 + 1_234_567_000_000 }));
    assert_eq!(line(&long, TimestampFormat::Redacted, DurationFormat::Milliseconds, TaskReportType::End), "[ ] | 1234567ms | t");
    // an end before the start shows no duration
    let odd = task("t", &[], TaskStatus::Finished(TaskResult::Success, Timestamp { nanos: 5 }));
    assert_eq!(line(&odd, TimestampFormat::Redacted, DurationFormat::Milliseconds, TaskReportType::End), "[ ] t");
}

#[test]
fn utc_timestamps() {
    let mut t = task("root", &[], TaskStatus::Running);
    t.started_at = Timestamp { nanos: 1_704_110_400_400_000_000 };
    assert_eq!(
        line(&t, TimestampFormat::UTC, DurationFormat::NoDuration, TaskReportType::Start),
        "[2024-01-01T12:00:00Z] | STARTING | root"
    );
    // a running task has no end time
    assert_eq!(line(&t, TimestampFormat::UTC, DurationFormat::NoDuration, TaskReportType::End), "[                    ]root");
    assert_eq!(line(&t, TimestampFormat::Local, DurationFormat::NoDuration, TaskReportType::End), "[          ]root");
}

#[test]
fn padding_is_right_aligned() {
    assert_eq!(pad_left_str("12", 6), "    12");
    assert_eq!(pad_left_str("1234567", 6), "1234567");
    assert_eq!(pad_left_str("", 2), "  ");
}

#[test]
fn escape_sequences_are_stripped() {
    assert_eq!(strip_ansi("\x1b[31mred\x1b[0m and \x1b[2mdim\x1b[0m"), "red and dim");
    assert_eq!(strip_ansi("plain"), "plain");
}

#[test]
fn far_times_are_dated_while_chrono_dates_them() {
    let mut t = task("root", &[], TaskStatus::Running);
    t.started_at = Timestamp { nanos: 8_100_000_000_000u128 * 1_000_000_000 };
    let utc = line(&t, TimestampFormat::UTC, DurationFormat::NoDuration, TaskReportType::Start);
    assert!(utc.starts_with("[+") && utc.ends_with("Z] | STARTING | root"), "{utc}");
    let local = line(&t, TimestampFormat::Local, DurationFormat::NoDuration, TaskReportType::Start);
    assert!(!local.starts_with("[          ]") && local.ends_with("] | STARTING | root"), "{local}");
    // past chrono's last date there is no date to show
    t.started_at = Timestamp { nanos: 9_000_000_000_000u128 * 1_000_000_000 };
    assert_eq!(
        line(&t, TimestampFormat::UTC, DurationFormat::NoDuration, TaskReportType::Start),
        "[                    ]| STARTING | root"
    );
    assert_eq!(
        line(&t, TimestampFormat::Local, DurationFormat::NoDuration, TaskReportType::Start),
        "[          ]| STARTING | root"
    );
}
