use ll::data::{Data, DataValue};
use ll::level::Level;
use ll::reporters::{ConsoleReporter, LineSink, StdioReporter, StringReporter};
use ll::stdio;
use ll::style::strip_ansi;
use ll::task_tree::{TaskEvent, TaskInternal, TaskResult, TaskStatus, TaskTree};
use ll::text::{DurationFormat, TimestampFormat};
use ll::time::Timestamp;
use std::sync::Arc;

fn task(name: &str, tags: &[&str], status: TaskStatus) -> TaskInternal {
    TaskInternal {
        id: 3,
        name: name.to_string(),
        parent_names: vec!["root".to_string()],
        started_at: Timestamp { nanos: 1_000_000_000 },
        status,
        data: Data::empty(),
        data_transitive: Data::empty(),
        tags: tags.iter().map(|t| t.to_string()).collect(),
        progress: None,
        hide_errors: None,
        attach_transitive_data_to_errors: true,
    }
}

#[test]
fn string_reporter_collects_start_and_end_lines() {
    let mut tt = TaskTree::new();
    let mut s = StringReporter::new();
    let q = tt.add_reporter();
    s.start(q);
    let root = tt.create_task_internal("root", None);
    let ok = tt.create_task_internal("test", Some(root));
    tt.mark_done(ok, None);
    let hidden = tt.create_task_internal("quiet #dontprint", Some(root));
    tt.mark_done(hidden, None);
    let bad = tt.create_task_internal("test_with_data", Some(root));
    tt.add_data(bad, "hello", DataValue::String("hi".to_string()));
    tt.task_progress(bad, 1, 2);
    tt.mark_done(bad, Some("here is error msg".to_string()));
    assert_eq!(
        s.to_string(&mut tt),
        "[ ] | STARTING | root\n[ ] | STARTING | root:test\n[ ] root:test\n[ ] | STARTING | [ERR] root:test_with_data\n[ ] [ERR] root:test_with_data\n  |      hello: hi\n  |\n  |  here is error msg\n"
    );
    // the queue is drained: nothing new comes twice
    let again = s.to_string(&mut tt);
    assert!(again.ends_with("here is error msg\n"));
    assert_eq!(again.matches("STARTING | root\n").count(), 1);
}

#[test]
fn waiting_events_show_the_task_as_it_is_now() {
    let mut tt = TaskTree::new();
    let mut s = StringReporter::new();
    let q = tt.add_reporter();
    s.start(q);
    let root = tt.create_task_internal("root", None);
    let t = tt.create_task_internal("job", Some(root));
    tt.mark_done(t, Some("bad".to_string()));
    assert!(s.to_string(&mut tt).contains("[ ] | STARTING | [ERR] root:job\n"));
    // with force flush, an event keeps the task as it was when emitted
    let mut tt = TaskTree::new();
    tt.set_force_flush(true);
    let mut s = StringReporter::new();
    let q = tt.add_reporter();
    s.start(q);
    let t = tt.create_task_internal("job", None);
    tt.mark_done(t, Some("bad".to_string()));
    assert!(s.to_string(&mut tt).starts_with("[ ] | STARTING | job\n[ ] [ERR] job"));
}

#[test]
fn string_reporter_before_start_collects_nothing() {
    let mut tt = TaskTree::new();
    let mut s = StringReporter::default();
    let _q = tt.add_reporter();
    let root = tt.create_task_internal("root", None);
    tt.mark_done(root, None);
    assert_eq!(s.to_string(&mut tt), "");
    // a queue the tree does not have is ignored
    s.start(7);
    assert_eq!(s.to_string(&mut tt), "");
}

#[test]
fn string_reporter_settings() {
    let mut tt = TaskTree::new();
    let mut s = StringReporter::new();
    s.set_timestamp_format(TimestampFormat::NoTimestamp);
    s.log_duration(true);
    assert!(s.duration_format == DurationFormat::Milliseconds);
    s.log_duration(false);
    assert!(s.duration_format == DurationFormat::NoDuration);
    let q = tt.add_reporter();
    s.start(q);
    let root = tt.create_task_internal("root", None);
    tt.mark_done(root, None);
    assert_eq!(s.to_string(&mut tt), "| STARTING | root\nroot\n");
}

#[test]
fn stdio_reporter_filters_events() {
    let mut r = StdioReporter::new();
    let end = TaskEvent::End(Arc::new(task("t", &[], TaskStatus::Finished(TaskResult::Success, Timestamp { nanos: 2_000_000_000 }))));
    let start = TaskEvent::Start(Arc::new(task("t", &[], TaskStatus::Running)));
    let verbose = TaskEvent::End(Arc::new(task("v", &["l2"], TaskStatus::Finished(TaskResult::Success, Timestamp { nanos: 2_000_000_000 }))));
    let quiet = TaskEvent::End(Arc::new(task("q", &["dontprint"], TaskStatus::Finished(TaskResult::Success, Timestamp { nanos: 2_000_000_000 }))));
    let progress = TaskEvent::Progress(Arc::new(task("t", &[], TaskStatus::Running)));
    assert!(r.event_line(&start).is_none());
    assert!(r.event_line(&verbose).is_none());
    assert!(r.event_line(&quiet).is_none());
    assert!(r.event_line(&progress).is_none());
    r.timestamp_format = Some(TimestampFormat::Redacted);
    assert_eq!(strip_ansi(&r.event_line(&end).unwrap()), "[ ] |   1000ms | root:t");
    r.log_task_start = true;
    r.max_log_level = Level::L3;
    assert_eq!(strip_ansi(&r.event_line(&start).unwrap()), "[ ] | STARTING | root:t");
    assert!(r.event_line(&verbose).is_some());
    assert!(r.line_sink(true) == LineSink::StatusBuffer);
    assert!(r.line_sink(false) == LineSink::Stderr);
    r.use_stdout = true;
    assert!(r.line_sink(true) == LineSink::Stdout);
}

#[test]
fn stdio_builder_settings() {
    let setup = stdio::init();
    assert!(setup.reporter.log_task_start);
    assert!(setup.show_status);
    assert_eq!(setup.reporter.max_log_level, Level::L1);
    let setup = stdio::builder().log_task_start(false).max_log_level(Level::L3).term_status(false).init();
    assert!(!setup.reporter.log_task_start);
    assert!(!setup.show_status);
    assert_eq!(setup.reporter.max_log_level, Level::L3);
    assert!(setup.reporter.timestamp_format.is_none());
    assert!(!setup.reporter.use_stdout);
}

#[test]
fn console_messages() {
    let c = ConsoleReporter::new();
    let running = task("t", &[], TaskStatus::Running);
    assert!(c.start_message(&running).is_none());
    let c2 = ConsoleReporter { log_task_start: true };
    assert_eq!(c2.start_message(&running).unwrap(), "[START] root:t");
    let mut ok = task("t", &[], TaskStatus::Finished(TaskResult::Success, Timestamp { nanos: 2_000_000_000 }));
    let m = c.end_message(&ok).unwrap();
    assert!(!m.is_error);
    assert_eq!(m.text, "[OK] root:t");
    ok.data.add("b", DataValue::Int(2));
    ok.data.add("a", DataValue::String("x".to_string()));
    ok.data.add("s #dontprint", DataValue::Int(0));
    assert_eq!(c.end_message(&ok).unwrap().text, "[OK] root:t (a=x, b=2)");
    let bad = task("t", &[], TaskStatus::Finished(TaskResult::Failure("oops".to_string()), Timestamp { nanos: 2_000_000_000 }));
    let m = c.end_message(&bad).unwrap();
    assert!(m.is_error);
    assert_eq!(m.text, "[ERR] root:t\noops");
    let quiet = task("q", &["dontprint"], TaskStatus::Finished(TaskResult::Success, Timestamp { nanos: 2_000_000_000 }));
    assert!(c.end_message(&quiet).is_none());
    assert!(c2.start_message(&quiet).is_none());
}
