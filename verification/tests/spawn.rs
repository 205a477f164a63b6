use ll::data::DataValue;
use ll::spawn::{error_context, post_spawn, ErrorFormatter};
use ll::task_tree::{TaskEvent, TaskResult, TaskStatus, TaskTree};

struct OuterOnly;

impl ErrorFormatter for OuterOnly {
    fn format_error(&self, err: &anyhow::Error) -> String {
        format!("outer: {err}")
    }
}

fn failure_message(tt: &mut TaskTree, q: usize) -> String {
    let events = tt.take_events(q);
    match events.last() {
        Some(TaskEvent::End(t)) => match &t.status {
            TaskStatus::Finished(TaskResult::Failure(m), _) => m.clone(),
            _ => panic!("expected a failure"),
        },
        _ => panic!("expected an end event"),
    }
}

#[test]
fn context_of_a_task() {
    let mut tt = TaskTree::new();
    let root = tt.create_task_internal("root", None);
    let t = tt.create_task_internal("test_with_data", Some(root));
    tt.add_data(t, "hello", DataValue::String("hi".to_string()));
    tt.add_data(t, "int", DataValue::Int(5));
    assert_eq!(error_context(&tt, t), "[Task] test_with_data\n  hello: hi\n  int: 5\n");
    assert_eq!(error_context(&tt, 999), "[Task]");
    tt.attach_transitive_data_to_errors_for_task(t, false);
    tt.add_data_transitive_for_task(t, "zone", DataValue::String("eu".to_string()));
    assert_eq!(error_context(&tt, t), "[Task] test_with_data\n  hello: hi\n  int: 5\n");
    tt.attach_transitive_data_to_errors_for_task(t, true);
    assert_eq!(error_context(&tt, t), "[Task] test_with_data\n  hello: hi\n  int: 5\n  zone: eu\n");
}

#[test]
fn failures_carry_the_task_context() {
    let mut tt = TaskTree::new();
    let q = tt.add_reporter();
    let root = tt.create_task_internal("root", None);
    let t = tt.create_task_internal("test_with_data", Some(root));
    tt.add_data(t, "hello", DataValue::String("hi".to_string()));
    let r: anyhow::Result<()> = post_spawn(&mut tt, t, Err(anyhow::Error::msg("here is error msg")), None::<&OuterOnly>);
    let err = r.err().unwrap();
    assert_eq!(format!("{err}"), "[Task] test_with_data\n  hello: hi\n");
    assert_eq!(
        failure_message(&mut tt, q),
        "[Task] test_with_data\n  hello: hi\n\n\nCaused by:\n    here is error msg"
    );
    assert!(tt.get_cloned_task(t).is_none());
}

#[test]
fn formatter_and_success() {
    let mut tt = TaskTree::new();
    let q = tt.add_reporter();
    let t = tt.create_task_internal("job", None);
    let r: anyhow::Result<u32> = post_spawn(&mut tt, t, Err(anyhow::Error::msg("inner")), Some(&OuterOnly));
    assert!(r.is_err());
    assert_eq!(failure_message(&mut tt, q), "outer: [Task] job\n");
    let t2 = tt.create_task_internal("job2", None);
    let r: anyhow::Result<u32> = post_spawn(&mut tt, t2, Ok(7), None::<&OuterOnly>);
    assert_eq!(r.ok(), Some(7));
    let events = tt.take_events(q);
    match events.last() {
        Some(TaskEvent::End(t)) => assert!(matches!(t.status, TaskStatus::Finished(TaskResult::Success, _))),
        _ => panic!("expected an end event"),
    }
}
