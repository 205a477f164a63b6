use anyhow::Result;
use ll::data::{DataValue, FloatValue};
use ll::reporters::StringReporter;
use ll::spawn::{post_spawn, ErrorFormatter};
use ll::task_tree::{TaskTree, UniqID};

struct Setup {
    tt: TaskTree,
    s: StringReporter,
    formatter: Option<Box<dyn ErrorFormatter>>,
}

fn setup() -> Setup {
    let mut tt = TaskTree::new();
    tt.set_force_flush(true);
    let mut s = StringReporter::new();
    let q = tt.add_reporter();
    s.start(q);
    Setup { tt, s, formatter: None }
}

impl Setup {
    /// Runs `f` as a child task of `parent`, as `spawn_sync` does.
    fn spawn_sync<T>(&mut self, parent: UniqID, name: &str, f: impl FnOnce(&mut Setup, UniqID) -> Result<T>) -> Result<T> {
        let id = self.tt.create_task_internal(name, Some(parent));
        let r = f(self, id);
        post_spawn(&mut self.tt, id, r, self.formatter.as_deref())
    }

    fn report(&mut self) -> String {
        self.s.to_string(&mut self.tt)
    }
}

fn str_data(s: &str) -> DataValue {
    DataValue::String(s.to_string())
}

fn text(v: Option<DataValue>) -> String {
    match v {
        Some(DataValue::Int(i)) => format!("Some(Int({i}))"),
        Some(DataValue::String(s)) => format!("Some(String({s:?}))"),
        Some(other) => format!("Some({})", other.to_display_string()),
        None => "None".to_string(),
    }
}

#[test]
fn basic_events_test() {
    let mut st = setup();
    let root = st.tt.create_task_internal("root", None);
    st.spawn_sync(root, "test", |_, _| Ok(())).unwrap();
    st.spawn_sync(root, "test_with_data", |st, t| -> Result<()> {
        st.tt.add_data(t, "hello", str_data("hi"));
        st.tt.add_data(t, "int", DataValue::Int(5));
        st.tt.add_data(t, "float", DataValue::Float(FloatValue { bits: 5.98f64.to_bits(), text: format!("{}", 5.98f64) }));
        Err(anyhow::Error::msg("here is error msg"))
    })
    .ok();
    st.spawn_sync(root, "test_3", |_, _| Ok(())).unwrap();
    assert_eq!(st.report(), BASIC);
}

const BASIC: &str = "[ ] | STARTING | root\n[ ] | STARTING | root:test\n[ ] root:test\n[ ] | STARTING | root:test_with_data\n[ ] [ERR] root:test_with_data\n  |      float: 5.98\n  |      hello: hi\n  |      int: 5\n  |\n  |  [Task] test_with_data\n  |    float: 5.98\n  |    hello: hi\n  |    int: 5\n  |  \n  |  \n  |  Caused by:\n  |      here is error msg\n[ ] | STARTING | root:test_3\n[ ] root:test_3\n";

fn error_chain(st: &mut Setup, root: UniqID, hide_top: bool, random_stuff: bool, inner_attach: bool) -> Result<()> {
    st.spawn_sync(root, "top_level", |st, t| {
        if hide_top {
            st.tt.hide_error_msg_for_task(t, None);
        }
        if random_stuff {
            st.spawn_sync(t, "random_stuff", |_, _| Ok(()))?;
        }
        st.tt.add_data(t, "top_level_data", DataValue::Int(5));
        st.spawn_sync(t, "1_level", |st, t1| {
            st.tt.add_data(t1, "1_level_data", DataValue::Int(9));
            if inner_attach {
                st.tt.attach_transitive_data_to_errors_for_task(t1, true);
            }
            st.spawn_sync(t1, "2_level", |_, _| -> Result<()> { Err(anyhow::Error::msg("oh noes, this fails")) })
        })?;
        Ok(())
    })
}

#[test]
fn error_chain_test() {
    let mut st = setup();
    let root = st.tt.create_task_internal("root", None);
    let result = error_chain(&mut st, root, false, false, false);
    assert_eq!(format!("{:?}", result.unwrap_err()), "[Task] top_level\n  top_level_data: 5\n\n\nCaused by:\n    0: [Task] 1_level\n         1_level_data: 9\n       \n    1: [Task] 2_level\n       \n    2: oh noes, this fails");
    assert_eq!(st.report(), "[ ] | STARTING | root\n[ ] | STARTING | root:top_level\n[ ] | STARTING | root:top_level:1_level\n[ ] | STARTING | root:top_level:1_level:2_level\n[ ] [ERR] root:top_level:1_level:2_level\n  |\n  |  [Task] 2_level\n  |  \n  |  \n  |  Caused by:\n  |      oh noes, this fails\n[ ] [ERR] root:top_level:1_level\n  |      1_level_data: 9\n  |\n  |  [Task] 1_level\n  |    1_level_data: 9\n  |  \n  |  \n  |  Caused by:\n  |      0: [Task] 2_level\n  |         \n  |      1: oh noes, this fails\n[ ] [ERR] root:top_level\n  |      top_level_data: 5\n  |\n  |  [Task] top_level\n  |    top_level_data: 5\n  |  \n  |  \n  |  Caused by:\n  |      0: [Task] 1_level\n  |           1_level_data: 9\n  |         \n  |      1: [Task] 2_level\n  |         \n  |      2: oh noes, this fails\n");
}

#[test]
fn error_chain_test_no_transitive() {
    let mut st = setup();
    st.tt.attach_transitive_data_to_errors_default(false);
    st.tt.add_data_transitive("transitive_data", str_data("transitive_value"));
    let root = st.tt.create_task_internal("root", None);
    let result = error_chain(&mut st, root, false, false, true);
    assert_eq!(format!("{:?}", result.unwrap_err()), "[Task] top_level\n  top_level_data: 5\n\n\nCaused by:\n    0: [Task] 1_level\n         1_level_data: 9\n         transitive_data: transitive_value\n       \n    1: [Task] 2_level\n       \n    2: oh noes, this fails");
    assert_eq!(st.report(), "[ ] | STARTING | root\n[ ] | STARTING | root:top_level\n[ ] | STARTING | root:top_level:1_level\n[ ] | STARTING | root:top_level:1_level:2_level\n[ ] [ERR] root:top_level:1_level:2_level\n  |      transitive_data: transitive_value\n  |\n  |  [Task] 2_level\n  |  \n  |  \n  |  Caused by:\n  |      oh noes, this fails\n[ ] [ERR] root:top_level:1_level\n  |      1_level_data: 9\n  |      transitive_data: transitive_value\n  |\n  |  [Task] 1_level\n  |    1_level_data: 9\n  |    transitive_data: transitive_value\n  |  \n  |  \n  |  Caused by:\n  |      0: [Task] 2_level\n  |         \n  |      1: oh noes, this fails\n[ ] [ERR] root:top_level\n  |      top_level_data: 5\n  |      transitive_data: transitive_value\n  |\n  |  [Task] top_level\n  |    top_level_data: 5\n  |  \n  |  \n  |  Caused by:\n  |      0: [Task] 1_level\n  |           1_level_data: 9\n  |           transitive_data: transitive_value\n  |         \n  |      1: [Task] 2_level\n  |         \n  |      2: oh noes, this fails\n");
}

#[test]
fn error_chain_test_hide_errors() {
    let mut st = setup();
    st.tt.hide_errors_default_msg(Some(" <error omitted>".to_string()));
    let root = st.tt.create_task_internal("root", None);
    let result = error_chain(&mut st, root, true, false, false);
    assert_eq!(format!("{:?}", result.unwrap_err()), "[Task] top_level\n  top_level_data: 5\n\n\nCaused by:\n    0: [Task] 1_level\n         1_level_data: 9\n       \n    1: [Task] 2_level\n       \n    2: oh noes, this fails");
    assert_eq!(st.report(), "[ ] | STARTING | root\n[ ] | STARTING | root:top_level\n[ ] | STARTING | root:top_level:1_level\n[ ] | STARTING | root:top_level:1_level:2_level\n[ ] [ERR] root:top_level:1_level:2_level <error omitted>\n[ ] [ERR] root:top_level:1_level\n  |      1_level_data: 9\n <error omitted>\n[ ] [ERR] root:top_level\n  |      top_level_data: 5\n  |\n  |  [Task] top_level\n  |    top_level_data: 5\n  |  \n  |  \n  |  Caused by:\n  |      0: [Task] 1_level\n  |           1_level_data: 9\n  |         \n  |      1: [Task] 2_level\n  |         \n  |      2: oh noes, this fails\n");
}

struct CustomFormatter {}

impl ErrorFormatter for CustomFormatter {
    fn format_error(&self, err: &anyhow::Error) -> String {
        err.chain()
            .rev()
            .enumerate()
            .map(|(i, e)| format!("{} --> {}", i, e.to_string().trim()))
            .collect::<Vec<_>>()
            .join("\n")
    }
}

#[test]
fn error_chain_test_error_formatter() {
    let mut st = setup();
    st.tt.hide_errors_default_msg(Some(" <error omitted>".to_string()));
    st.formatter = Some(Box::new(CustomFormatter {}));
    let root = st.tt.create_task_internal("root", None);
    let result = error_chain(&mut st, root, true, true, false);
    assert_eq!(format!("{:?}", result.unwrap_err()), "[Task] top_level\n  top_level_data: 5\n\n\nCaused by:\n    0: [Task] 1_level\n         1_level_data: 9\n       \n    1: [Task] 2_level\n       \n    2: oh noes, this fails");
    assert_eq!(st.report(), "[ ] | STARTING | root\n[ ] | STARTING | root:top_level\n[ ] | STARTING | root:top_level:random_stuff\n[ ] root:top_level:random_stuff\n[ ] | STARTING | root:top_level:1_level\n[ ] | STARTING | root:top_level:1_level:2_level\n[ ] [ERR] root:top_level:1_level:2_level <error omitted>\n[ ] [ERR] root:top_level:1_level\n  |      1_level_data: 9\n <error omitted>\n[ ] [ERR] root:top_level\n  |      top_level_data: 5\n  |\n  |  0 --> oh noes, this fails\n  |  1 --> [Task] 2_level\n  |  2 --> [Task] 1_level\n  |    1_level_data: 9\n  |  3 --> [Task] top_level\n  |    top_level_data: 5\n");
}

#[test]
fn logger_data_test() {
    let mut st = setup();
    st.tt.add_data_transitive("tree_transitive_data", DataValue::Int(5));
    let root = st.tt.create_task_internal("root", None);
    let t1 = st.tt.create_task_internal("t1", Some(root));
    st.tt.add_data_transitive_for_task(t1, "process_id", DataValue::Int(123));
    st.spawn_sync(t1, "has_process_id", |_, _| Ok(())).unwrap();
    let t2 = st.tt.create_task_internal("t2", Some(t1));
    st.tt.add_data_transitive_for_task(t2, "request_id", DataValue::Int(234));
    st.spawn_sync(t2, "has_process_and_request_id", |_, _| Ok(())).unwrap();
    let t3 = st.tt.create_task_internal("t3", Some(t2));
    st.tt.add_data_transitive_for_task(t3, "request_id #dontprint", DataValue::Int(592));
    st.spawn_sync(t3, "wont_print_request_id", |_, _| Ok(())).unwrap();
    let t4 = st.tt.create_task_internal("t4", Some(t3));
    st.spawn_sync(t4, "wont_print_request_id", |st, task| {
        st.tt.add_data(task, "hello", str_data("meow"));
        assert_eq!(text(st.tt.get_data(task, "tree_transitive_data")), "Some(Int(5))");
        assert_eq!(text(st.tt.get_data(task, "hello")), "Some(String(\"meow\"))");
        assert_eq!(text(st.tt.get_data(task, "this_data_doesnt_exist")), "None");
        assert_eq!(st.tt.get_data(task, "tree_transitive_data").unwrap().to_display_string(), "5");
        Ok(())
    })
    .unwrap();
    assert_eq!(st.report(), "[ ] | STARTING | root\n[ ] | STARTING | root:t1\n[ ] | STARTING | root:t1:has_process_id\n[ ] root:t1:has_process_id\n  |      process_id: 123\n  |      tree_transitive_data: 5\n[ ] | STARTING | root:t1:t2\n[ ] | STARTING | root:t1:t2:has_process_and_request_id\n[ ] root:t1:t2:has_process_and_request_id\n  |      process_id: 123\n  |      request_id: 234\n  |      tree_transitive_data: 5\n[ ] | STARTING | root:t1:t2:t3\n[ ] | STARTING | root:t1:t2:t3:wont_print_request_id\n[ ] root:t1:t2:t3:wont_print_request_id\n  |      process_id: 123\n  |      tree_transitive_data: 5\n[ ] | STARTING | root:t1:t2:t3:t4\n[ ] | STARTING | root:t1:t2:t3:t4:wont_print_request_id\n[ ] root:t1:t2:t3:t4:wont_print_request_id\n  |      hello: meow\n  |      process_id: 123\n  |      tree_transitive_data: 5\n");
}

#[test]
fn async_test() {
    let mut st = setup();
    let root = st.tt.create_task_internal("root", None);
    st.spawn_sync(root, "async_event", |st, e| {
        st.tt.add_data(e, "async_data", DataValue::Int(5));
        Ok(())
    })
    .unwrap();
    assert_eq!(st.report(), "[ ] | STARTING | root\n[ ] | STARTING | root:async_event\n[ ] root:async_event\n  |      async_data: 5\n");
}

#[test]
fn macro_error_propagation() {
    let mut tt = TaskTree::new();
    let mut s = StringReporter::new();
    let q = tt.add_reporter();
    s.start(q);
    let mut st = Setup { tt, s, formatter: None };
    let root = st.tt.create_task_internal("root", None);
    let result: Result<()> = st.spawn_sync(root, "failing_task", |st, t| {
        st.tt.add_data(t, "attempt", DataValue::Int(1));
        Err(anyhow::Error::msg("something went wrong"))
    });
    assert!(result.is_err());
    assert_eq!(
        st.report(),
        "[ ] | STARTING | root\n[ ] | STARTING | [ERR] root:failing_task\n[ ] [ERR] root:failing_task\n  |      attempt: 1\n  |\n  |  [Task] failing_task\n  |    attempt: 1\n  |  \n  |  \n  |  Caused by:\n  |      something went wrong\n"
    );
}
