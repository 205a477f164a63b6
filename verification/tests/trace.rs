use ll::data::{Data, DataValue, FloatValue};
use ll::task_tree::{TaskEvent, TaskInternal, TaskResult, TaskStatus};
use ll::time::Timestamp;
use ll::trace::{
    build_args, builder, extract_level_tag, task_to_trace_event, trace_records, write_footer, write_header, ArgValue,
    Builder, WriterState,
};
use std::sync::Arc;

fn task(tags: &[&str], status: TaskStatus) -> TaskInternal {
    TaskInternal {
        id: 17,
        name: "compile".to_string(),
        parent_names: vec!["build".to_string(), "crates".to_string()],
        started_at: Timestamp { nanos: 5_000_000_000 },
        status,
        data: Data::empty(),
        data_transitive: Data::empty(),
        tags: tags.iter().map(|t| t.to_string()).collect(),
        progress: None,
        hide_errors: None,
        attach_transitive_data_to_errors: true,
    }
}

fn arg_text(a: &ArgValue) -> String {
    match a {
        ArgValue::Str(s) => format!("s:{s}"),
        ArgValue::Int(i) => format!("i:{i}"),
        ArgValue::Float(f) => format!("f:{}", f.text),
        ArgValue::Null => "null".to_string(),
        ArgValue::List(v) => format!("l:{}", v.join(",")),
    }
}

#[test]
fn level_tag_is_the_first_level() {
    assert_eq!(extract_level_tag(&task(&[], TaskStatus::Running)), "l1");
    assert_eq!(extract_level_tag(&task(&["a", "l3", "l2"], TaskStatus::Running)), "l3");
    assert_eq!(extract_level_tag(&task(&["l0"], TaskStatus::Running)), "l0");
}

#[test]
fn args_in_key_order() {
    let mut t = task(&["l2", "x"], TaskStatus::Finished(TaskResult::Failure("bad".to_string()), Timestamp { nanos: 6_000_000_000 }));
    t.data.add("zeta", DataValue::Int(3));
    t.data.add("alpha", DataValue::Float(FloatValue { bits: 1.5f64.to_bits(), text: "1.5".to_string() }));
    t.data.add("nothing", DataValue::NoValue);
    t.data.add("error", DataValue::String("from data".to_string()));
    let args = build_args(&t, true, true).unwrap();
    let flat: Vec<String> = args.iter().map(|(k, v)| format!("{k}={}", arg_text(v))).collect();
    assert_eq!(
        flat,
        vec![
            "alpha=f:1.5".to_string(),
            "error=s:from data".to_string(),
            "nothing=null".to_string(),
            "parent=s:build > crates".to_string(),
            "tags=l:l2,x".to_string(),
            "zeta=i:3".to_string(),
        ]
    );
    let args = build_args(&t, false, false).unwrap();
    let flat: Vec<String> = args.iter().map(|(k, v)| format!("{k}={}", arg_text(v))).collect();
    assert_eq!(flat, vec!["error=s:bad".to_string(), "parent=s:build > crates".to_string()]);
    let mut plain = task(&[], TaskStatus::Running);
    plain.parent_names.clear();
    assert!(build_args(&plain, true, true).is_none());
}

#[test]
fn records_for_end_events_only() {
    let done = task(&["l0"], TaskStatus::Finished(TaskResult::Success, Timestamp { nanos: 7_500_000_000 }));
    let events = vec![
        TaskEvent::Start(Arc::new(task(&[], TaskStatus::Running))),
        TaskEvent::End(Arc::new(done)),
        TaskEvent::Progress(Arc::new(task(&[], TaskStatus::Running))),
    ];
    let recs = trace_records(&events, Timestamp { nanos: 4_000_000_000 }, true, true);
    assert_eq!(recs.len(), 1);
    assert_eq!(recs[0].name, "compile");
    assert_eq!(recs[0].cat, "l0");
    assert_eq!(recs[0].start_offset_ns, 1_000_000_000);
    assert_eq!(recs[0].end_offset_ns, Some(3_500_000_000));
    assert_eq!(recs[0].tid, 17);
    // times before the trace's start count from it
    let r = task_to_trace_event(&task(&[], TaskStatus::Running), Timestamp { nanos: 9_000_000_000 }, false, false);
    assert_eq!(r.start_offset_ns, 0);
    assert_eq!(r.end_offset_ns, None);
}

#[test]
fn header_and_footer() {
    let mut out = String::new();
    write_header(&mut out, "my \"server\"\n");
    assert_eq!(
        out,
        "{\"traceEvents\":[\n{\"ph\":\"M\",\"name\":\"process_name\",\"cat\":\"\",\"ts\":0.0,\"pid\":1,\"tid\":0,\"args\":{\"name\":\"my \\\"server\\\"\\n\"}}"
    );
    write_footer(&mut out);
    assert!(out.ends_with("}}\n]}\n"));
    let mut ctl = String::new();
    write_header(&mut ctl, "a\u{1}b\\");
    assert!(ctl.ends_with("\"a\\u0001b\\\\\"}}"));
}

#[test]
fn trace_is_closed_once() {
    let (mut state, header) = WriterState::new(Vec::<u8>::new(), "ll", Timestamp { nanos: 0 });
    assert!(header.contains("\"name\":\"ll\""));
    let events = vec![TaskEvent::End(Arc::new(task(&[], TaskStatus::Finished(TaskResult::Success, Timestamp { nanos: 6_000_000_000 }))))];
    assert_eq!(state.records(&events, true, true).len(), 1);
    assert_eq!(state.finalize(), Some("\n]}\n".to_string()));
    assert_eq!(state.finalize(), None);
    assert!(state.records(&events, true, true).is_empty());
}

#[test]
fn builder_defaults_and_settings() {
    let b: Builder<Vec<u8>> = builder();
    assert_eq!(b.process_name, "ll");
    assert!(b.include_args && b.include_tags && b.writer.is_none());
    let b = b.process_name("svc").include_args(false).include_tags(false).writer(vec![1u8]);
    assert_eq!(b.process_name, "svc");
    assert!(!b.include_args && !b.include_tags);
    assert_eq!(b.writer, Some(vec![1u8]));
}
