use ll::data::{Data, DataValue};
use ll::level::{parse_level, Level};
use ll::tags::extract_tags;
use ll::task_tree::{TaskEvent, TaskResult, TaskStatus, TaskTree};

fn text(v: &Option<DataValue>) -> String {
    match v {
        Some(v) => v.to_display_string(),
        None => "<none>".to_string(),
    }
}

#[test]
fn tags_are_split_off_the_name() {
    let (name, tags) = extract_tags("  deploy #l2 #nostatus  # ");
    assert_eq!(name, "deploy");
    assert_eq!(tags, vec!["l2".to_string(), "nostatus".to_string()]);
    let (name, tags) = extract_tags("plain");
    assert_eq!(name, "plain");
    assert!(tags.is_empty());
    let (_, tags) = extract_tags("x #b #a #b");
    assert_eq!(tags, vec!["a".to_string(), "b".to_string()]);
}

#[test]
fn level_is_the_least_level_tag() {
    assert_eq!(parse_level(&vec![]), Level::L1);
    assert_eq!(parse_level(&vec!["l3".to_string()]), Level::L3);
    assert_eq!(parse_level(&vec!["l0".to_string(), "l2".to_string()]), Level::L0);
    assert_eq!(parse_level(&vec!["l2".to_string(), "l3".to_string()]), Level::L2);
    assert_eq!(parse_level(&vec!["other".to_string()]), Level::L1);
    assert_eq!(Level::default(), Level::L1);
}

#[test]
fn data_add_then_get() {
    let mut d = Data::empty();
    d.add("b", DataValue::Int(2));
    d.add("a #dontprint", DataValue::String("x".to_string()));
    d.add("b", DataValue::Int(3));
    assert_eq!(d.map.len(), 2);
    assert_eq!(d.map[0].0, "a");
    assert_eq!(d.map[0].1 .1, vec!["dontprint".to_string()]);
    assert_eq!(d.get("b").unwrap().0.to_display_string(), "3");
    assert!(d.get("c").is_none());
}

#[test]
fn full_names_follow_the_tree() {
    let mut tt = TaskTree::new();
    let root = tt.create_task_internal("root #l0", None);
    let child = tt.create_task_internal("child", Some(root));
    let grandchild = tt.create_task_internal("grand #l2", Some(child));
    let t = tt.get_cloned_task(grandchild).unwrap();
    assert_eq!(t.full_name(), "root:child:grand");
    assert_eq!(t.name, "grand");
    assert_eq!(t.tags, vec!["l2".to_string()]);
    assert_eq!(tt.get_cloned_task(root).unwrap().full_name(), "root");
    // a parent that does not exist makes a root
    let orphan = tt.create_task_internal("orphan", Some(999));
    assert!(tt.tree_internal.root_tasks().contains(&orphan));
    assert_eq!(tt.get_cloned_task(orphan).unwrap().full_name(), "orphan");
}

#[test]
fn transitive_data_is_inherited_and_wins() {
    let mut tt = TaskTree::new();
    tt.add_data_transitive("run_id", DataValue::String("r-42".to_string()));
    let root = tt.create_task_internal("root", None);
    tt.add_data_transitive_for_task(root, "region", DataValue::String("eu".to_string()));
    tt.add_data(root, "region", DataValue::String("own".to_string()));
    let child = tt.create_task_internal("child", Some(root));
    assert_eq!(text(&tt.get_data(child, "run_id")), "r-42");
    assert_eq!(text(&tt.get_data(child, "region")), "eu");
    // the transitive value wins over the task's own one
    assert_eq!(text(&tt.get_data(root, "region")), "eu");
    tt.add_data(child, "n", DataValue::Int(-7));
    assert_eq!(text(&tt.get_data(child, "n")), "-7");
    assert_eq!(text(&tt.get_data(child, "missing")), "<none>");
    assert_eq!(text(&tt.get_data(12345, "n")), "<none>");
}

#[test]
fn events_reach_every_queue() {
    let mut tt = TaskTree::new();
    let q1 = tt.add_reporter();
    let root = tt.create_task_internal("root", None);
    let q2 = tt.add_reporter();
    tt.task_progress(root, 1, 2);
    tt.mark_done(root, Some("boom".to_string()));
    let e1 = tt.take_events(q1);
    let e2 = tt.take_events(q2);
    assert_eq!(e1.len(), 3);
    assert_eq!(e2.len(), 2);
    assert!(matches!(e1[0], TaskEvent::Start(_)));
    assert!(matches!(e1[1], TaskEvent::Progress(_)));
    match &e1[2] {
        TaskEvent::End(t) => match &t.status {
            TaskStatus::Finished(TaskResult::Failure(m), _) => assert_eq!(m, "boom"),
            _ => panic!("expected a failure"),
        },
        _ => panic!("expected an end event"),
    }
    assert!(tt.take_events(q1).is_empty());
}

#[test]
fn finished_tasks_are_removed_bottom_up() {
    let mut tt = TaskTree::new();
    let root = tt.create_task_internal("root", None);
    let child = tt.create_task_internal("child", Some(root));
    // a finished parent stays while a child runs
    tt.mark_done(root, None);
    assert!(tt.get_cloned_task(root).is_some());
    assert!(tt.get_cloned_task(child).is_some());
    // finishing the child removes it and then the parent
    tt.mark_done(child, None);
    assert!(tt.get_cloned_task(child).is_none());
    assert!(tt.get_cloned_task(root).is_none());
    assert!(tt.tree_internal.root_tasks().is_empty());
    assert!(tt.tree_internal.get_task(root).is_err());
}
