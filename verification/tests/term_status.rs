use ll::data::Data;
use ll::level::Level;
use ll::style::strip_ansi;
use ll::task_tree::{TaskInternal, TaskResult, TaskStatus, TaskTree};
use ll::term_status::{
    buffer_line, drain_buffer, hide_status, is_active, make_progress, progress_drawable_value, task_row,
    TermStatusInternal, TermStatusShared,
};
use ll::time::Timestamp;

fn task(name: &str, status: TaskStatus, progress: Option<(i64, i64)>) -> TaskInternal {
    TaskInternal {
        id: 1,
        name: name.to_string(),
        parent_names: vec![],
        started_at: Timestamp { nanos: 1_000_000_000 },
        status,
        data: Data::empty(),
        data_transitive: Data::empty(),
        tags: vec![],
        progress,
        hide_errors: None,
        attach_transitive_data_to_errors: true,
    }
}

#[test]
fn progress_bars() {
    let t = task("t", TaskStatus::Running, Some((24, 48)));
    assert_eq!(strip_ansi(&make_progress(&t)), format!(" [{}{}] 24/48 ", " ".repeat(15), ".".repeat(15)));
    let t = task("t", TaskStatus::Running, Some((1, 3)));
    assert_eq!(strip_ansi(&make_progress(&t)), format!(" [{}{}] 1/3 ", " ".repeat(9), ".".repeat(21)));
    let t = task("t", TaskStatus::Running, Some((5, 4)));
    assert_eq!(strip_ansi(&make_progress(&t)), format!(" [{}] 5/4 ", " ".repeat(30)));
    let t = task("t", TaskStatus::Running, Some((-1, 100)));
    assert_eq!(strip_ansi(&make_progress(&t)), format!(" [{}] -1/100 ", ".".repeat(30)));
    let t = task("t", TaskStatus::Running, Some((3, 0)));
    assert_eq!(make_progress(&t), "");
    let t = task("t", TaskStatus::Running, None);
    assert_eq!(make_progress(&t), "");
}

#[test]
fn progress_that_cannot_be_drawn() {
    assert!(progress_drawable_value(None));
    assert!(progress_drawable_value(Some((7, 0))));
    assert!(progress_drawable_value(Some((-3, 100))));
    assert!(!progress_drawable_value(Some((-4, 100))));
    assert!(!progress_drawable_value(Some((i64::MAX, 1))));
    assert!(progress_drawable_value(Some((i64::MAX / 100, i64::MAX / 100))));
}

#[test]
fn rows_of_single_tasks() {
    let running = task("build", TaskStatus::Running, None);
    let row = task_row(&running, &vec![true, false], Timestamp { nanos: 3_250_000_000 }).unwrap();
    assert_eq!(strip_ansi(&row), "│ ╰  ▶  [2.2s] build");
    let done = task("ok", TaskStatus::Finished(TaskResult::Success, Timestamp { nanos: 62_000_000_000 }), Some((1, 2)));
    let row = task_row(&done, &vec![true], Timestamp { nanos: 0 }).unwrap();
    assert_eq!(strip_ansi(&row), format!("├  ✓  [61.0s]  [{}{}] 1/2 ok", " ".repeat(15), ".".repeat(15)));
    let failed = task("bad", TaskStatus::Finished(TaskResult::Failure("e".to_string()), Timestamp { nanos: 1_000_000_000 }), None);
    let row = task_row(&failed, &vec![], Timestamp { nanos: 0 }).unwrap();
    assert_eq!(strip_ansi(&row), " x  [0.0s] bad");
    // a clock before the start gives no row
    assert!(task_row(&running, &vec![], Timestamp { nanos: 5 }).is_none());
}

fn tree_with_tasks(nostatus_child: bool) -> TaskTree {
    let mut tt = TaskTree::new();
    let r1 = tt.create_task_internal("r1", None);
    let c1 = tt.create_task_internal(if nostatus_child { "c1 #nostatus" } else { "c1" }, Some(r1));
    let _c2 = tt.create_task_internal("c2", Some(r1));
    let _g = tt.create_task_internal("g", Some(c1));
    let _r2 = tt.create_task_internal("r2", None);
    for (_, t) in tt.tree_internal.tasks_internal.iter_mut() {
        t.started_at = Timestamp { nanos: 0 };
    }
    tt
}

fn rows(tt: &TaskTree, height: u16) -> Vec<String> {
    let s = TermStatusInternal::new();
    assert!(s.progress_drawable_check(tt));
    s.make_status_rows(tt, height, Timestamp { nanos: 1_500_000_000 })
        .unwrap()
        .iter()
        .map(|r| strip_ansi(r))
        .collect()
}

#[test]
fn status_rows_follow_the_tree() {
    let tt = tree_with_tasks(false);
    assert_eq!(
        rows(&tt, 50),
        vec![
            " ▶  [1.5s] r2".to_string(),
            " ▶  [1.5s] r1".to_string(),
            "├  ▶  [1.5s] c1".to_string(),
            "│ ╰  ▶  [1.5s] g".to_string(),
            "╰  ▶  [1.5s] c2".to_string(),
        ]
    );
}

#[test]
fn hidden_tasks_pass_their_place_to_children() {
    let tt = tree_with_tasks(true);
    assert_eq!(
        rows(&tt, 50),
        vec![
            " ▶  [1.5s] r2".to_string(),
            " ▶  [1.5s] r1".to_string(),
            "├  ▶  [1.5s] g".to_string(),
            "╰  ▶  [1.5s] c2".to_string(),
        ]
    );
}

#[test]
fn rows_are_cut_to_the_screen() {
    let tt = tree_with_tasks(false);
    assert_eq!(
        rows(&tt, 4),
        vec![" ▶  [1.5s] r2".to_string(), " ▶  [1.5s] r1".to_string(), ".......3 more tasks.......".to_string()]
    );
    assert_eq!(rows(&tt, 7).len(), 5);
}

#[test]
fn verbose_tasks_are_not_shown() {
    let mut tt = TaskTree::new();
    let _a = tt.create_task_internal("a #l2", None);
    let mut s = TermStatusInternal::new();
    assert!(s.make_status_rows(&tt, 50, Timestamp::now()).unwrap().is_empty());
    s.max_log_level = Level::L2;
    assert_eq!(s.make_status_rows(&tt, 50, Timestamp::now()).unwrap().len(), 1);
}

#[test]
fn frames_erase_the_previous_one() {
    let mut tt = TaskTree::new();
    let a = tt.create_task_internal("a", None);
    tt.tree_internal.tasks_internal.get_mut(&a).unwrap().started_at = Timestamp { nanos: 0 };
    let mut s = TermStatusInternal::new();
    let mut shared = TermStatusShared::new();
    assert!(s.show(&mut shared));
    assert!(is_active(&shared));
    assert!(!s.show(&mut shared));
    buffer_line(&mut shared, "log one".to_string());
    let now = Timestamp { nanos: 1_000_000_000 };
    let first = strip_ansi(&s.render_frame(&tt, &mut shared, 50, now).unwrap());
    assert_eq!(first, "log one\n\n ▶  [1.0s] a\n");
    assert_eq!(s.current_height, 1);
    let raw = s.render_frame(&tt, &mut shared, 50, now).unwrap();
    assert!(raw.starts_with("\x1b[?2026h\x1b[2A\x1b[J"));
    assert!(raw.ends_with("\x1b[?2026l"));
    tt.mark_done(a, None);
    // nothing left to draw: the frame is erased
    assert_eq!(s.render_frame(&tt, &mut shared, 50, now).unwrap(), "\x1b[2A\x1b[J");
    assert_eq!(s.current_height, 0);
    assert_eq!(s.render_frame(&tt, &mut shared, 50, now).unwrap(), "");
    buffer_line(&mut shared, "late".to_string());
    let out = hide_status(&mut s, &mut shared);
    assert_eq!(out, "late\n");
    assert!(!is_active(&shared));
    assert!(!s.enabled);
    assert!(drain_buffer(&mut shared).is_empty());
}
