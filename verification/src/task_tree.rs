//! The task tree: every task has a name, tags, data, a status and at most
//! one parent. Creating, finishing and annotating tasks emits events into
//! one queue per reporter. A finished task leaves the tree once it has no
//! children left, and its finished ancestors follow it.

use vstd::prelude::*;
use std::collections::{BTreeMap, BTreeSet};
use std::sync::Arc;
use crate::data::{all_data_lookup, Data, DataEntry, DataEntryView, DataValue, DataValueView, DataView};
use crate::sorted::{insert_sorted_v, merge_v, str_views, strs_sorted};
use crate::tags::{extract_tags, name_part, tag_list};
use crate::time::Timestamp;

verus! {

broadcast use vstd::std_specs::btree::group_btree_axioms;

/// Identifies a task within its tree.
pub type UniqID = u64;

/// How a finished task ended.
pub enum TaskResult {
    Success,
    Failure(String),
}

/// Whether a task is still running, or how and when it finished.
pub enum TaskStatus {
    Running,
    Finished(TaskResult, Timestamp),
}

/// A task result by views.
pub enum TaskResultView {
    Success,
    Failure(Seq<char>),
}

/// A task status by views; the finishing time in nanoseconds.
pub enum TaskStatusView {
    Running,
    Finished(TaskResultView, u128),
}

impl TaskResult {
    pub open spec fn view(&self) -> TaskResultView {
        match self {
            TaskResult::Success => TaskResultView::Success,
            TaskResult::Failure(m) => TaskResultView::Failure(m@),
        }
    }

    pub fn copy(&self) -> (r: TaskResult)
        ensures
            r@ == self@,
    {
        match self {
            TaskResult::Success => TaskResult::Success,
            TaskResult::Failure(m) => TaskResult::Failure(m.clone()),
        }
    }
}

impl TaskStatus {
    pub open spec fn view(&self) -> TaskStatusView {
        match self {
            TaskStatus::Running => TaskStatusView::Running,
            TaskStatus::Finished(r, t) => TaskStatusView::Finished(r@, t.nanos),
        }
    }

    pub fn copy(&self) -> (r: TaskStatus)
        ensures
            r@ == self@,
    {
        match self {
            TaskStatus::Running => TaskStatus::Running,
            TaskStatus::Finished(r, t) => TaskStatus::Finished(r.copy(), *t),
        }
    }
}

/// A task as the tree holds it.
pub struct TaskInternal {
    pub id: UniqID,
    pub name: String,
    /// The names of the ancestors, outermost first.
    pub parent_names: Vec<String>,
    pub started_at: Timestamp,
    pub status: TaskStatus,
    pub data: Data,
    /// Data inherited by the task's descendants.
    pub data_transitive: Data,
    pub tags: Vec<String>,
    /// How many items are finished and how many there are in total, e.g.
    /// `(1, 10)` when one piece of ten is done.
    pub progress: Option<(i64, i64)>,
    /// When set, reporters print this in place of the task's error.
    pub hide_errors: Option<String>,
    pub attach_transitive_data_to_errors: bool,
}

/// A task by views.
pub struct TaskView {
    pub id: UniqID,
    pub name: Seq<char>,
    pub parent_names: Seq<Seq<char>>,
    pub started_at: u128,
    pub status: TaskStatusView,
    pub data: DataView,
    pub data_transitive: DataView,
    pub tags: Seq<Seq<char>>,
    pub progress: Option<(i64, i64)>,
    pub hide_errors: Option<Seq<char>>,
    pub attach_transitive_data_to_errors: bool,
}

pub open spec fn opt_str_view(o: Option<String>) -> Option<Seq<char>> {
    match o {
        Some(s) => Some(s@),
        None => None,
    }
}

/// The names joined by `:`, each followed by one `:`.
pub open spec fn joined_prefix(names: Seq<Seq<char>>) -> Seq<char>
    decreases names.len(),
{
    if names.len() == 0 {
        Seq::empty()
    } else {
        joined_prefix(names.drop_last()) + names.last() + seq![':']
    }
}

/// The full name of a task: its ancestors' names and its own, joined by `:`.
pub open spec fn full_name_of(t: TaskView) -> Seq<char> {
    joined_prefix(t.parent_names) + t.name
}

/// All data that a task sees: its own, then its inherited data.
pub open spec fn all_data_of(t: TaskView) -> DataView {
    t.data + t.data_transitive
}

impl TaskInternal {
    pub open spec fn view(&self) -> TaskView {
        TaskView {
            id: self.id,
            name: self.name@,
            parent_names: str_views(self.parent_names@),
            started_at: self.started_at.nanos,
            status: self.status@,
            data: self.data@,
            data_transitive: self.data_transitive@,
            tags: str_views(self.tags@),
            progress: self.progress,
            hide_errors: opt_str_view(self.hide_errors),
            attach_transitive_data_to_errors: self.attach_transitive_data_to_errors,
        }
    }

    pub open spec fn wf(&self) -> bool {
        &&& self.data.wf()
        &&& self.data_transitive.wf()
        &&& strs_sorted(self.tags@)
    }

    /// A copy of the task.
    pub fn copy(&self) -> (r: TaskInternal)
        ensures
            r.wf() == self.wf(),
            r@ == self@,
    {
        let hide_errors = match &self.hide_errors {
            Some(m) => Some(m.clone()),
            None => None,
        };
        TaskInternal {
            id: self.id,
            name: self.name.clone(),
            parent_names: crate::data::clone_strings(&self.parent_names),
            started_at: self.started_at,
            status: self.status.copy(),
            data: self.data.copy(),
            data_transitive: self.data_transitive.copy(),
            tags: crate::data::clone_strings(&self.tags),
            progress: self.progress,
            hide_errors,
            attach_transitive_data_to_errors: self.attach_transitive_data_to_errors,
        }
    }

    /// Marks the task finished now: successful without a message, failed
    /// with the given one.
    pub fn mark_done(&mut self, error_message: Option<String>)
        ensures
            final(self).status matches TaskStatus::Finished(r, _) && r@ == (match error_message {
                Some(m) => TaskResultView::Failure(m@),
                None => TaskResultView::Success,
            }),
            final(self)@ == (TaskView { status: final(self)@.status, ..old(self)@ }),
            final(self).wf() == old(self).wf(),
    {
        let task_status = match error_message {
            None => TaskResult::Success,
            Some(msg) => TaskResult::Failure(msg),
        };
        self.status = TaskStatus::Finished(task_status, Timestamp::now());
    }

    /// The task's full name: ancestor names and its own, joined by `:`.
    pub fn full_name(&self) -> (r: String)
        ensures
            r@ == full_name_of(self@),
    {
        let mut full_name = String::new();
        let n = self.parent_names.len();
        let mut i: usize = 0;
        while i < n
            invariant
                n == self.parent_names@.len(),
                i <= n,
                full_name@ == joined_prefix(str_views(self.parent_names@).take(i as int)),
            decreases n - i,
        {
            full_name.append(self.parent_names[i].as_str());
            crate::strs::push_char(&mut full_name, ':');
            proof {
                let ps = str_views(self.parent_names@);
                assert(ps.take(i + 1).drop_last() =~= ps.take(i as int));
                assert(ps.take(i + 1).last() == self.parent_names@[i as int]@);
            }
            i = i + 1;
        }
        proof {
            assert(str_views(self.parent_names@).take(n as int) =~= str_views(self.parent_names@));
        }
        full_name.append(self.name.as_str());
        full_name
    }

    /// Copies of all entries the task sees: its own data, then its
    /// inherited data, each in key order.
    pub fn all_data(&self) -> (r: Vec<(String, DataEntry)>)
        ensures
            crate::sorted::view_entries(r@, |e: DataEntry| crate::data::entry_view(e)) == all_data_of(self@),
    {
        let a = self.data.copy();
        let b = self.data_transitive.copy();
        let mut r = a.map;
        let mut rest = b.map;
        let ghost ra = r@;
        let ghost rb = rest@;
        r.append(&mut rest);
        proof {
            let f = |e: DataEntry| crate::data::entry_view(e);
            assert(crate::sorted::view_entries(r@, f) =~= crate::sorted::view_entries(ra, f) + crate::sorted::view_entries(rb, f));
        }
        r
    }
}

/// An event about a task, carrying the task as it was at that moment.
pub enum TaskEvent {
    Start(Arc<TaskInternal>),
    End(Arc<TaskInternal>),
    Progress(Arc<TaskInternal>),
}

/// An event by views.
pub enum TaskEventView {
    Start(TaskView),
    End(TaskView),
    Progress(TaskView),
}

impl TaskEvent {
    pub open spec fn view(&self) -> TaskEventView {
        match self {
            TaskEvent::Start(t) => TaskEventView::Start((**t)@),
            TaskEvent::End(t) => TaskEventView::End((**t)@),
            TaskEvent::Progress(t) => TaskEventView::Progress((**t)@),
        }
    }

    pub fn share(&self) -> (r: TaskEvent)
        ensures
            r@ == self@,
    {
        match self {
            TaskEvent::Start(t) => TaskEvent::Start(share_arc(t)),
            TaskEvent::End(t) => TaskEvent::End(share_arc(t)),
            TaskEvent::Progress(t) => TaskEvent::Progress(share_arc(t)),
        }
    }
}

/// `Arc::clone`: another handle to the same allocation, hence the same value.
#[verifier::external_body]
fn share_arc<T>(a: &Arc<T>) -> (r: Arc<T>)
    ensures
        *r == **a,
{
    a.clone()
}

pub open spec fn events_view(q: Seq<TaskEvent>) -> Seq<TaskEventView> {
    q.map_values(|e: TaskEvent| e@)
}

pub open spec fn queues_view(qs: Seq<Vec<TaskEvent>>) -> Seq<Seq<TaskEventView>> {
    qs.map_values(|q: Vec<TaskEvent>| events_view(q@))
}

/// Each queue with `e` appended.
pub open spec fn push_all(qs: Seq<Seq<TaskEventView>>, e: TaskEventView) -> Seq<Seq<TaskEventView>> {
    qs.map_values(|q: Seq<TaskEventView>| q.push(e))
}

/// The event with its task replaced by `t` when it is an event of the
/// same task.
pub open spec fn refresh_event(e: TaskEventView, t: TaskView) -> TaskEventView {
    match e {
        TaskEventView::Start(u) => if u.id == t.id { TaskEventView::Start(t) } else { e },
        TaskEventView::End(u) => if u.id == t.id { TaskEventView::End(t) } else { e },
        TaskEventView::Progress(u) => if u.id == t.id { TaskEventView::Progress(t) } else { e },
    }
}

/// Every queued event of task `t` showing `t` as it is now.
pub open spec fn refreshed(qs: Seq<Seq<TaskEventView>>, t: TaskView) -> Seq<Seq<TaskEventView>> {
    qs.map_values(|q: Seq<TaskEventView>| q.map_values(|e: TaskEventView| refresh_event(e, t)))
}

/// The queues after task `t` changed: refreshed unless events keep the
/// task as it was when emitted.
pub open spec fn live_queues(qs: Seq<Seq<TaskEventView>>, force_flush: bool, t: TaskView) -> Seq<Seq<TaskEventView>> {
    if force_flush { qs } else { refreshed(qs, t) }
}

fn refresh_one(ev: &TaskEvent, task: &TaskInternal) -> (r: TaskEvent)
    ensures
        r@ == refresh_event(ev@, task@),
{
    match ev {
        TaskEvent::Start(t) => if t.id == task.id { TaskEvent::Start(Arc::new(task.copy())) } else { ev.share() },
        TaskEvent::End(t) => if t.id == task.id { TaskEvent::End(Arc::new(task.copy())) } else { ev.share() },
        TaskEvent::Progress(t) => if t.id == task.id { TaskEvent::Progress(Arc::new(task.copy())) } else { ev.share() },
    }
}

fn refresh_queue(q: &Vec<TaskEvent>, task: &TaskInternal) -> (r: Vec<TaskEvent>)
    ensures
        events_view(r@) == events_view(q@).map_values(|e: TaskEventView| refresh_event(e, task@)),
{
    let n = q.len();
    let mut r: Vec<TaskEvent> = Vec::new();
    let mut i: usize = 0;
    while i < n
        invariant
            n == q@.len(),
            i <= n,
            events_view(r@) == events_view(q@.take(i as int)).map_values(|e: TaskEventView| refresh_event(e, task@)),
        decreases n - i,
    {
        let e = refresh_one(&q[i], task);
        let ghost before = r@;
        r.push(e);
        proof {
            assert(events_view(r@) =~= events_view(before).push(e@));
            assert(events_view(q@.take(i + 1)) =~= events_view(q@.take(i as int)).push(q@[i as int]@));
            assert(events_view(r@) =~= events_view(q@.take(i + 1)).map_values(|e: TaskEventView| refresh_event(e, task@)));
        }
        i = i + 1;
    }
    assert(q@.take(n as int) =~= q@);
    r
}

/// Makes every queued event of the task show it as it is now.
fn refresh_queues(queues: &mut Vec<Vec<TaskEvent>>, task: &TaskInternal)
    ensures
        queues_view(final(queues)@) == refreshed(queues_view(old(queues)@), task@),
{
    let n = queues.len();
    let mut result: Vec<Vec<TaskEvent>> = Vec::new();
    let mut i: usize = 0;
    while i < n
        invariant
            n == old(queues)@.len(),
            queues@ == old(queues)@,
            i <= n,
            queues_view(result@) == refreshed(queues_view(old(queues)@.take(i as int)), task@),
        decreases n - i,
    {
        let q = refresh_queue(&queues[i], task);
        let ghost before = result@;
        result.push(q);
        proof {
            assert(queues_view(result@) =~= queues_view(before).push(events_view(q@)));
            assert(queues_view(old(queues)@.take(i + 1)) =~= queues_view(old(queues)@.take(i as int)).push(events_view(old(queues)@[i as int]@)));
            assert(queues_view(result@) =~= refreshed(queues_view(old(queues)@.take(i + 1)), task@));
        }
        i = i + 1;
    }
    assert(old(queues)@.take(n as int) =~= old(queues)@);
    *queues = result;
}

/// Appends `ev` to every queue.
fn push_to_all(queues: &mut Vec<Vec<TaskEvent>>, ev: &TaskEvent)
    ensures
        queues_view(final(queues)@) == push_all(queues_view(old(queues)@), ev@),
{
    let n = queues.len();
    let mut result: Vec<Vec<TaskEvent>> = Vec::new();
    let mut i: usize = 0;
    let ghost orig = queues@;
    while i < n
        invariant
            n == orig.len(),
            i <= n,
            queues@ == orig.skip(i as int),
            queues_view(result@) == push_all(queues_view(orig.take(i as int)), ev@),
        decreases n - i,
    {
        assert(queues@[0] == orig[i as int]);
        let mut q = queues.remove(0);
        q.push(ev.share());
        let ghost old_result = result@;
        result.push(q);
        proof {
            assert(queues_view(result@) =~= queues_view(old_result).push(events_view(q@)));
            let x = queues_view(orig.take(i as int));
            let y = events_view(orig[i as int]@);
            assert(push_all(x.push(y), ev@) =~= push_all(x, ev@).push(y.push(ev@)));
            assert(queues@ =~= orig.skip(i + 1));
            assert(queues_view(orig.take(i + 1)) =~= queues_view(orig.take(i as int)).push(events_view(orig[i as int]@)));
            assert(events_view(q@) =~= events_view(orig[i as int]@).push(ev@));
            assert(queues_view(result@) =~= push_all(queues_view(orig.take(i + 1)), ev@));
        }
        i = i + 1;
    }
    proof {
        assert(orig.take(n as int) =~= orig);
    }
    *queues = result;
}

} // verus!

verus! {

/// The state of a task tree.
pub struct TaskTreeInternal {
    pub tasks_internal: BTreeMap<UniqID, TaskInternal>,
    pub parent_to_children: BTreeMap<UniqID, BTreeSet<UniqID>>,
    pub child_to_parents: BTreeMap<UniqID, BTreeSet<UniqID>>,
    pub root_tasks: BTreeSet<UniqID>,
    /// One queue of pending events per reporter.
    pub event_queues: Vec<Vec<TaskEvent>>,
    /// Data every new task inherits.
    pub data_transitive: Data,
    pub hide_errors_default_msg: Option<String>,
    pub attach_transitive_data_to_errors_default: bool,
    /// The identifier the next task gets.
    pub next_id: UniqID,
    /// Whether a queued event keeps the task as it was when the event was
    /// emitted. When off, queued events show their task as it is now: a
    /// change to a task reaches its events that wait in the queues.
    pub force_flush: bool,
}

/// The tasks of a tree and the links between them.
pub struct TreeModel {
    pub tasks: Map<UniqID, TaskView>,
    pub children: Map<UniqID, Set<UniqID>>,
    pub parents: Map<UniqID, Set<UniqID>>,
    pub roots: Set<UniqID>,
}

/// The parent of a task that has one.
pub open spec fn parent_in(m: TreeModel, c: UniqID) -> UniqID {
    choose|p: UniqID| m.parents[c] == set![p]
}

/// The links of a tree are consistent:
/// - a task with a parent has exactly one, created before it, which lists
///   it among its children, and whose name path extends to it;
/// - the listed children of a task have it as their parent;
/// - the roots are exactly the tasks without a parent.
pub open spec fn model_wf(m: TreeModel) -> bool {
    &&& forall|c: UniqID| #[trigger] m.parents.contains_key(c) ==> {
        &&& m.tasks.contains_key(c)
        &&& exists|p: UniqID| m.parents[c] == set![p]
        &&& parent_in(m, c) < c
        &&& m.tasks.contains_key(parent_in(m, c))
        &&& m.children.contains_key(parent_in(m, c))
        &&& m.children[parent_in(m, c)].contains(c)
        &&& m.tasks[c].parent_names == m.tasks[parent_in(m, c)].parent_names.push(m.tasks[parent_in(m, c)].name)
    }
    &&& forall|p: UniqID| #[trigger] m.children.contains_key(p) ==> {
        &&& m.tasks.contains_key(p)
        &&& forall|c: UniqID| #[trigger] m.children[p].contains(c) ==> m.parents.contains_key(c)
            && m.parents[c] == set![p]
    }
    &&& forall|id: UniqID| #[trigger] m.roots.contains(id) <==> (m.tasks.contains_key(id)
        && !m.parents.contains_key(id))
}

impl TaskTreeInternal {
    /// The tasks by identifier.
    pub open spec fn tasks(&self) -> Map<UniqID, TaskView> {
        self.tasks_internal@.map_values(|t: TaskInternal| t@)
    }

    /// The children of each task that has had children.
    pub open spec fn children(&self) -> Map<UniqID, Set<UniqID>> {
        self.parent_to_children@.map_values(|s: BTreeSet<UniqID>| s@)
    }

    /// The parents of each task that has a parent.
    pub open spec fn parents(&self) -> Map<UniqID, Set<UniqID>> {
        self.child_to_parents@.map_values(|s: BTreeSet<UniqID>| s@)
    }

    pub open spec fn roots(&self) -> Set<UniqID> {
        self.root_tasks@
    }

    pub open spec fn queues(&self) -> Seq<Seq<TaskEventView>> {
        queues_view(self.event_queues@)
    }

    /// The tree's tasks and links.
    pub open spec fn model(&self) -> TreeModel {
        TreeModel { tasks: self.tasks(), children: self.children(), parents: self.parents(), roots: self.roots() }
    }

    /// The parent of a task that has one.
    pub open spec fn parent_of(&self, c: UniqID) -> UniqID {
        parent_in(self.model(), c)
    }

    /// The tree's invariant: each task is stored under its own identifier,
    /// below `next_id`, and the links satisfy `model_wf`.
    pub open spec fn wf(&self) -> bool {
        &&& forall|id: UniqID| #[trigger] self.tasks_internal@.contains_key(id) ==> {
            &&& self.tasks_internal@[id].wf()
            &&& self.tasks_internal@[id].id == id
            &&& id < self.next_id
        }
        &&& model_wf(self.model())
        &&& self.data_transitive.wf()
    }

    /// An empty tree.
    pub fn new() -> (r: TaskTreeInternal)
        ensures
            r.wf(),
            r.tasks() == Map::<UniqID, TaskView>::empty(),
            r.children() == Map::<UniqID, Set<UniqID>>::empty(),
            r.parents() == Map::<UniqID, Set<UniqID>>::empty(),
            r.roots() == Set::<UniqID>::empty(),
            r.queues() == Seq::<Seq<TaskEventView>>::empty(),
            r.data_transitive@ == Seq::<(Seq<char>, DataEntryView)>::empty(),
            r.hide_errors_default_msg is None,
            r.attach_transitive_data_to_errors_default,
            !r.force_flush,
            r.next_id == 1,
    {
        let r = TaskTreeInternal {
            tasks_internal: BTreeMap::new(),
            parent_to_children: BTreeMap::new(),
            child_to_parents: BTreeMap::new(),
            root_tasks: BTreeSet::new(),
            event_queues: Vec::new(),
            data_transitive: Data::empty(),
            hide_errors_default_msg: None,
            attach_transitive_data_to_errors_default: true,
            next_id: 1,
            force_flush: false,
        };
        assert(r.tasks() =~= Map::<UniqID, TaskView>::empty());
        assert(r.children() =~= Map::<UniqID, Set<UniqID>>::empty());
        assert(r.parents() =~= Map::<UniqID, Set<UniqID>>::empty());
        assert(r.queues() =~= Seq::<Seq<TaskEventView>>::empty());
        r
    }

    /// Whether `parent` names a task of the tree.
    pub open spec fn has_parent(&self, parent: Option<UniqID>) -> bool {
        parent matches Some(p) && self.tasks().contains_key(p)
    }

    /// The task that `create_task_internal` makes.
    pub open spec fn created_task(&self, id: UniqID, name: Seq<char>, parent: Option<UniqID>, started: u128) -> TaskView {
        let p = self.tasks()[parent->0];
        TaskView {
            id: id,
            name: name_part(name),
            parent_names: if self.has_parent(parent) { p.parent_names.push(p.name) } else { Seq::empty() },
            started_at: started,
            status: TaskStatusView::Running,
            data: Seq::empty(),
            data_transitive: if self.has_parent(parent) {
                merge_v(self.data_transitive@, p.data_transitive)
            } else {
                self.data_transitive@
            },
            tags: tag_list(name),
            progress: None,
            hide_errors: opt_str_view(self.hide_errors_default_msg),
            attach_transitive_data_to_errors: self.attach_transitive_data_to_errors_default,
        }
    }

    /// The tree's fields other than tasks, links and queues are equal.
    pub open spec fn same_settings(&self, other: &TaskTreeInternal) -> bool {
        &&& self.data_transitive@ == other.data_transitive@
        &&& self.data_transitive.wf() == other.data_transitive.wf()
        &&& opt_str_view(self.hide_errors_default_msg) == opt_str_view(other.hide_errors_default_msg)
        &&& self.attach_transitive_data_to_errors_default == other.attach_transitive_data_to_errors_default
        &&& self.force_flush == other.force_flush
    }

    /// Creates a task named by the tagged name `name`, under `parent` when
    /// that task exists and as a root otherwise, and emits its start event.
    fn insert_task(&mut self, name: &str, parent: Option<UniqID>) -> (id: UniqID)
        requires
            old(self).wf(),
            old(self).next_id < u64::MAX,
        ensures
            final(self).wf(),
            id == old(self).next_id,
            final(self).next_id == old(self).next_id + 1,
            !old(self).tasks().contains_key(id),
            final(self).tasks() == old(self).tasks().insert(id,
                old(self).created_task(id, name@, parent, final(self).tasks()[id].started_at)),
            old(self).has_parent(parent) ==> {
                &&& final(self).parents() == old(self).parents().insert(id, set![parent->0])
                &&& final(self).children() == old(self).children().insert(parent->0,
                    if old(self).children().contains_key(parent->0) {
                        old(self).children()[parent->0].insert(id)
                    } else {
                        set![id]
                    })
                &&& final(self).roots() == old(self).roots()
            },
            !old(self).has_parent(parent) ==> {
                &&& final(self).parents() == old(self).parents()
                &&& final(self).children() == old(self).children()
                &&& final(self).roots() == old(self).roots().insert(id)
            },
            final(self).queues() == push_all(old(self).queues(), TaskEventView::Start(final(self).tasks()[id])),
            final(self).same_settings(old(self)),
    {
        let (task_name, tags) = extract_tags(name);
        let id = self.next_id;
        self.next_id = self.next_id + 1;
        let mut data_transitive = self.data_transitive.copy();
        let mut parent_names: Vec<String> = Vec::new();
        let mut parent_id: UniqID = 0;
        let mut has_parent = false;
        if let Some(pid) = parent {
            if let Some(parent_task) = self.tasks_internal.get(&pid) {
                assert(self.tasks_internal@[pid].wf());
                parent_names = crate::data::clone_strings(&parent_task.parent_names);
                let ghost pn0 = parent_names@;
                parent_names.push(parent_task.name.clone());
                assert(str_views(parent_names@) =~= str_views(pn0).push(parent_task.name@));
                data_transitive.merge(&parent_task.data_transitive);
                parent_id = pid;
                has_parent = true;
            }
        }
        let ghost old_self = *old(self);
        assert(has_parent == old_self.has_parent(parent));
        if has_parent {
            let mut children = match self.parent_to_children.remove(&parent_id) {
                Some(c) => c,
                None => BTreeSet::new(),
            };
            children.insert(id);
            self.parent_to_children.insert(parent_id, children);
            let mut parents = BTreeSet::new();
            parents.insert(parent_id);
            self.child_to_parents.insert(id, parents);
        } else {
            self.root_tasks.insert(id);
        }
        let hide_errors = match &self.hide_errors_default_msg {
            Some(m) => Some(m.clone()),
            None => None,
        };
        let task_internal = TaskInternal {
            status: TaskStatus::Running,
            name: task_name,
            parent_names,
            id,
            started_at: Timestamp::now(),
            data: Data::empty(),
            data_transitive,
            tags,
            progress: None,
            hide_errors,
            attach_transitive_data_to_errors: self.attach_transitive_data_to_errors_default,
        };
        proof {
            let ct = old_self.created_task(id, name@, parent, task_internal.started_at.nanos);
            let tv = task_internal@;
            assert(tv.name == ct.name);
            assert(tv.tags == ct.tags);
            assert(tv.data =~= ct.data);
            assert(tv.parent_names =~= ct.parent_names);
            assert(tv.data_transitive == ct.data_transitive);
            assert(tv.hide_errors == ct.hide_errors);
            assert(tv == ct);
        }
        let stored = task_internal.copy();
        self.tasks_internal.insert(id, stored);
        let ev = TaskEvent::Start(Arc::new(task_internal));
        push_to_all(&mut self.event_queues, &ev);
        proof {
            assert(self.tasks_internal@[id]@ == old_self.created_task(id, name@, parent, self.tasks()[id].started_at));
            assert(self.tasks() =~= old_self.tasks().insert(id,
                old_self.created_task(id, name@, parent, self.tasks()[id].started_at)));
            if has_parent {
                assert(self.parents() =~= old_self.parents().insert(id, set![parent_id]));
                assert(self.children() =~= old_self.children().insert(parent_id,
                    if old_self.children().contains_key(parent_id) {
                        old_self.children()[parent_id].insert(id)
                    } else {
                        set![id]
                    }));
            } else {
                assert(self.parents() =~= old_self.parents());
                assert(self.children() =~= old_self.children());
            }
            lemma_create_keeps_wf(old_self, *self, id, parent_id, has_parent);
        }
        id
    }
}

proof fn lemma_create_keeps_wf(old_t: TaskTreeInternal, t: TaskTreeInternal, id: UniqID, pid: UniqID, has_parent: bool)
    requires
        old_t.wf(),
        id == old_t.next_id,
        t.next_id == id + 1,
        !old_t.tasks_internal@.contains_key(id),
        t.tasks_internal@.contains_key(id),
        t.tasks_internal@[id].wf(),
        t.tasks_internal@[id].id == id,
        forall|k: UniqID| k != id ==> #[trigger] t.tasks_internal@.contains_key(k) == old_t.tasks_internal@.contains_key(k),
        forall|k: UniqID| k != id && old_t.tasks_internal@.contains_key(k) ==> #[trigger] t.tasks_internal@[k] == old_t.tasks_internal@[k],
        t.data_transitive.wf() == old_t.data_transitive.wf(),
        has_parent ==> {
            &&& old_t.tasks().contains_key(pid)
            &&& t.parents() == old_t.parents().insert(id, set![pid])
            &&& t.children() == old_t.children().insert(pid,
                if old_t.children().contains_key(pid) { old_t.children()[pid].insert(id) } else { set![id] })
            &&& t.roots() == old_t.roots()
            &&& t.tasks()[id].parent_names == old_t.tasks()[pid].parent_names.push(old_t.tasks()[pid].name)
        },
        !has_parent ==> {
            &&& t.parents() == old_t.parents()
            &&& t.children() == old_t.children()
            &&& t.roots() == old_t.roots().insert(id)
        },
    ensures
        t.wf(),
{
    let om = old_t.model();
    let nm = t.model();
    assert forall|k: UniqID| #[trigger] t.tasks_internal@.contains_key(k) implies {
        &&& t.tasks_internal@[k].wf()
        &&& t.tasks_internal@[k].id == k
        &&& k < t.next_id
    } by {
        if k != id {
            assert(old_t.tasks_internal@.contains_key(k));
        }
    }
    assert forall|k: UniqID| nm.tasks.contains_key(k) && k != id implies nm.tasks[k] == om.tasks[k] by {
        assert(t.tasks_internal@[k] == old_t.tasks_internal@[k]);
    }
    assert forall|c: UniqID| #[trigger] nm.parents.contains_key(c) implies {
        &&& nm.tasks.contains_key(c)
        &&& exists|p: UniqID| nm.parents[c] == set![p]
        &&& parent_in(nm, c) < c
        &&& nm.tasks.contains_key(parent_in(nm, c))
        &&& nm.children.contains_key(parent_in(nm, c))
        &&& nm.children[parent_in(nm, c)].contains(c)
        &&& nm.tasks[c].parent_names == nm.tasks[parent_in(nm, c)].parent_names.push(nm.tasks[parent_in(nm, c)].name)
    } by {
        if has_parent && c == id {
            assert(nm.parents[c] == set![pid]);
            assert(parent_in(nm, c) == pid) by {
                let q = parent_in(nm, c);
                assert(set![q].contains(q));
            }
            assert(old_t.tasks_internal@[pid].id == pid);
        } else {
            assert(om.parents.contains_key(c));
            assert(nm.parents[c] == om.parents[c]);
            assert(parent_in(nm, c) == parent_in(om, c));
            let p = parent_in(om, c);
            assert(old_t.tasks_internal@.contains_key(c));
            assert(c != id);
            assert(p != id);
            if has_parent && p == pid {
                assert(nm.children[p].contains(c));
            }
        }
    }
    assert forall|p: UniqID| #[trigger] nm.children.contains_key(p) implies {
        &&& nm.tasks.contains_key(p)
        &&& forall|c: UniqID| #[trigger] nm.children[p].contains(c) ==> nm.parents.contains_key(c)
            && nm.parents[c] == set![p]
    } by {
        if has_parent && p == pid {
            assert forall|c: UniqID| #[trigger] nm.children[p].contains(c) implies nm.parents.contains_key(c)
                && nm.parents[c] == set![p] by {
                if c != id {
                    assert(om.children[p].contains(c));
                    assert(om.parents.contains_key(c));
                    assert(om.parents[c] == set![p]);
                    assert(old_t.tasks_internal@.contains_key(c));
                }
            }
        } else {
            assert(om.children.contains_key(p));
            assert forall|c: UniqID| #[trigger] nm.children[p].contains(c) implies nm.parents.contains_key(c)
                && nm.parents[c] == set![p] by {
                assert(om.children[p].contains(c));
                assert(om.parents.contains_key(c));
                assert(old_t.tasks_internal@.contains_key(c));
            }
        }
    }
    assert forall|k: UniqID| #[trigger] nm.roots.contains(k) <==> (nm.tasks.contains_key(k) && !nm.parents.contains_key(k)) by {
        if k != id {
            assert(om.roots.contains(k) <==> (om.tasks.contains_key(k) && !om.parents.contains_key(k)));
        } else {
            assert(!om.tasks.contains_key(k));
            assert(!om.roots.contains(k));
            assert(!om.parents.contains_key(k));
        }
    }
}

} // verus!

verus! {

/// Whether task `id` may leave the tree: it is finished and has no children.
pub open spec fn removable(m: TreeModel, id: UniqID) -> bool {
    &&& m.tasks.contains_key(id)
    &&& m.tasks[id].status is Finished
    &&& !(m.children.contains_key(id) && !m.children[id].is_empty())
}

/// The tree without task `id`, which also leaves its parent's children.
pub open spec fn detach(m: TreeModel, id: UniqID) -> TreeModel {
    let children = m.children.remove(id);
    TreeModel {
        tasks: m.tasks.remove(id),
        children: if m.parents.contains_key(id) && children.contains_key(parent_in(m, id)) {
            children.insert(parent_in(m, id), children[parent_in(m, id)].remove(id))
        } else {
            children
        },
        parents: m.parents.remove(id),
        roots: m.roots.remove(id),
    }
}

/// Removes task `id` if it may leave, then its parent if it then may, and
/// so on up the tree.
pub open spec fn cascade(m: TreeModel, id: UniqID) -> TreeModel
    decreases id,
{
    if removable(m, id) {
        let m2 = detach(m, id);
        if m.parents.contains_key(id) && parent_in(m, id) < id {
            cascade(m2, parent_in(m, id))
        } else {
            m2
        }
    } else {
        m
    }
}

/// The task `t` finished with result `r` at time `at`.
pub open spec fn finished_view(t: TaskView, r: TaskResultView, at: u128) -> TaskView {
    TaskView { status: TaskStatusView::Finished(r, at), ..t }
}

/// The result that a finishing message gives.
pub open spec fn result_of(error_message: Option<String>) -> TaskResultView {
    match error_message {
        Some(m) => TaskResultView::Failure(m@),
        None => TaskResultView::Success,
    }
}

pub proof fn lemma_parent_in_singleton(m: TreeModel, c: UniqID, p: UniqID)
    requires
        m.parents.contains_key(c),
        m.parents[c] == set![p],
    ensures
        parent_in(m, c) == p,
{
    let q = parent_in(m, c);
    assert(set![q].contains(q));
}

/// Taking a removable task out keeps the links consistent.
pub proof fn lemma_detach_wf(m: TreeModel, id: UniqID)
    requires
        model_wf(m),
        removable(m, id),
    ensures
        model_wf(detach(m, id)),
{
    let d = detach(m, id);
    assert forall|c: UniqID| #[trigger] m.parents.contains_key(c) && c != id implies parent_in(m, c) != id by {
        let p = parent_in(m, c);
        if p == id {
            assert(m.children.contains_key(id));
            assert(m.children[id].contains(c));
        }
    }
    assert forall|c: UniqID| #[trigger] d.parents.contains_key(c) implies {
        &&& d.tasks.contains_key(c)
        &&& exists|p: UniqID| d.parents[c] == set![p]
        &&& parent_in(d, c) < c
        &&& d.tasks.contains_key(parent_in(d, c))
        &&& d.children.contains_key(parent_in(d, c))
        &&& d.children[parent_in(d, c)].contains(c)
        &&& d.tasks[c].parent_names == d.tasks[parent_in(d, c)].parent_names.push(d.tasks[parent_in(d, c)].name)
    } by {
        assert(m.parents.contains_key(c));
        let p = parent_in(m, c);
        assert(d.parents[c] == m.parents[c]);
        lemma_parent_in_singleton(d, c, p);
        assert(p != id);
        if m.parents.contains_key(id) && parent_in(m, id) == p {
            assert(c != id);
            assert(d.children[p] == m.children[p].remove(id));
        }
    }
    assert forall|p: UniqID| #[trigger] d.children.contains_key(p) implies {
        &&& d.tasks.contains_key(p)
        &&& forall|c: UniqID| #[trigger] d.children[p].contains(c) ==> d.parents.contains_key(c)
            && d.parents[c] == set![p]
    } by {
        assert(m.children.contains_key(p));
        assert(p != id);
        assert forall|c: UniqID| #[trigger] d.children[p].contains(c) implies d.parents.contains_key(c)
            && d.parents[c] == set![p] by {
            assert(m.children[p].contains(c));
            if c == id {
                if m.parents.contains_key(id) && parent_in(m, id) == p {
                } else {
                    assert(m.parents.contains_key(id));
                    assert(m.parents[id] == set![p]);
                    lemma_parent_in_singleton(m, id, p);
                }
            }
        }
    }
    assert forall|k: UniqID| #[trigger] d.roots.contains(k) <==> (d.tasks.contains_key(k) && !d.parents.contains_key(k)) by {
        assert(m.roots.contains(k) <==> (m.tasks.contains_key(k) && !m.parents.contains_key(k)));
    }
}

/// Changing a task's status keeps the links consistent.
pub proof fn lemma_restatus_wf(m: TreeModel, id: UniqID, t: TaskView)
    requires
        model_wf(m),
        m.tasks.contains_key(id),
        t.name == m.tasks[id].name,
        t.parent_names == m.tasks[id].parent_names,
    ensures
        model_wf(TreeModel { tasks: m.tasks.insert(id, t), ..m }),
{
    let n = TreeModel { tasks: m.tasks.insert(id, t), ..m };
    assert forall|c: UniqID| #[trigger] n.parents.contains_key(c) implies {
        &&& n.tasks.contains_key(c)
        &&& exists|p: UniqID| n.parents[c] == set![p]
        &&& parent_in(n, c) < c
        &&& n.tasks.contains_key(parent_in(n, c))
        &&& n.children.contains_key(parent_in(n, c))
        &&& n.children[parent_in(n, c)].contains(c)
        &&& n.tasks[c].parent_names == n.tasks[parent_in(n, c)].parent_names.push(n.tasks[parent_in(n, c)].name)
    } by {
        assert(m.parents.contains_key(c));
        assert(parent_in(n, c) == parent_in(m, c));
    }
    assert forall|k: UniqID| #[trigger] n.roots.contains(k) <==> (n.tasks.contains_key(k) && !n.parents.contains_key(k)) by {
        assert(m.roots.contains(k) <==> (m.tasks.contains_key(k) && !m.parents.contains_key(k)));
    }
}

impl TaskTreeInternal {
    /// The tasks and their storage are those of `old` minus some removed ones.
    pub open spec fn tasks_subset_of(&self, old: &TaskTreeInternal) -> bool {
        forall|k: UniqID| #[trigger] self.tasks_internal@.contains_key(k) ==> old.tasks_internal@.contains_key(k)
            && self.tasks_internal@[k] == old.tasks_internal@[k]
    }

    /// Removes task `id` if it is finished and has no children, then its
    /// parent if that is now so, and so on up the tree.
    fn try_remove(&mut self, id: UniqID)
        requires
            old(self).wf(),
        ensures
            final(self).wf(),
            final(self).model() == cascade(old(self).model(), id),
            final(self).tasks_subset_of(old(self)),
            final(self).queues() == old(self).queues(),
            final(self).next_id == old(self).next_id,
            final(self).same_settings(old(self)),
        decreases id,
    {
        let ghost m0 = self.model();
        let ghost s0 = *self;
        match self.parent_to_children.get(&id) {
            Some(children) => {
                if !children.is_empty() {
                    return;
                }
            },
            None => {},
        }
        let is_finished = match self.tasks_internal.get(&id) {
            Some(t) => match t.status {
                TaskStatus::Finished(..) => true,
                TaskStatus::Running => false,
            },
            None => false,
        };
        if !is_finished {
            return;
        }
        assert(removable(m0, id));
        self.tasks_internal.remove(&id);
        self.parent_to_children.remove(&id);
        self.root_tasks.remove(&id);
        let parents_opt = self.child_to_parents.remove(&id);
        proof {
            assert(self.tasks() =~= m0.tasks.remove(id));
            assert(self.children() =~= m0.children.remove(id));
            assert(self.parents() =~= m0.parents.remove(id));
            assert(self.tasks_subset_of(&s0));
        }
        match parents_opt {
            Some(parents) => {
                let ghost p0 = parent_in(m0, id);
                proof {
                    assert(m0.parents.contains_key(id));
                    assert(parents@ == m0.parents[id]);
                    lemma_parent_in_singleton(m0, id, choose|p: UniqID| m0.parents[id] == set![p]);
                    assert(parents@ == set![p0]);
                }
                for parent_id in it: parents.iter()
                    invariant
                        parents@ == set![p0],
                        p0 == parent_in(m0, id),
                        p0 < id,
                        m0 == s0.model(),
                        s0.wf(),
                        removable(m0, id),
                        m0.parents.contains_key(id),
                        it.index() == 0 ==> {
                            &&& self.tasks() == m0.tasks.remove(id)
                            &&& self.children() == m0.children.remove(id)
                            &&& self.parents() == m0.parents.remove(id)
                            &&& self.roots() == m0.roots.remove(id)
                        },
                        it.index() > 0 ==> {
                            &&& self.wf()
                            &&& self.model() == cascade(m0, id)
                        },
                        self.tasks_subset_of(&s0),
                        self.queues() == s0.queues(),
                        self.next_id == s0.next_id,
                        self.same_settings(&s0),
                {
                    proof {
                        let sq = it.seq();
                        assert(it.index() < sq.len());
                        assert(sq[it.index() as int] == parent_id);
                        assert(sq.len() == 1);
                        assert(it.index() == 0);
                        assert(set![p0].contains(*parent_id));
                    }
                    let pid = *parent_id;
                    match self.parent_to_children.remove(&pid) {
                        Some(mut ch) => {
                            ch.remove(&id);
                            self.parent_to_children.insert(pid, ch);
                        },
                        None => {},
                    }
                    proof {
                        assert(self.children() =~= detach(m0, id).children);
                        assert(self.tasks() == detach(m0, id).tasks);
                        assert(self.model() == detach(m0, id));
                        lemma_detach_wf(m0, id);
                        assert forall|k: UniqID| #[trigger] self.tasks_internal@.contains_key(k) implies {
                            &&& self.tasks_internal@[k].wf()
                            &&& self.tasks_internal@[k].id == k
                            &&& k < self.next_id
                        } by {
                            assert(s0.tasks_internal@.contains_key(k));
                        }
                    }
                    self.try_remove(pid);
                }
            },
            None => {
                proof {
                    assert(self.model() == detach(m0, id));
                    lemma_detach_wf(m0, id);
                    assert forall|k: UniqID| #[trigger] self.tasks_internal@.contains_key(k) implies {
                        &&& self.tasks_internal@[k].wf()
                        &&& self.tasks_internal@[k].id == k
                        &&& k < self.next_id
                    } by {
                        assert(s0.tasks_internal@.contains_key(k));
                    }
                }
            },
        }
    }
}

} // verus!

verus! {

/// Errors of lookups in a task tree.
pub enum TaskTreeError {
    /// No task has the identifier asked for.
    TaskMissing,
}

impl TaskTreeInternal {
    /// The task with identifier `id`.
    pub fn get_task(&self, id: UniqID) -> (r: Result<&TaskInternal, TaskTreeError>)
        ensures
            match r {
                Ok(t) => self.tasks_internal@.contains_key(id) && *t == self.tasks_internal@[id],
                Err(_) => !self.tasks_internal@.contains_key(id),
            },
    {
        match self.tasks_internal.get(&id) {
            Some(t) => Ok(t),
            None => Err(TaskTreeError::TaskMissing),
        }
    }

    /// The tasks without a parent.
    pub fn root_tasks(&self) -> (r: &BTreeSet<UniqID>)
        ensures
            r@ == self.roots(),
    {
        &self.root_tasks
    }

    /// The parents of each task that has one.
    pub fn child_to_parents(&self) -> (r: &BTreeMap<UniqID, BTreeSet<UniqID>>)
        ensures
            *r == self.child_to_parents,
    {
        &self.child_to_parents
    }

    /// The children of each task that has had children.
    pub fn parent_to_children(&self) -> (r: &BTreeMap<UniqID, BTreeSet<UniqID>>)
        ensures
            *r == self.parent_to_children,
    {
        &self.parent_to_children
    }

    /// Replaces task `id` by the result of `update_view` on it; used by the
    /// setters below.
    pub open spec fn with_task(&self, id: UniqID, t: TaskView) -> TreeModel {
        TreeModel { tasks: self.tasks().insert(id, t), ..self.model() }
    }
}

/// A task tree: tasks, their links, and one event queue per reporter.
pub struct TaskTree {
    pub tree_internal: TaskTreeInternal,
}

impl TaskTree {
    pub open spec fn wf(&self) -> bool {
        self.tree_internal.wf()
    }

    pub open spec fn model(&self) -> TreeModel {
        self.tree_internal.model()
    }

    pub open spec fn tasks(&self) -> Map<UniqID, TaskView> {
        self.tree_internal.tasks()
    }

    pub open spec fn queues(&self) -> Seq<Seq<TaskEventView>> {
        self.tree_internal.queues()
    }

    /// The tree's fields other than the tasks and links are unchanged.
    /// The tree after task `id` became `t`: settings and identifiers kept,
    /// the task replaced and its waiting events updated (unless they keep
    /// their emission-time state); nothing changes when there is no such
    /// task.
    pub open spec fn changed_task(&self, old: &TaskTree, id: UniqID, t: TaskView) -> bool {
        &&& self.tree_internal.same_settings(&old.tree_internal)
        &&& self.tree_internal.next_id == old.tree_internal.next_id
        &&& if old.tasks().contains_key(id) {
            &&& self.model() == old.tree_internal.with_task(id, t)
            &&& self.queues() == live_queues(old.queues(), old.tree_internal.force_flush, t)
        } else {
            &&& self.model() == old.model()
            &&& self.queues() == old.queues()
        }
    }

    pub open spec fn same_but_tasks(&self, old: &TaskTree) -> bool {
        &&& self.tree_internal.same_settings(&old.tree_internal)
        &&& self.tree_internal.next_id == old.tree_internal.next_id
        &&& self.queues() == old.queues()
    }

    /// An empty tree with no reporters.
    pub fn new() -> (r: TaskTree)
        ensures
            r.wf(),
            r.tasks() == Map::<UniqID, TaskView>::empty(),
            r.model().roots == Set::<UniqID>::empty(),
            r.queues() == Seq::<Seq<TaskEventView>>::empty(),
            r.tree_internal.data_transitive@ == Seq::<(Seq<char>, DataEntryView)>::empty(),
            r.tree_internal.hide_errors_default_msg is None,
            r.tree_internal.attach_transitive_data_to_errors_default,
            !r.tree_internal.force_flush,
            r.tree_internal.next_id == 1,
    {
        TaskTree { tree_internal: TaskTreeInternal::new() }
    }

    /// Registers a reporter: it gets an empty queue, whose index is returned.
    pub fn add_reporter(&mut self) -> (q: usize)
        ensures
            q == old(self).queues().len(),
            final(self).queues() == old(self).queues().push(Seq::empty()),
            final(self).model() == old(self).model(),
            final(self).wf() == old(self).wf(),
            final(self).tree_internal.same_settings(&old(self).tree_internal),
            final(self).tree_internal.next_id == old(self).tree_internal.next_id,
            final(self).tree_internal.tasks_internal == old(self).tree_internal.tasks_internal,
    {
        let q = self.tree_internal.event_queues.len();
        self.tree_internal.event_queues.push(Vec::new());
        assert(events_view(self.tree_internal.event_queues@[q as int]@) =~= Seq::<TaskEventView>::empty());
        assert(self.queues() =~= old(self).queues().push(Seq::empty()));
        q
    }

    /// Takes the pending events of queue `q`, leaving it empty.
    pub fn take_events(&mut self, q: usize) -> (r: Vec<TaskEvent>)
        requires
            q < old(self).queues().len(),
        ensures
            events_view(r@) == old(self).queues()[q as int],
            final(self).queues() == old(self).queues().update(q as int, Seq::empty()),
            final(self).model() == old(self).model(),
            final(self).wf() == old(self).wf(),
            final(self).tree_internal.same_settings(&old(self).tree_internal),
            final(self).tree_internal.next_id == old(self).tree_internal.next_id,
            final(self).tree_internal.tasks_internal == old(self).tree_internal.tasks_internal,
    {
        let ghost old_qs = self.tree_internal.event_queues@;
        let r = self.tree_internal.event_queues.remove(q);
        self.tree_internal.event_queues.insert(q, Vec::new());
        assert(events_view(self.tree_internal.event_queues@[q as int]@) =~= Seq::<TaskEventView>::empty());
        assert(self.queues() =~= old(self).queues().update(q as int, Seq::empty()));
        r
    }

    /// Creates a task named by the tagged name `name` under `parent` (a
    /// root when `parent` names no task) and emits its start event.
    pub fn create_task_internal(&mut self, name: &str, parent: Option<UniqID>) -> (id: UniqID)
        requires
            old(self).wf(),
            old(self).tree_internal.next_id < u64::MAX,
        ensures
            final(self).wf(),
            id == old(self).tree_internal.next_id,
            final(self).tree_internal.next_id == id + 1,
            !old(self).tasks().contains_key(id),
            forall|k: UniqID| #[trigger] old(self).tasks().contains_key(k) ==> k < id,
            final(self).tasks() == old(self).tasks().insert(id,
                old(self).tree_internal.created_task(id, name@, parent, final(self).tasks()[id].started_at)),
            old(self).tree_internal.has_parent(parent) ==> {
                &&& final(self).model().parents == old(self).model().parents.insert(id, set![parent->0])
                &&& final(self).model().children == old(self).model().children.insert(parent->0,
                    if old(self).model().children.contains_key(parent->0) {
                        old(self).model().children[parent->0].insert(id)
                    } else {
                        set![id]
                    })
                &&& final(self).model().roots == old(self).model().roots
            },
            !old(self).tree_internal.has_parent(parent) ==> {
                &&& final(self).model().parents == old(self).model().parents
                &&& final(self).model().children == old(self).model().children
                &&& final(self).model().roots == old(self).model().roots.insert(id)
            },
            final(self).queues() == push_all(old(self).queues(), TaskEventView::Start(final(self).tasks()[id])),
            final(self).tree_internal.same_settings(&old(self).tree_internal),
    {
        self.tree_internal.insert_task(name, parent)
    }

    /// Marks task `id` finished now (failed when `error_message` is given),
    /// emits its end event, and removes it, and then its finished ancestors,
    /// as far as they have no children left.
    pub fn mark_done(&mut self, id: UniqID, error_message: Option<String>)
        requires
            old(self).wf(),
        ensures
            final(self).wf(),
            final(self).tree_internal.next_id == old(self).tree_internal.next_id,
            final(self).tree_internal.same_settings(&old(self).tree_internal),
            !old(self).tasks().contains_key(id) ==> final(self).model() == old(self).model()
                && final(self).queues() == old(self).queues(),
            old(self).tasks().contains_key(id) ==> exists|at: u128| {
                &&& final(self).queues() == push_all(
                    live_queues(old(self).queues(), old(self).tree_internal.force_flush,
                        finished_view(old(self).tasks()[id], result_of(error_message), at)),
                    TaskEventView::End(#[trigger] finished_view(old(self).tasks()[id], result_of(error_message), at)))
                &&& final(self).model() == cascade(old(self).tree_internal.with_task(id,
                    finished_view(old(self).tasks()[id], result_of(error_message), at)), id)
            },
    {
        let ghost em = error_message;
        let ghost s0 = self.tree_internal;
        match self.tree_internal.tasks_internal.remove(&id) {
            Some(mut task) => {
                assert(s0.tasks_internal@.contains_key(id));
                assert(task.wf());
                task.mark_done(error_message);
                let ghost fin = task@;
                let ev = TaskEvent::End(Arc::new(task.copy()));
                if !self.tree_internal.force_flush {
                    refresh_queues(&mut self.tree_internal.event_queues, &task);
                }
                self.tree_internal.tasks_internal.insert(id, task);
                push_to_all(&mut self.tree_internal.event_queues, &ev);
                proof {
                    assert(self.tree_internal.tasks() =~= s0.tasks().insert(id, fin));
                    assert(self.tree_internal.model() == s0.with_task(id, fin));
                    lemma_restatus_wf(s0.model(), id, fin);
                    assert forall|k: UniqID| #[trigger] self.tree_internal.tasks_internal@.contains_key(k) implies {
                        &&& self.tree_internal.tasks_internal@[k].wf()
                        &&& self.tree_internal.tasks_internal@[k].id == k
                        &&& k < self.tree_internal.next_id
                    } by {
                        assert(s0.tasks_internal@.contains_key(k));
                    }
                    let at = choose|at: u128| fin.status == TaskStatusView::Finished(result_of(em), at);
                    assert(fin == finished_view(s0.tasks()[id], result_of(em), at));
                }
                self.tree_internal.try_remove(id);
            },
            None => {
                assert(self.tree_internal.tasks_internal@ =~= s0.tasks_internal@);
            },
        }
    }
}

} // verus!

verus! {

/// Replacing a task by one with the same identifier and name path keeps the
/// tree consistent.
proof fn lemma_replace_task(s0: TaskTreeInternal, s1: TaskTreeInternal, id: UniqID)
    requires
        s0.wf(),
        s0.tasks_internal@.contains_key(id),
        s1.tasks_internal@ == s0.tasks_internal@.insert(id, s1.tasks_internal@[id]),
        s1.tasks_internal@[id].wf(),
        s1.tasks_internal@[id].id == id,
        s1.tasks_internal@[id]@.name == s0.tasks()[id].name,
        s1.tasks_internal@[id]@.parent_names == s0.tasks()[id].parent_names,
        s1.parent_to_children@ == s0.parent_to_children@,
        s1.child_to_parents@ == s0.child_to_parents@,
        s1.root_tasks@ == s0.root_tasks@,
        s1.next_id == s0.next_id,
        s1.data_transitive.wf(),
    ensures
        s1.wf(),
        s1.model() == s0.with_task(id, s1.tasks_internal@[id]@),
{
    assert(s1.tasks() =~= s0.tasks().insert(id, s1.tasks_internal@[id]@));
    lemma_restatus_wf(s0.model(), id, s1.tasks_internal@[id]@);
    assert forall|k: UniqID| #[trigger] s1.tasks_internal@.contains_key(k) implies {
        &&& s1.tasks_internal@[k].wf()
        &&& s1.tasks_internal@[k].id == k
        &&& k < s1.next_id
    } by {
        assert(s0.tasks_internal@.contains_key(k));
    }
}

/// The value of an optional data value, by view.
pub open spec fn opt_value_view(o: Option<DataValue>) -> Option<DataValueView> {
    match o {
        Some(v) => Some(v@),
        None => None,
    }
}

impl TaskTree {
    /// Sets data `key` (a tagged name) of task `id` to `value`; nothing
    /// happens when there is no such task.
    pub fn add_data(&mut self, id: UniqID, key: &str, value: DataValue)
        requires
            old(self).wf(),
        ensures
            final(self).wf(),
            final(self).changed_task(old(self), id, TaskView {
                data: insert_sorted_v(old(self).tasks()[id].data, name_part(key@), (value@, tag_list(key@))),
                ..old(self).tasks()[id]
            }),
    {
        let ghost s0 = self.tree_internal;
        match self.tree_internal.tasks_internal.remove(&id) {
            Some(mut task) => {
                assert(s0.tasks_internal@.contains_key(id));
                task.data.add(key, value);
                if !self.tree_internal.force_flush {
                    refresh_queues(&mut self.tree_internal.event_queues, &task);
                }
                self.tree_internal.tasks_internal.insert(id, task);
                proof {
                    assert(self.tree_internal.tasks_internal@ =~= s0.tasks_internal@.insert(id, self.tree_internal.tasks_internal@[id]));
                    lemma_replace_task(s0, self.tree_internal, id);
                }
            },
            None => {
                assert(self.tree_internal.tasks_internal@ =~= s0.tasks_internal@);
            },
        }
    }

    /// Sets inherited data `key` (a tagged name) of task `id` to `value`;
    /// tasks created under it afterwards inherit it.
    pub fn add_data_transitive_for_task(&mut self, id: UniqID, key: &str, value: DataValue)
        requires
            old(self).wf(),
        ensures
            final(self).wf(),
            final(self).changed_task(old(self), id, TaskView {
                data_transitive: insert_sorted_v(old(self).tasks()[id].data_transitive, name_part(key@),
                    (value@, tag_list(key@))),
                ..old(self).tasks()[id]
            }),
    {
        let ghost s0 = self.tree_internal;
        match self.tree_internal.tasks_internal.remove(&id) {
            Some(mut task) => {
                assert(s0.tasks_internal@.contains_key(id));
                task.data_transitive.add(key, value);
                if !self.tree_internal.force_flush {
                    refresh_queues(&mut self.tree_internal.event_queues, &task);
                }
                self.tree_internal.tasks_internal.insert(id, task);
                proof {
                    assert(self.tree_internal.tasks_internal@ =~= s0.tasks_internal@.insert(id, self.tree_internal.tasks_internal@[id]));
                    lemma_replace_task(s0, self.tree_internal, id);
                }
            },
            None => {
                assert(self.tree_internal.tasks_internal@ =~= s0.tasks_internal@);
            },
        }
    }

    /// Sets the message that reporters print in place of task `id`'s error
    /// (`None`: print the error).
    pub fn hide_error_msg_for_task(&mut self, id: UniqID, msg: Option<String>)
        requires
            old(self).wf(),
        ensures
            final(self).wf(),
            final(self).changed_task(old(self), id, TaskView { hide_errors: opt_str_view(msg), ..old(self).tasks()[id] }),
    {
        let ghost s0 = self.tree_internal;
        let ghost mv = opt_str_view(msg);
        match self.tree_internal.tasks_internal.remove(&id) {
            Some(mut task) => {
                assert(s0.tasks_internal@.contains_key(id));
                task.hide_errors = msg;
                if !self.tree_internal.force_flush {
                    refresh_queues(&mut self.tree_internal.event_queues, &task);
                }
                self.tree_internal.tasks_internal.insert(id, task);
                proof {
                    assert(self.tree_internal.tasks_internal@ =~= s0.tasks_internal@.insert(id, self.tree_internal.tasks_internal@[id]));
                    lemma_replace_task(s0, self.tree_internal, id);
                    assert(self.tree_internal.tasks_internal@[id]@ == TaskView { hide_errors: mv, ..s0.tasks()[id] });
                }
            },
            None => {
                assert(self.tree_internal.tasks_internal@ =~= s0.tasks_internal@);
            },
        }
    }

    /// Sets whether errors of task `id` carry its inherited data too.
    pub fn attach_transitive_data_to_errors_for_task(&mut self, id: UniqID, val: bool)
        requires
            old(self).wf(),
        ensures
            final(self).wf(),
            final(self).changed_task(old(self), id, TaskView { attach_transitive_data_to_errors: val, ..old(self).tasks()[id] }),
    {
        let ghost s0 = self.tree_internal;
        match self.tree_internal.tasks_internal.remove(&id) {
            Some(mut task) => {
                assert(s0.tasks_internal@.contains_key(id));
                task.attach_transitive_data_to_errors = val;
                if !self.tree_internal.force_flush {
                    refresh_queues(&mut self.tree_internal.event_queues, &task);
                }
                self.tree_internal.tasks_internal.insert(id, task);
                proof {
                    assert(self.tree_internal.tasks_internal@ =~= s0.tasks_internal@.insert(id, self.tree_internal.tasks_internal@[id]));
                    lemma_replace_task(s0, self.tree_internal, id);
                }
            },
            None => {
                assert(self.tree_internal.tasks_internal@ =~= s0.tasks_internal@);
            },
        }
    }

    /// Records that `done` of `total` items of task `id` are finished and
    /// emits a progress event.
    pub fn task_progress(&mut self, id: UniqID, done: i64, total: i64)
        requires
            old(self).wf(),
        ensures
            final(self).wf(),
            final(self).tree_internal.same_settings(&old(self).tree_internal),
            final(self).tree_internal.next_id == old(self).tree_internal.next_id,
            old(self).tasks().contains_key(id) ==> {
                let t = TaskView { progress: Some((done, total)), ..old(self).tasks()[id] };
                &&& final(self).model() == old(self).tree_internal.with_task(id, t)
                &&& final(self).queues() == push_all(live_queues(old(self).queues(), old(self).tree_internal.force_flush, t),
                    TaskEventView::Progress(t))
            },
            !old(self).tasks().contains_key(id) ==> final(self).model() == old(self).model()
                && final(self).queues() == old(self).queues(),
    {
        let ghost s0 = self.tree_internal;
        match self.tree_internal.tasks_internal.remove(&id) {
            Some(mut task) => {
                assert(s0.tasks_internal@.contains_key(id));
                assert(task.wf());
                task.progress = Some((done, total));
                let ev = TaskEvent::Progress(Arc::new(task.copy()));
                if !self.tree_internal.force_flush {
                    refresh_queues(&mut self.tree_internal.event_queues, &task);
                }
                self.tree_internal.tasks_internal.insert(id, task);
                proof {
                    assert(self.tree_internal.tasks_internal@ =~= s0.tasks_internal@.insert(id, self.tree_internal.tasks_internal@[id]));
                    lemma_replace_task(s0, self.tree_internal, id);
                }
                push_to_all(&mut self.tree_internal.event_queues, &ev);
            },
            None => {
                assert(self.tree_internal.tasks_internal@ =~= s0.tasks_internal@);
            },
        }
    }

    /// The value that task `id` sees under `key`: its inherited data first,
    /// then its own; `None` when there is no such task or value.
    pub fn get_data(&self, id: UniqID, key: &str) -> (r: Option<DataValue>)
        ensures
            opt_value_view(r) == (if self.tasks().contains_key(id) {
                match all_data_lookup(self.tasks()[id].data, self.tasks()[id].data_transitive, key@) {
                    Some(e) => Some(e.0),
                    None => None,
                }
            } else {
                None
            }),
    {
        match self.tree_internal.tasks_internal.get(&id) {
            Some(t) => match t.data_transitive.get(key) {
                Some(e) => Some(e.0.copy()),
                None => match t.data.get(key) {
                    Some(e) => Some(e.0.copy()),
                    None => None,
                },
            },
            None => None,
        }
    }

    /// A copy of task `id`.
    pub fn get_cloned_task(&self, id: UniqID) -> (r: Option<TaskInternal>)
        requires
            self.wf(),
        ensures
            match r {
                Some(t) => self.tasks().contains_key(id) && t@ == self.tasks()[id] && t.wf(),
                None => !self.tasks().contains_key(id),
            },
    {
        match self.tree_internal.get_task(id) {
            Ok(t) => {
                assert(self.tree_internal.tasks_internal@[id].wf());
                Some(t.copy())
            },
            Err(_) => None,
        }
    }

    /// Sets whether queued events keep their task as it was when they were
    /// emitted (`true`) or show it as it is when the queue is read.
    pub fn set_force_flush(&mut self, val: bool)
        ensures
            final(self).tree_internal.force_flush == val,
            final(self).model() == old(self).model(),
            final(self).queues() == old(self).queues(),
            final(self).wf() == old(self).wf(),
            final(self).tree_internal.next_id == old(self).tree_internal.next_id,
            final(self).tree_internal.data_transitive@ == old(self).tree_internal.data_transitive@,
            opt_str_view(final(self).tree_internal.hide_errors_default_msg) == opt_str_view(old(self).tree_internal.hide_errors_default_msg),
            final(self).tree_internal.attach_transitive_data_to_errors_default == old(self).tree_internal.attach_transitive_data_to_errors_default,
    {
        self.tree_internal.force_flush = val;
    }

    /// Sets the message that reporters print in place of errors, for tasks
    /// created from now on.
    pub fn hide_errors_default_msg(&mut self, msg: Option<String>)
        ensures
            opt_str_view(final(self).tree_internal.hide_errors_default_msg) == opt_str_view(msg),
            final(self).model() == old(self).model(),
            final(self).queues() == old(self).queues(),
            final(self).wf() == old(self).wf(),
            final(self).tree_internal.next_id == old(self).tree_internal.next_id,
            final(self).tree_internal.data_transitive@ == old(self).tree_internal.data_transitive@,
            final(self).tree_internal.attach_transitive_data_to_errors_default
                == old(self).tree_internal.attach_transitive_data_to_errors_default,
    {
        self.tree_internal.hide_errors_default_msg = msg;
    }

    /// Sets whether errors of tasks created from now on carry inherited data.
    pub fn attach_transitive_data_to_errors_default(&mut self, val: bool)
        ensures
            final(self).tree_internal.attach_transitive_data_to_errors_default == val,
            final(self).model() == old(self).model(),
            final(self).queues() == old(self).queues(),
            final(self).wf() == old(self).wf(),
            final(self).tree_internal.next_id == old(self).tree_internal.next_id,
            final(self).tree_internal.data_transitive@ == old(self).tree_internal.data_transitive@,
            opt_str_view(final(self).tree_internal.hide_errors_default_msg)
                == opt_str_view(old(self).tree_internal.hide_errors_default_msg),
    {
        self.tree_internal.attach_transitive_data_to_errors_default = val;
    }

    /// Sets data `key` (a tagged name) that every task created from now on
    /// inherits.
    pub fn add_data_transitive(&mut self, key: &str, value: DataValue)
        requires
            old(self).wf(),
        ensures
            final(self).wf(),
            final(self).tree_internal.data_transitive@ == insert_sorted_v(old(self).tree_internal.data_transitive@,
                name_part(key@), (value@, tag_list(key@))),
            final(self).model() == old(self).model(),
            final(self).queues() == old(self).queues(),
            final(self).tree_internal.next_id == old(self).tree_internal.next_id,
            opt_str_view(final(self).tree_internal.hide_errors_default_msg)
                == opt_str_view(old(self).tree_internal.hide_errors_default_msg),
            final(self).tree_internal.attach_transitive_data_to_errors_default
                == old(self).tree_internal.attach_transitive_data_to_errors_default,
    {
        self.tree_internal.data_transitive.add(key, value);
    }
}

} // verus!

verus! {

/// Cascading removal keeps the links of the tree consistent.
pub proof fn law_cascade_keeps_wf(m: TreeModel, id: UniqID)
    requires
        model_wf(m),
    ensures
        model_wf(cascade(m, id)),
    decreases id,
{
    if removable(m, id) {
        lemma_detach_wf(m, id);
        if m.parents.contains_key(id) && parent_in(m, id) < id {
            law_cascade_keeps_wf(detach(m, id), parent_in(m, id));
        }
    }
}

/// Cascading removal only removes finished tasks, and leaves every other
/// task as it was.
pub proof fn law_cascade_removes_only_finished(m: TreeModel, id: UniqID, k: UniqID)
    ensures
        cascade(m, id).tasks.contains_key(k) ==> m.tasks.contains_key(k) && cascade(m, id).tasks[k] == m.tasks[k],
        m.tasks.contains_key(k) && !cascade(m, id).tasks.contains_key(k) ==> m.tasks[k].status is Finished,
    decreases id,
{
    if removable(m, id) {
        let m2 = detach(m, id);
        if m.parents.contains_key(id) && parent_in(m, id) < id {
            law_cascade_removes_only_finished(m2, parent_in(m, id), k);
        }
    }
}

/// A finished task without children leaves the tree when it is marked done.
pub proof fn law_cascade_removes_removable(m: TreeModel, id: UniqID)
    requires
        removable(m, id),
    ensures
        !cascade(m, id).tasks.contains_key(id),
{
    let m2 = detach(m, id);
    if m.parents.contains_key(id) && parent_in(m, id) < id {
        law_cascade_removes_only_finished(m2, parent_in(m, id), id);
    }
}

/// A task that still has children stays in the tree, and nothing else
/// changes.
pub proof fn law_cascade_keeps_parents_of_live_children(m: TreeModel, id: UniqID)
    requires
        m.children.contains_key(id),
        !m.children[id].is_empty(),
    ensures
        cascade(m, id) == m,
{
}

/// Once a removable task has left, its parent leaves too exactly when it
/// is finished and has no children left.
pub proof fn law_cascade_continues_to_parent(m: TreeModel, id: UniqID)
    requires
        model_wf(m),
        removable(m, id),
        m.parents.contains_key(id),
    ensures
        cascade(m, id) == cascade(detach(m, id), parent_in(m, id)),
{
}

/// A task's full name is its parent's full name, `:`, and its own name.
pub proof fn law_full_name_extends_parent(m: TreeModel, c: UniqID)
    requires
        model_wf(m),
        m.parents.contains_key(c),
    ensures
        full_name_of(m.tasks[c]) == full_name_of(m.tasks[parent_in(m, c)]) + seq![':'] + m.tasks[c].name,
{
    let p = m.tasks[parent_in(m, c)];
    let t = m.tasks[c];
    assert(t.parent_names == p.parent_names.push(p.name));
    assert(t.parent_names.drop_last() =~= p.parent_names);
    assert(joined_prefix(t.parent_names) == joined_prefix(p.parent_names) + p.name + seq![':']);
    assert(full_name_of(t) =~= full_name_of(p) + seq![':'] + t.name);
}

/// A new task inherits data: under each key, the value its parent passes
/// down, else the value the tree passes down to every task.
pub proof fn law_created_task_inherits(tree_data: DataView, parent_data: DataView, k: Seq<char>)
    requires
        crate::sorted::keys_sorted_v(tree_data),
        crate::sorted::keys_sorted_v(parent_data),
    ensures
        crate::sorted::lookup_v(merge_v(tree_data, parent_data), k) == (match crate::sorted::lookup_v(parent_data, k) {
            Some(e) => Some(e),
            None => crate::sorted::lookup_v(tree_data, k),
        }),
{
    crate::sorted::lemma_merge_v_law(tree_data, parent_data, k);
}

/// Reading back data just written: the written value, unless inherited
/// data under the same key takes precedence.
pub proof fn law_get_after_add(t: TaskView, key: Seq<char>, v: DataValueView)
    requires
        crate::sorted::keys_sorted_v(t.data),
    ensures
        all_data_lookup(insert_sorted_v(t.data, name_part(key), (v, tag_list(key))), t.data_transitive, name_part(key))
            == (match crate::sorted::lookup_v(t.data_transitive, name_part(key)) {
                Some(e) => Some(e),
                None => Some((v, tag_list(key))),
            }),
{
    crate::sorted::lemma_insert_sorted_v_law(t.data, name_part(key), (v, tag_list(key)));
}

/// A task created under an existing parent sees, under every key, the
/// inherited value its parent passes down when the parent has one, and the
/// tree-wide inherited value otherwise; a task created without a parent
/// inherits exactly the tree-wide data.
pub proof fn law_created_task_inherits_from_parent(tree: TaskTreeInternal, id: UniqID, name: Seq<char>,
    parent: Option<UniqID>, started: u128, k: Seq<char>)
    requires
        tree.wf(),
    ensures
        tree.has_parent(parent) ==> crate::sorted::lookup_v(tree.created_task(id, name, parent, started).data_transitive, k)
            == (match crate::sorted::lookup_v(tree.tasks()[parent->0].data_transitive, k) {
                Some(e) => Some(e),
                None => crate::sorted::lookup_v(tree.data_transitive@, k),
            }),
        !tree.has_parent(parent) ==> crate::sorted::lookup_v(tree.created_task(id, name, parent, started).data_transitive, k)
            == crate::sorted::lookup_v(tree.data_transitive@, k),
{
    if tree.has_parent(parent) {
        let p = parent->0;
        assert(tree.tasks_internal@.contains_key(p));
        let pt = tree.tasks_internal@[p];
        assert(pt.wf());
        crate::data::lemma_data_view_sorted(&pt.data_transitive);
        crate::data::lemma_data_view_sorted(&tree.data_transitive);
        assert(tree.tasks()[p].data_transitive == pt.data_transitive@);
        crate::sorted::lemma_merge_v_law(tree.data_transitive@, pt.data_transitive@, k);
    }
}

} // verus!
