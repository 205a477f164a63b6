//! What happens when the body of a spawned task returns: a failure gets
//! the task's description as context, is formatted, and the task is
//! marked done with the formatted message; a success marks it done.

use vstd::prelude::*;
use crate::data::{value_text, DataEntry, DataView};
use crate::task_tree::{live_queues, TaskResultView, all_data_of, cascade, finished_view, push_all, result_of, TaskEventView, TaskTree, TaskView, UniqID};

verus! {

/// `anyhow::Error`, carried through as an opaque value.
#[verifier::external_type_specification]
#[verifier::external_body]
pub struct ExError(anyhow::Error);

/// Turns an error into the message stored in the failed task. Users
/// implement it to control how errors read in reports.
pub trait ErrorFormatter: Send + Sync {
    fn format_error(&self, err: &anyhow::Error) -> String;
}

/// One `\n  key: value` line per entry.
pub open spec fn context_lines(d: DataView) -> Seq<char>
    decreases d.len(),
{
    if d.len() == 0 {
        Seq::empty()
    } else {
        context_lines(d.drop_last()) + "\n  "@ + d.last().0 + ": "@ + value_text(d.last().1.0)
    }
}

/// The context added to a failure of a task: `[Task] name`, the task's
/// data (with its inherited data when it attaches it to errors), one entry
/// per line, and a final newline; `[Task]` alone when the task is gone.
pub open spec fn error_context_text(t: Option<TaskView>) -> Seq<char> {
    match t {
        Some(t) => "[Task] "@ + t.name + context_lines(
            if t.attach_transitive_data_to_errors { all_data_of(t) } else { t.data },
        ) + "\n"@,
        None => "[Task]"@,
    }
}

fn push_context_lines(out: &mut String, entries: &Vec<(String, DataEntry)>)
    ensures
        final(out)@ == old(out)@ + context_lines(crate::sorted::view_entries(entries@, |e: DataEntry| crate::data::entry_view(e))),
{
    let ghost d = crate::sorted::view_entries(entries@, |e: DataEntry| crate::data::entry_view(e));
    let ghost start = out@;
    let n = entries.len();
    let mut i: usize = 0;
    proof {
        assert(d.take(0) =~= Seq::<(Seq<char>, crate::data::DataEntryView)>::empty());
    }
    while i < n
        invariant
            n == entries@.len(),
            i <= n,
            d == crate::sorted::view_entries(entries@, |e: DataEntry| crate::data::entry_view(e)),
            out@ == start + context_lines(d.take(i as int)),
        decreases n - i,
    {
        proof {
            assert(d.take(i + 1).drop_last() =~= d.take(i as int));
            assert(d.take(i + 1).last() == d[i as int]);
        }
        out.append("\n  ");
        out.append(entries[i].0.as_str());
        out.append(": ");
        let v = entries[i].1.0.to_display_string();
        out.append(v.as_str());
        i = i + 1;
    }
    proof {
        assert(d.take(n as int) =~= d);
    }
}

/// The context added to a failure of task `id`.
pub fn error_context(tree: &TaskTree, id: UniqID) -> (r: String)
    requires
        tree.wf(),
    ensures
        r@ == error_context_text(if tree.tasks().contains_key(id) { Some(tree.tasks()[id]) } else { None }),
{
    let mut desc = String::from_str("[Task]");
    match tree.get_cloned_task(id) {
        Some(task) => {
            desc.append(" ");
            desc.append(task.name.as_str());
            let ghost head = desc@;
            if task.attach_transitive_data_to_errors {
                let entries = task.all_data();
                push_context_lines(&mut desc, &entries);
            } else {
                push_context_lines(&mut desc, &task.data.map);
            }
            desc.append("\n");
            proof {
                reveal_strlit("[Task]");
                reveal_strlit("[Task] ");
                reveal_strlit(" ");
                assert(head =~= "[Task] "@ + task@.name);
            }
        },
        None => {
            proof {
                reveal_strlit("[Task]");
            }
        },
    }
    desc
}

/// What `anyhow::Error::context` gives for an error and a context text.
pub uninterp spec fn contexted(e: anyhow::Error, desc: Seq<char>) -> anyhow::Error;

/// The `Debug` text (`{:?}`) of an error.
pub uninterp spec fn debug_of(e: anyhow::Error) -> Seq<char>;

/// The context text added to a failure of task `id` of the tree.
pub open spec fn task_context_text(tree: TaskTree, id: UniqID) -> Seq<char> {
    error_context_text(if tree.tasks().contains_key(id) { Some(tree.tasks()[id]) } else { None })
}

/// `anyhow::Error::context`: the error wrapped with `desc` as its outer
/// message. The wrapped error is named; what it holds is anyhow's.
#[verifier::external_body]
fn add_context(e: anyhow::Error, desc: String) -> (r: anyhow::Error)
    ensures
        r == contexted(e, desc@),
{
    e.context(desc)
}

/// The error's `Debug` text (`{:?}`), which anyhow writes as the outer
/// message followed by its causes; the text is named.
#[verifier::external_body]
fn debug_text(e: &anyhow::Error) -> (r: String)
    ensures
        r@ == debug_of(*e),
{
    format!("{e:?}")
}

/// The failure of task `id` wrapped in the task's context.
pub fn with_task_context(tree: &TaskTree, id: UniqID, e: anyhow::Error) -> (r: anyhow::Error)
    requires
        tree.wf(),
    ensures
        r == contexted(e, task_context_text(*tree, id)),
{
    let desc = error_context(tree, id);
    add_context(e, desc)
}

/// The message stored for a failure: the formatter's, or the error's
/// `Debug` text without one. What a formatter returns is its own.
pub fn error_message<F: ErrorFormatter + ?Sized>(formatter: Option<&F>, err: &anyhow::Error) -> (r: String)
    ensures
        formatter is None ==> r@ == debug_of(*err),
        formatter matches Some(f) ==> call_ensures(F::format_error, (f, err), r),
{
    match formatter {
        Some(f) => f.format_error(err),
        None => debug_text(err),
    }
}

/// Ends task `id` with the outcome of its body: a success marks it done;
/// a failure gets the task's context, is formatted, and marks it failed
/// with the message. The outcome is handed back, the failure with its
/// context.
pub fn post_spawn<T, F: ErrorFormatter + ?Sized>(
    tree: &mut TaskTree,
    id: UniqID,
    result: Result<T, anyhow::Error>,
    formatter: Option<&F>,
) -> (r: Result<T, anyhow::Error>)
    requires
        old(tree).wf(),
    ensures
        final(tree).wf(),
        r is Ok <==> result is Ok,
        result matches Ok(v) ==> r matches Ok(w) && w == v,
        final(tree).tree_internal.next_id == old(tree).tree_internal.next_id,
        final(tree).tree_internal.same_settings(&old(tree).tree_internal),
        !old(tree).tasks().contains_key(id) ==> final(tree).model() == old(tree).model()
            && final(tree).queues() == old(tree).queues(),
        result matches Err(e0) ==> r matches Err(e2) && e2 == contexted(e0, task_context_text(*old(tree), id)),
        old(tree).tasks().contains_key(id) ==> exists|em: Option<String>, at: u128| {
            &&& (em is None <==> result is Ok)
            &&& formatter is None ==> (result matches Err(e0) ==> result_of(em)
                == TaskResultView::Failure(debug_of(contexted(e0, task_context_text(*old(tree), id)))))
            &&& formatter matches Some(f) ==> (result matches Err(e0) ==> em matches Some(m)
                && call_ensures(F::format_error, (f, &contexted(e0, task_context_text(*old(tree), id))), m))
            &&& final(tree).queues() == push_all(
                live_queues(old(tree).queues(), old(tree).tree_internal.force_flush,
                    finished_view(old(tree).tasks()[id], result_of(em), at)),
                TaskEventView::End(#[trigger] finished_view(old(tree).tasks()[id], result_of(em), at)))
            &&& final(tree).model() == cascade(old(tree).tree_internal.with_task(id,
                finished_view(old(tree).tasks()[id], result_of(em), at)), id)
        },
{
    match result {
        Ok(v) => {
            tree.mark_done(id, None);
            Ok(v)
        },
        Err(e) => {
            let e = with_task_context(tree, id, e);
            let msg = error_message(formatter, &e);
            tree.mark_done(id, Some(msg));
            Err(e)
        },
    }
}

} // verus!
