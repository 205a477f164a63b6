//! Chrome trace records: each finished task becomes one complete (`X`)
//! event with its start, duration, level and arguments. The text of the
//! file's header and footer is made here; the events, which hold floating
//! point times, are serialised by the caller from the records.

use vstd::prelude::*;
use crate::data::{DataValue, DataValueView, FloatValue};
use crate::sorted::{insert_sorted_v, merge_v, sorted_insert, str_views, view_entries, lemma_insert_view};
use crate::strs::{joined, join_strs};
use crate::task_tree::{events_view, TaskEvent, TaskEventView, TaskInternal, TaskResult, TaskResultView, TaskStatus, TaskStatusView, TaskView};
use crate::time::Timestamp;

verus! {

/// A JSON value of a trace argument.
pub enum ArgValue {
    Str(String),
    Int(i64),
    Float(FloatValue),
    Null,
    List(Vec<String>),
}

/// An argument value by views.
pub enum ArgView {
    Str(Seq<char>),
    Int(int),
    Float(u64, Seq<char>),
    Null,
    List(Seq<Seq<char>>),
}

impl ArgValue {
    pub open spec fn view(&self) -> ArgView {
        match self {
            ArgValue::Str(s) => ArgView::Str(s@),
            ArgValue::Int(i) => ArgView::Int(*i as int),
            ArgValue::Float(f) => ArgView::Float(f.bits, f.text@),
            ArgValue::Null => ArgView::Null,
            ArgValue::List(v) => ArgView::List(str_views(v@)),
        }
    }
}

pub open spec fn arg_view(a: ArgValue) -> ArgView {
    a@
}

/// The argument a data value becomes.
pub open spec fn arg_of(v: DataValueView) -> ArgView {
    match v {
        DataValueView::String(s) => ArgView::Str(s),
        DataValueView::Int(i) => ArgView::Int(i),
        DataValueView::Float(b, t) => ArgView::Float(b, t),
        DataValueView::NoValue => ArgView::Null,
    }
}

fn data_arg(v: &DataValue) -> (r: ArgValue)
    ensures
        r@ == arg_of(v@),
{
    match v {
        DataValue::String(s) => ArgValue::Str(s.clone()),
        DataValue::Int(i) => ArgValue::Int(*i),
        DataValue::Float(f) => ArgValue::Float(FloatValue { bits: f.bits, text: f.text.clone() }),
        DataValue::NoValue => ArgValue::Null,
    }
}

/// The arguments of a task's trace event, in key order: its error, the
/// path of its parents joined by ` > `, its own data when asked for, and
/// its tags when asked for and there are some; a later key replaces an
/// earlier equal one.
pub open spec fn trace_args(t: TaskView, include_args: bool, include_tags: bool) -> Seq<(Seq<char>, ArgView)> {
    let m1 = match t.status {
        TaskStatusView::Finished(TaskResultView::Failure(msg), _) => insert_sorted_v(Seq::empty(), "error"@, ArgView::Str(msg)),
        _ => Seq::empty(),
    };
    let m2 = if t.parent_names.len() > 0 {
        insert_sorted_v(m1, "parent"@, ArgView::Str(joined(t.parent_names, " > "@)))
    } else {
        m1
    };
    let m3 = if include_args {
        merge_v(m2, t.data.map_values(|e: (Seq<char>, crate::data::DataEntryView)| (e.0, arg_of(e.1.0))))
    } else {
        m2
    };
    if include_tags && t.tags.len() > 0 {
        insert_sorted_v(m3, "tags"@, ArgView::List(t.tags))
    } else {
        m3
    }
}

/// The level tag of a task in the trace: the first of its tags that is a
/// level, else `l1`.
pub open spec fn first_level_tag(tags: Seq<Seq<char>>) -> Seq<char>
    decreases tags.len(),
{
    if tags.len() == 0 {
        "l1"@
    } else if tags[0] == "l0"@ || tags[0] == "l1"@ || tags[0] == "l2"@ || tags[0] == "l3"@ {
        tags[0]
    } else {
        first_level_tag(tags.drop_first())
    }
}

/// The category of a task's trace event.
pub fn extract_level_tag(task: &TaskInternal) -> (r: &'static str)
    ensures
        r@ == first_level_tag(task@.tags),
{
    let n = task.tags.len();
    let ghost ts = task@.tags;
    let mut i: usize = 0;
    proof {
        reveal_strlit("l0");
        reveal_strlit("l1");
        reveal_strlit("l2");
        reveal_strlit("l3");
        assert(ts.skip(0) =~= ts);
    }
    while i < n
        invariant
            n == ts.len(),
            ts == task@.tags,
            i <= n,
            first_level_tag(ts.skip(i as int)) == first_level_tag(ts),
        decreases n - i,
    {
        let t = task.tags[i].as_str();
        proof {
            assert(ts.skip(i as int)[0] == t@);
            assert(ts.skip(i as int).drop_first() =~= ts.skip(i + 1));
        }
        if crate::strs::str_eq(t, "l0") {
            return "l0";
        }
        if crate::strs::str_eq(t, "l1") {
            return "l1";
        }
        if crate::strs::str_eq(t, "l2") {
            return "l2";
        }
        if crate::strs::str_eq(t, "l3") {
            return "l3";
        }
        i = i + 1;
    }
    proof {
        assert(ts.skip(n as int) =~= Seq::<Seq<char>>::empty());
    }
    "l1"
}

fn insert_arg(map: &mut Vec<(String, ArgValue)>, key: String, val: ArgValue)
    ensures
        view_entries(final(map)@, |a: ArgValue| arg_view(a)) == insert_sorted_v(view_entries(old(map)@, |a: ArgValue| arg_view(a)), key@, val@),
{
    let ghost k = key;
    let ghost v = val;
    sorted_insert(map, key, val);
    proof {
        lemma_insert_view(old(map)@, k, v, |a: ArgValue| arg_view(a));
    }
}

/// The arguments of a task's trace event, or `None` when there are none.
pub fn build_args(task: &TaskInternal, include_args: bool, include_tags: bool) -> (r: Option<Vec<(String, ArgValue)>>)
    ensures
        match r {
            Some(v) => view_entries(v@, |a: ArgValue| arg_view(a)) == trace_args(task@, include_args, include_tags)
                && trace_args(task@, include_args, include_tags).len() > 0,
            None => trace_args(task@, include_args, include_tags).len() == 0,
        },
{
    let ghost f = |a: ArgValue| arg_view(a);
    let ghost t = task@;
    let mut map: Vec<(String, ArgValue)> = Vec::new();
    proof {
        assert(view_entries(map@, f) =~= Seq::<(Seq<char>, ArgView)>::empty());
        reveal_strlit("error");
        reveal_strlit("parent");
        reveal_strlit("tags");
    }
    match &task.status {
        TaskStatus::Finished(TaskResult::Failure(msg), _) => {
            insert_arg(&mut map, String::from_str("error"), ArgValue::Str(msg.clone()));
        },
        _ => {},
    }
    let ghost m1 = view_entries(map@, f);
    if task.parent_names.len() > 0 {
        let path = join_strs(&task.parent_names, " > ");
        insert_arg(&mut map, String::from_str("parent"), ArgValue::Str(path));
    }
    let ghost m2 = view_entries(map@, f);
    let ghost dv = t.data.map_values(|e: (Seq<char>, crate::data::DataEntryView)| (e.0, arg_of(e.1.0)));
    if include_args {
        let n = task.data.map.len();
        let mut i: usize = 0;
        proof {
            assert(dv.take(0) =~= Seq::<(Seq<char>, ArgView)>::empty());
        }
        while i < n
            invariant
                n == task.data.map@.len(),
                t == task@,
                i <= n,
                dv == t.data.map_values(|e: (Seq<char>, crate::data::DataEntryView)| (e.0, arg_of(e.1.0))),
                view_entries(map@, |a: ArgValue| arg_view(a)) == merge_v(m2, dv.take(i as int)),
            decreases n - i,
        {
            proof {
                assert(dv.take(i + 1).drop_last() =~= dv.take(i as int));
                assert(dv.take(i + 1).last() == dv[i as int]);
                assert(dv[i as int] == (task.data.map@[i as int].0@, arg_of(task.data.map@[i as int].1.0@)));
            }
            let key = task.data.map[i].0.clone();
            let val = data_arg(&task.data.map[i].1.0);
            insert_arg(&mut map, key, val);
            i = i + 1;
        }
        proof {
            assert(dv.take(n as int) =~= dv);
        }
    }
    let ghost m3 = view_entries(map@, f);
    if include_tags && task.tags.len() > 0 {
        let tags = crate::data::clone_strings(&task.tags);
        insert_arg(&mut map, String::from_str("tags"), ArgValue::List(tags));
    }
    proof {
        assert(view_entries(map@, f) == trace_args(t, include_args, include_tags));
    }
    if map.len() == 0 {
        None
    } else {
        Some(map)
    }
}

/// Nanoseconds from `epoch` to `time`; zero when `time` is earlier.
pub open spec fn offset_ns(time: u128, epoch: u128) -> u128 {
    if epoch <= time { (time - epoch) as u128 } else { 0 }
}

fn offset_of(time: Timestamp, epoch: Timestamp) -> (r: u128)
    ensures
        r == offset_ns(time.nanos, epoch.nanos),
{
    match time.duration_since(&epoch) {
        Some(d) => d,
        None => 0,
    }
}

/// A complete trace event of a task, with its times as nanoseconds from
/// the trace's start; the serialised event shows them in microseconds.
pub struct TraceRecord {
    pub name: String,
    pub cat: String,
    pub start_offset_ns: u128,
    /// The end, for a finished task.
    pub end_offset_ns: Option<u128>,
    pub tid: u64,
    pub args: Option<Vec<(String, ArgValue)>>,
}

/// `r` is the trace event of task `t` in a trace started at `epoch`.
pub open spec fn record_of(r: TraceRecord, t: TaskView, epoch: u128, include_args: bool, include_tags: bool) -> bool {
    &&& r.name@ == t.name
    &&& r.cat@ == first_level_tag(t.tags)
    &&& r.start_offset_ns == offset_ns(t.started_at, epoch)
    &&& r.end_offset_ns == (match t.status {
        TaskStatusView::Finished(_, at) => Some(offset_ns(at, epoch)),
        TaskStatusView::Running => None,
    })
    &&& r.tid == t.id
    &&& match r.args {
        Some(v) => view_entries(v@, |a: ArgValue| arg_view(a)) == trace_args(t, include_args, include_tags)
            && trace_args(t, include_args, include_tags).len() > 0,
        None => trace_args(t, include_args, include_tags).len() == 0,
    }
}

/// The trace event of a task.
pub fn task_to_trace_event(task: &TaskInternal, epoch: Timestamp, include_args: bool, include_tags: bool) -> (r: TraceRecord)
    ensures
        record_of(r, task@, epoch.nanos, include_args, include_tags),
{
    let end_offset_ns = match &task.status {
        TaskStatus::Finished(_, at) => Some(offset_of(*at, epoch)),
        TaskStatus::Running => None,
    };
    TraceRecord {
        name: task.name.clone(),
        cat: String::from_str(extract_level_tag(task)),
        start_offset_ns: offset_of(task.started_at, epoch),
        end_offset_ns,
        tid: task.id,
        args: build_args(task, include_args, include_tags),
    }
}

/// The tasks of the end events, in order.
pub open spec fn ended_tasks(evs: Seq<TaskEventView>) -> Seq<TaskView>
    decreases evs.len(),
{
    if evs.len() == 0 {
        Seq::empty()
    } else {
        let rest = ended_tasks(evs.drop_last());
        match evs.last() {
            TaskEventView::End(t) => rest.push(t),
            _ => rest,
        }
    }
}

/// The trace events of a batch of task events: one for each end event, in
/// order; starts and progress give none.
pub fn trace_records(events: &Vec<TaskEvent>, epoch: Timestamp, include_args: bool, include_tags: bool) -> (r: Vec<TraceRecord>)
    ensures
        r@.len() == ended_tasks(events_view(events@)).len(),
        forall|i: int| 0 <= i < r@.len() ==> record_of(#[trigger] r@[i], ended_tasks(events_view(events@))[i], epoch.nanos, include_args, include_tags),
{
    let ghost evs = events_view(events@);
    let n = events.len();
    let mut r: Vec<TraceRecord> = Vec::new();
    let mut i: usize = 0;
    proof {
        assert(evs.take(0) =~= Seq::<TaskEventView>::empty());
    }
    while i < n
        invariant
            n == events@.len(),
            evs == events_view(events@),
            i <= n,
            r@.len() == ended_tasks(evs.take(i as int)).len(),
            forall|j: int| 0 <= j < r@.len() ==> record_of(#[trigger] r@[j], ended_tasks(evs.take(i as int))[j], epoch.nanos, include_args, include_tags),
        decreases n - i,
    {
        proof {
            assert(evs.take(i + 1).drop_last() =~= evs.take(i as int));
            assert(evs.take(i + 1).last() == events@[i as int]@);
        }
        match &events[i] {
            TaskEvent::End(t) => {
                let rec = task_to_trace_event(&**t, epoch, include_args, include_tags);
                r.push(rec);
            },
            _ => {},
        }
        i = i + 1;
    }
    proof {
        assert(evs.take(n as int) =~= evs);
    }
    r
}

/// A lowercase hexadecimal digit.
pub open spec fn hex_digit(d: int) -> char {
    if d < 10 { (('0' as int) + d) as char } else { (('a' as int) + d - 10) as char }
}

/// A character escaped inside a JSON string: quote, backslash and control
/// characters get backslash escapes, the rest stand for themselves.
pub open spec fn json_escape(c: char) -> Seq<char> {
    if c == '"' {
        seq!['\\', '"']
    } else if c == '\\' {
        seq!['\\', '\\']
    } else if c == '\u{8}' {
        seq!['\\', 'b']
    } else if c == '\t' {
        seq!['\\', 't']
    } else if c == '\n' {
        seq!['\\', 'n']
    } else if c == '\u{c}' {
        seq!['\\', 'f']
    } else if c == '\r' {
        seq!['\\', 'r']
    } else if (c as int) < 0x20 {
        seq!['\\', 'u', '0', '0', hex_digit((c as int) / 16), hex_digit((c as int) % 16)]
    } else {
        seq![c]
    }
}

/// The characters escaped one by one.
pub open spec fn json_escaped(s: Seq<char>) -> Seq<char>
    decreases s.len(),
{
    if s.len() == 0 {
        Seq::empty()
    } else {
        json_escaped(s.drop_last()) + json_escape(s.last())
    }
}

/// A string as a JSON string literal.
pub open spec fn json_quoted(s: Seq<char>) -> Seq<char> {
    seq!['"'] + json_escaped(s) + seq!['"']
}

/// `serde_json::to_string` of a string: the string as a JSON literal in
/// quotes, with the quote, the backslash and control characters escaped
/// (short forms for backspace, tab, newline, form feed and carriage return,
/// `u00xx` with lowercase hex digits for the others). Serialising a string
/// cannot fail; the error arm is never taken.
#[verifier::external_body]
fn json_string(s: &str) -> (r: String)
    ensures
        r@ == json_quoted(s@),
{
    match serde_json::to_string(s) {
        Ok(t) => t,
        Err(_) => String::new(),
    }
}

/// The opening of a trace file: the event list and the event that names
/// the process.
pub open spec fn header_text(process_name: Seq<char>) -> Seq<char> {
    "{\"traceEvents\":[\n"@
        + "{\"ph\":\"M\",\"name\":\"process_name\",\"cat\":\"\",\"ts\":0.0,\"pid\":1,\"tid\":0,\"args\":{\"name\":"@
        + json_quoted(process_name) + "}}"@
}

/// The closing of a trace file.
pub open spec fn footer_text() -> Seq<char> {
    "\n]}\n"@
}

/// Appends the opening of a trace file.
pub fn write_header(out: &mut String, process_name: &str)
    ensures
        final(out)@ == old(out)@ + header_text(process_name@),
{
    out.append("{\"traceEvents\":[\n");
    out.append("{\"ph\":\"M\",\"name\":\"process_name\",\"cat\":\"\",\"ts\":0.0,\"pid\":1,\"tid\":0,\"args\":{\"name\":");
    let q = json_string(process_name);
    out.append(q.as_str());
    out.append("}}");
}

/// Appends the closing of a trace file.
pub fn write_footer(out: &mut String)
    ensures
        final(out)@ == old(out)@ + footer_text(),
{
    out.append("\n]}\n");
}

/// The settings of a trace reporter.
pub struct Builder<W> {
    pub process_name: String,
    pub include_args: bool,
    pub include_tags: bool,
    pub writer: Option<W>,
}

impl<W> Builder<W> {
    /// Process `ll`, arguments and tags included, no writer yet.
    pub fn new() -> (r: Builder<W>)
        ensures
            r.process_name@ == "ll"@,
            r.include_args,
            r.include_tags,
            r.writer is None,
    {
        Builder { process_name: String::from_str("ll"), include_args: true, include_tags: true, writer: None }
    }

    /// Writes the trace to `w`.
    pub fn writer(self, w: W) -> (r: Builder<W>)
        ensures
            r.writer == Some(w),
            r.process_name == self.process_name,
            r.include_args == self.include_args,
            r.include_tags == self.include_tags,
    {
        Builder { writer: Some(w), ..self }
    }

    /// Names the process in the trace.
    pub fn process_name(self, name: &str) -> (r: Builder<W>)
        ensures
            r.process_name@ == name@,
            r.writer == self.writer,
            r.include_args == self.include_args,
            r.include_tags == self.include_tags,
    {
        Builder { process_name: String::from_str(name), ..self }
    }

    /// Whether events carry the tasks' data.
    pub fn include_args(self, val: bool) -> (r: Builder<W>)
        ensures
            r.include_args == val,
            r.writer == self.writer,
            r.process_name == self.process_name,
            r.include_tags == self.include_tags,
    {
        Builder { include_args: val, ..self }
    }

    /// Whether events carry the tasks' tags.
    pub fn include_tags(self, val: bool) -> (r: Builder<W>)
        ensures
            r.include_tags == val,
            r.writer == self.writer,
            r.process_name == self.process_name,
            r.include_args == self.include_args,
    {
        Builder { include_tags: val, ..self }
    }
}

impl<W> Default for Builder<W> {
    fn default() -> (r: Builder<W>)
        ensures
            r.process_name@ == "ll"@,
            r.include_args,
            r.include_tags,
            r.writer is None,
    {
        Builder::new()
    }
}

/// A trace builder with the default settings.
pub fn builder<W>() -> (r: Builder<W>)
    ensures
        r.process_name@ == "ll"@,
        r.include_args,
        r.include_tags,
        r.writer is None,
{
    Builder::new()
}

/// A trace being written: its destination, its start, and whether it has
/// been closed.
pub struct WriterState<W> {
    pub writer: W,
    pub epoch: Timestamp,
    pub finalized: bool,
}

impl<W> WriterState<W> {
    /// A trace started at `epoch`, with the header to write first.
    pub fn new(writer: W, process_name: &str, epoch: Timestamp) -> (r: (WriterState<W>, String))
        ensures
            r.0.writer == writer,
            r.0.epoch == epoch,
            !r.0.finalized,
            r.1@ == header_text(process_name@),
    {
        let mut header = String::new();
        write_header(&mut header, process_name);
        (WriterState { writer, epoch, finalized: false }, header)
    }

    /// The records to write for a batch of events; none once closed.
    pub fn records(&self, events: &Vec<TaskEvent>, include_args: bool, include_tags: bool) -> (r: Vec<TraceRecord>)
        ensures
            self.finalized ==> r@.len() == 0,
            !self.finalized ==> {
                &&& r@.len() == ended_tasks(events_view(events@)).len()
                &&& forall|i: int| 0 <= i < r@.len() ==> record_of(#[trigger] r@[i], ended_tasks(events_view(events@))[i], self.epoch.nanos, include_args, include_tags)
            },
    {
        if self.finalized {
            Vec::new()
        } else {
            trace_records(events, self.epoch, include_args, include_tags)
        }
    }

    /// Closes the trace: the footer to write the first time, nothing after.
    pub fn finalize(&mut self) -> (r: Option<String>)
        ensures
            final(self).finalized,
            final(self).epoch == old(self).epoch,
            final(self).writer == old(self).writer,
            match r {
                Some(t) => !old(self).finalized && t@ == footer_text(),
                None => old(self).finalized,
            },
    {
        if self.finalized {
            return None;
        }
        self.finalized = true;
        let mut t = String::new();
        write_footer(&mut t);
        Some(t)
    }
}

/// The value of a data entry.
pub open spec fn entry_value(e: crate::data::DataEntryView) -> DataValueView {
    e.0
}

/// Looking a key up in data whose values are turned into arguments gives
/// the argument of the value found there.
proof fn lemma_lookup_args(d: Seq<(Seq<char>, crate::data::DataEntryView)>, k: Seq<char>)
    ensures
        crate::sorted::lookup_v(d.map_values(|e: (Seq<char>, crate::data::DataEntryView)| (e.0, arg_of(e.1.0))), k)
            == (match crate::sorted::lookup_v(d, k) {
                Some(e) => Some(arg_of(e.0)),
                None => None,
            }),
        crate::sorted::keys_sorted_v(d) ==> crate::sorted::keys_sorted_v(
            d.map_values(|e: (Seq<char>, crate::data::DataEntryView)| (e.0, arg_of(e.1.0)))),
    decreases d.len(),
{
    let f = |e: (Seq<char>, crate::data::DataEntryView)| (e.0, arg_of(e.1.0));
    if d.len() > 0 {
        assert(d.map_values(f).drop_first() =~= d.drop_first().map_values(f));
        lemma_lookup_args(d.drop_first(), k);
    }
}

/// The arguments of a task's trace event, key by key: `tags` is the list of
/// its tags when tags are asked for and it has some; otherwise a key of its
/// own data, when data is asked for, gives that value; otherwise `parent`
/// is its parent path joined by ` > `, and `error` its error message when
/// it failed; no other key is present. In particular, with tags not asked
/// for, `tags` appears only when the task's own data holds it.
pub proof fn law_trace_args(t: TaskView, include_args: bool, include_tags: bool, k: Seq<char>)
    requires
        crate::sorted::keys_sorted_v(t.data),
    ensures
        crate::sorted::lookup_v(trace_args(t, include_args, include_tags), k) == (
            if include_tags && t.tags.len() > 0 && k == "tags"@ {
                Some(ArgView::List(t.tags))
            } else if include_args && crate::sorted::lookup_v(t.data, k) is Some {
                Some(arg_of(entry_value(crate::sorted::lookup_v(t.data, k)->0)))
            } else if k == "parent"@ && t.parent_names.len() > 0 {
                Some(ArgView::Str(joined(t.parent_names, " > "@)))
            } else if k == "error"@ && t.status matches TaskStatusView::Finished(TaskResultView::Failure(_), _) {
                Some(ArgView::Str(t.status->Finished_0->Failure_0))
            } else {
                None
            }
        ),
{
    reveal_strlit("tags");
    reveal_strlit("parent");
    reveal_strlit("error");
    let e: Seq<(Seq<char>, ArgView)> = Seq::empty();
    let m1 = match t.status {
        TaskStatusView::Finished(TaskResultView::Failure(msg), _) => insert_sorted_v(e, "error"@, ArgView::Str(msg)),
        _ => e,
    };
    let m2 = if t.parent_names.len() > 0 {
        insert_sorted_v(m1, "parent"@, ArgView::Str(joined(t.parent_names, " > "@)))
    } else {
        m1
    };
    let dv = t.data.map_values(|e: (Seq<char>, crate::data::DataEntryView)| (e.0, arg_of(e.1.0)));
    let m3 = if include_args { merge_v(m2, dv) } else { m2 };
    assert(crate::sorted::keys_sorted_v(e));
    match t.status {
        TaskStatusView::Finished(TaskResultView::Failure(msg), _) => {
            crate::sorted::lemma_insert_sorted_v_law(e, "error"@, ArgView::Str(msg));
        },
        _ => {},
    }
    if t.parent_names.len() > 0 {
        crate::sorted::lemma_insert_sorted_v_law(m1, "parent"@, ArgView::Str(joined(t.parent_names, " > "@)));
    }
    lemma_lookup_args(t.data, k);
    if include_args {
        crate::sorted::lemma_merge_v_law(m2, dv, k);
    }
    if include_tags && t.tags.len() > 0 {
        crate::sorted::lemma_merge_v_law(m2, dv, k);
        crate::sorted::lemma_insert_sorted_v_law(m3, "tags"@, ArgView::List(t.tags));
    }
    assert(trace_args(t, include_args, include_tags) == if include_tags && t.tags.len() > 0 {
        insert_sorted_v(m3, "tags"@, ArgView::List(t.tags))
    } else {
        m3
    });
}

} // verus!
