//! Text reporters: which events they report and what they write.
//!
//! `StdioReporter` decides, for each event, whether a line is printed and
//! where it goes; `StringReporter` collects the lines in memory;
//! `ConsoleReporter` builds the messages of the JavaScript console.

use vstd::prelude::*;
use crate::level::{level_of_tags, parse_level, Level};
use crate::sorted::str_contains;
use crate::strs::{joined, join_strs};
use crate::data::{value_text, DataEntry, DataView};
use crate::style::{ansi_stripped, strip_ansi};
use crate::task_tree::{events_view, full_name_of, TaskEvent, TaskEventView, TaskInternal, TaskResult, TaskResultView, TaskStatus, TaskStatusView, TaskTree, TaskView};
use crate::text::{is_dontprint, line_ok, make_string, DurationFormat, TaskReportType, TimestampFormat, DONTPRINT_TAG};

verus! {

/// Where a printed line goes.
#[derive(Clone, Copy, PartialEq, Eq, Structural)]
pub enum LineSink {
    Stdout,
    /// The live status display's buffer, which prints it above the frame.
    StatusBuffer,
    Stderr,
}

/// Logs task lines to stderr (or stdout).
pub struct StdioReporter {
    /// `None` means UTC.
    pub timestamp_format: Option<TimestampFormat>,
    pub use_stdout: bool,
    pub log_task_start: bool,
    pub max_log_level: Level,
}

/// Whether the stdio reporter prints a line for the event.
pub open spec fn stdio_reports(log_task_start: bool, max_log_level: Level, ev: TaskEventView) -> bool {
    match ev {
        TaskEventView::Start(t) => log_task_start && level_of_tags(t.tags).spec_rank() <= max_log_level.spec_rank() && !is_dontprint(t),
        TaskEventView::End(t) => level_of_tags(t.tags).spec_rank() <= max_log_level.spec_rank() && !is_dontprint(t),
        TaskEventView::Progress(_) => false,
    }
}

/// The task an event carries.
pub open spec fn event_task(ev: TaskEventView) -> TaskView {
    match ev {
        TaskEventView::Start(t) => t,
        TaskEventView::End(t) => t,
        TaskEventView::Progress(t) => t,
    }
}

/// The kind of line an event gives (progress events give none).
pub open spec fn event_report_type(ev: TaskEventView) -> TaskReportType {
    match ev {
        TaskEventView::Start(_) => TaskReportType::Start,
        _ => TaskReportType::End,
    }
}

impl StdioReporter {
    /// A reporter that logs end lines to stderr with UTC timestamps.
    pub fn new() -> (r: StdioReporter)
        ensures
            r.timestamp_format is None,
            !r.use_stdout,
            !r.log_task_start,
            r.max_log_level == Level::L1,
    {
        StdioReporter { timestamp_format: None, use_stdout: false, log_task_start: false, max_log_level: Level::L1 }
    }

    /// The timestamp format lines use.
    pub open spec fn format_used(&self) -> TimestampFormat {
        match self.timestamp_format {
            Some(f) => f,
            None => TimestampFormat::UTC,
        }
    }

    /// The line printed for an event, if any: start lines only when
    /// `log_task_start` is set, nothing for a task above `max_log_level` or
    /// tagged `dontprint`, nothing for progress.
    pub fn event_line(&self, event: &TaskEvent) -> (r: Option<String>)
        ensures
            r is Some <==> stdio_reports(self.log_task_start, self.max_log_level, event@),
            r matches Some(l) ==> line_ok(l@, event_task(event@), self.format_used(), DurationFormat::Milliseconds,
                event_report_type(event@)),
    {
        let (task, report_type): (&TaskInternal, TaskReportType) = match event {
            TaskEvent::Start(t) => {
                if !self.log_task_start {
                    return None;
                }
                (&**t, TaskReportType::Start)
            },
            TaskEvent::End(t) => (&**t, TaskReportType::End),
            TaskEvent::Progress(_) => {
                return None;
            },
        };
        let level = parse_level(&task.tags);
        if !level.at_most(&self.max_log_level) || str_contains(&task.tags, DONTPRINT_TAG) {
            return None;
        }
        let timestamp_format = match self.timestamp_format {
            Some(f) => f,
            None => TimestampFormat::UTC,
        };
        Some(make_string(task, timestamp_format, DurationFormat::Milliseconds, report_type))
    }

    /// Where a line goes: stdout when asked for, else the status buffer
    /// while the live status display is on, else stderr.
    pub fn line_sink(&self, status_active: bool) -> (r: LineSink)
        ensures
            r == (if self.use_stdout { LineSink::Stdout } else if status_active { LineSink::StatusBuffer } else { LineSink::Stderr }),
    {
        if self.use_stdout {
            LineSink::Stdout
        } else if status_active {
            LineSink::StatusBuffer
        } else {
            LineSink::Stderr
        }
    }
}

impl Default for StdioReporter {
    fn default() -> (r: StdioReporter)
        ensures
            r.timestamp_format is None,
            !r.use_stdout,
            !r.log_task_start,
            r.max_log_level == Level::L1,
    {
        StdioReporter::new()
    }
}

/// Collects task lines in memory.
pub struct StringReporter {
    pub output: String,
    /// The tree queue it reads, once started.
    pub queue: Option<usize>,
    pub timestamp_format: TimestampFormat,
    pub duration_format: DurationFormat,
    pub strip_ansi: bool,
}

/// The text concatenated.
pub open spec fn flatten(ps: Seq<Seq<char>>) -> Seq<char>
    decreases ps.len(),
{
    if ps.len() == 0 {
        Seq::empty()
    } else {
        flatten(ps.drop_last()) + ps.last()
    }
}

/// `p` is what the string reporter writes for the event: nothing for a
/// progress event or a `dontprint` task, else the event's line (without
/// escape sequences when `strip` is set) and a newline.
pub open spec fn string_piece(p: Seq<char>, ev: TaskEventView, tf: TimestampFormat, df: DurationFormat, strip: bool) -> bool {
    if ev is Progress || is_dontprint(event_task(ev)) {
        p.len() == 0
    } else {
        exists|line: Seq<char>| #[trigger] line_ok(line, event_task(ev), tf, df, event_report_type(ev))
            && p == (if strip { ansi_stripped(line) } else { line }) + "\n"@
    }
}

/// `added` is what the string reporter writes for the events, in order.
pub open spec fn string_report(added: Seq<char>, evs: Seq<TaskEventView>, tf: TimestampFormat, df: DurationFormat, strip: bool) -> bool {
    exists|ps: Seq<Seq<char>>| {
        &&& ps.len() == evs.len()
        &&& forall|i: int| 0 <= i < ps.len() ==> #[trigger] string_piece(ps[i], evs[i], tf, df, strip)
        &&& added == flatten(ps)
    }
}

impl StringReporter {
    /// An unstarted reporter with redacted timestamps, no durations, and
    /// escape sequences stripped.
    pub fn new() -> (r: StringReporter)
        ensures
            r.output@ == Seq::<char>::empty(),
            r.queue is None,
            r.timestamp_format == TimestampFormat::Redacted,
            r.duration_format == DurationFormat::NoDuration,
            r.strip_ansi,
    {
        StringReporter {
            output: String::new(),
            queue: None,
            timestamp_format: TimestampFormat::Redacted,
            duration_format: DurationFormat::NoDuration,
            strip_ansi: true,
        }
    }

    /// Starts reading the tree queue `q`.
    pub fn start(&mut self, q: usize)
        ensures
            final(self).queue == Some(q),
            final(self).output == old(self).output,
            final(self).timestamp_format == old(self).timestamp_format,
            final(self).duration_format == old(self).duration_format,
            final(self).strip_ansi == old(self).strip_ansi,
    {
        self.queue = Some(q);
    }

    /// Appends the lines of the events to the output.
    pub fn drain_events(&mut self, events: Vec<TaskEvent>)
        ensures
            final(self).output@.len() >= old(self).output@.len(),
            final(self).output@.take(old(self).output@.len() as int) == old(self).output@,
            string_report(final(self).output@.skip(old(self).output@.len() as int), events_view(events@),
                old(self).timestamp_format, old(self).duration_format, old(self).strip_ansi),
            final(self).queue == old(self).queue,
            final(self).timestamp_format == old(self).timestamp_format,
            final(self).duration_format == old(self).duration_format,
            final(self).strip_ansi == old(self).strip_ansi,
    {
        let n = events.len();
        let ghost start = self.output@;
        let ghost evs = events_view(events@);
        let ghost mut ps: Seq<Seq<char>> = Seq::empty();
        let mut i: usize = 0;
        while i < n
            invariant
                n == events@.len(),
                evs == events_view(events@),
                i <= n,
                ps.len() == i,
                forall|j: int| 0 <= j < i ==> #[trigger] string_piece(ps[j], evs[j], self.timestamp_format, self.duration_format, self.strip_ansi),
                self.output@ == start + flatten(ps),
                self.queue == old(self).queue,
                self.timestamp_format == old(self).timestamp_format,
                self.duration_format == old(self).duration_format,
                self.strip_ansi == old(self).strip_ansi,
                start == old(self).output@,
            decreases n - i,
        {
            let ghost before = self.output@;
            let item: Option<(&TaskInternal, TaskReportType)> = match &events[i] {
                TaskEvent::Start(t) => Some((&**t, TaskReportType::Start)),
                TaskEvent::End(t) => Some((&**t, TaskReportType::End)),
                TaskEvent::Progress(_) => None,
            };
            match item {
                Some((task, report_type)) => {
                    if !str_contains(&task.tags, DONTPRINT_TAG) {
                        let line = make_string(task, self.timestamp_format, self.duration_format, report_type);
                        let text = if self.strip_ansi { strip_ansi(line.as_str()) } else { line };
                        self.output.append(text.as_str());
                        self.output.append("\n");
                        proof {
                            let p = self.output@.skip(before.len() as int);
                            assert(p =~= text@ + "\n"@);
                            assert(string_piece(p, evs[i as int], self.timestamp_format, self.duration_format, self.strip_ansi));
                        }
                    } else {
                        assert(self.output@.skip(before.len() as int) =~= Seq::<char>::empty());
                    }
                },
                None => {
                    assert(self.output@.skip(before.len() as int) =~= Seq::<char>::empty());
                },
            }
            proof {
                let p = self.output@.skip(before.len() as int);
                assert(self.output@ =~= before + p);
                let old_ps = ps;
                ps = ps.push(p);
                assert(ps.drop_last() =~= old_ps);
                assert(flatten(ps) == flatten(old_ps) + p);
                assert forall|j: int| 0 <= j < i + 1 implies #[trigger] string_piece(ps[j], evs[j], self.timestamp_format, self.duration_format, self.strip_ansi) by {
                    if j < i {
                        assert(ps[j] == old_ps[j]);
                    }
                }
            }
            i = i + 1;
        }
        proof {
            assert(self.output@.take(start.len() as int) =~= start);
            assert(self.output@.skip(start.len() as int) =~= flatten(ps));
        }
    }

    /// Moves the pending events of its queue into the output. Does nothing
    /// before `start`, or when the queue is not one of the tree's.
    pub fn drain(&mut self, tree: &mut TaskTree)
        ensures
            final(self).queue == old(self).queue,
            final(self).timestamp_format == old(self).timestamp_format,
            final(self).duration_format == old(self).duration_format,
            final(self).strip_ansi == old(self).strip_ansi,
            final(tree).model() == old(tree).model(),
            final(tree).wf() == old(tree).wf(),
            final(tree).tree_internal.next_id == old(tree).tree_internal.next_id,
            match old(self).queue {
                Some(q) if q < old(tree).queues().len() => {
                    &&& final(tree).queues() == old(tree).queues().update(q as int, Seq::empty())
                    &&& final(self).output@.len() >= old(self).output@.len()
                    &&& final(self).output@.take(old(self).output@.len() as int) == old(self).output@
                    &&& string_report(final(self).output@.skip(old(self).output@.len() as int), old(tree).queues()[q as int],
                        old(self).timestamp_format, old(self).duration_format, old(self).strip_ansi)
                },
                _ => final(tree).queues() == old(tree).queues() && final(self).output == old(self).output,
            },
    {
        match self.queue {
            Some(q) => {
                if q < tree.tree_internal.event_queues.len() {
                    let events = tree.take_events(q);
                    self.drain_events(events);
                }
            },
            None => {},
        }
    }

    /// Sets how lines show the time.
    pub fn set_timestamp_format(&mut self, format: TimestampFormat)
        ensures
            final(self).timestamp_format == format,
            final(self).output == old(self).output,
            final(self).queue == old(self).queue,
            final(self).duration_format == old(self).duration_format,
            final(self).strip_ansi == old(self).strip_ansi,
    {
        self.timestamp_format = format;
    }

    /// Turns durations on end lines on or off.
    pub fn log_duration(&mut self, enabled: bool)
        ensures
            final(self).duration_format == (if enabled { DurationFormat::Milliseconds } else { DurationFormat::NoDuration }),
            final(self).output == old(self).output,
            final(self).queue == old(self).queue,
            final(self).timestamp_format == old(self).timestamp_format,
            final(self).strip_ansi == old(self).strip_ansi,
    {
        self.duration_format = if enabled { DurationFormat::Milliseconds } else { DurationFormat::NoDuration };
    }

    /// Drains the queue, then returns everything collected so far.
    pub fn to_string(&mut self, tree: &mut TaskTree) -> (r: String)
        ensures
            r@ == final(self).output@,
            final(self).queue == old(self).queue,
            final(tree).model() == old(tree).model(),
            final(tree).wf() == old(tree).wf(),
            match old(self).queue {
                Some(q) if q < old(tree).queues().len() => {
                    &&& final(tree).queues() == old(tree).queues().update(q as int, Seq::empty())
                    &&& r@.take(old(self).output@.len() as int) == old(self).output@
                    &&& r@.len() >= old(self).output@.len()
                    &&& string_report(r@.skip(old(self).output@.len() as int), old(tree).queues()[q as int],
                        old(self).timestamp_format, old(self).duration_format, old(self).strip_ansi)
                },
                _ => final(tree).queues() == old(tree).queues() && r@ == old(self).output@,
            },
    {
        self.drain(tree);
        self.output.clone()
    }
}

impl Default for StringReporter {
    fn default() -> (r: StringReporter)
        ensures
            r.output@ == Seq::<char>::empty(),
            r.queue is None,
            r.timestamp_format == TimestampFormat::Redacted,
            r.duration_format == DurationFormat::NoDuration,
            r.strip_ansi,
    {
        StringReporter::new()
    }
}

/// Reports task events to the JavaScript console.
pub struct ConsoleReporter {
    pub log_task_start: bool,
}

/// The `key=value` texts of the entries whose key is not tagged
/// `dontprint`, in order.
pub open spec fn console_entries(d: DataView) -> Seq<Seq<char>>
    decreases d.len(),
{
    if d.len() == 0 {
        Seq::empty()
    } else {
        let rest = console_entries(d.drop_last());
        let e = d.last();
        if e.1.1.contains("dontprint"@) {
            rest
        } else {
            rest.push(e.0 + "="@ + value_text(e.1.0))
        }
    }
}

/// The data suffix of a console message: ` (k=v, ...)`, or nothing.
pub open spec fn console_data(t: TaskView) -> Seq<char> {
    let entries = console_entries(crate::task_tree::all_data_of(t));
    if entries.len() == 0 {
        Seq::empty()
    } else {
        " ("@ + joined(entries, ", "@) + ")"@
    }
}

/// A console message and whether it is logged as an error.
pub struct ConsoleMessage {
    pub is_error: bool,
    pub text: String,
}

impl ConsoleReporter {
    /// A reporter that logs only ends.
    pub fn new() -> (r: ConsoleReporter)
        ensures
            !r.log_task_start,
    {
        ConsoleReporter { log_task_start: false }
    }

    /// The message for a task start: `[START] name`, when starts are
    /// logged and the task is not tagged `dontprint`.
    pub fn start_message(&self, task: &TaskInternal) -> (r: Option<String>)
        ensures
            r is Some <==> self.log_task_start && !is_dontprint(task@),
            r matches Some(m) ==> m@ == "[START] "@ + full_name_of(task@),
    {
        if self.log_task_start && !str_contains(&task.tags, DONTPRINT_TAG) {
            let mut m = String::from_str("[START] ");
            let name = task.full_name();
            m.append(name.as_str());
            Some(m)
        } else {
            None
        }
    }

    /// The message for a task end, unless the task is tagged `dontprint`:
    /// `[ERR] name (data)` and the error on the next line for a failure,
    /// `[OK] name (data)` otherwise.
    pub fn end_message(&self, task: &TaskInternal) -> (r: Option<ConsoleMessage>)
        ensures
            r is Some <==> !is_dontprint(task@),
            r matches Some(m) ==> match task@.status {
                TaskStatusView::Finished(TaskResultView::Failure(err), _) => m.is_error
                    && m.text@ == "[ERR] "@ + full_name_of(task@) + console_data(task@) + "\n"@ + err,
                _ => !m.is_error && m.text@ == "[OK] "@ + full_name_of(task@) + console_data(task@),
            },
    {
        if str_contains(&task.tags, DONTPRINT_TAG) {
            return None;
        }
        let name = task.full_name();
        let data = format_console_data(task);
        match &task.status {
            TaskStatus::Finished(TaskResult::Failure(err), _) => {
                let mut m = String::from_str("[ERR] ");
                m.append(name.as_str());
                m.append(data.as_str());
                m.append("\n");
                m.append(err.as_str());
                Some(ConsoleMessage { is_error: true, text: m })
            },
            _ => {
                let mut m = String::from_str("[OK] ");
                m.append(name.as_str());
                m.append(data.as_str());
                Some(ConsoleMessage { is_error: false, text: m })
            },
        }
    }
}

impl Default for ConsoleReporter {
    fn default() -> (r: ConsoleReporter)
        ensures
            !r.log_task_start,
    {
        ConsoleReporter::new()
    }
}

/// The data suffix of a console message.
pub fn format_console_data(task: &TaskInternal) -> (r: String)
    ensures
        r@ == console_data(task@),
{
    let entries = task.all_data();
    let ghost d = crate::task_tree::all_data_of(task@);
    let ghost f = |e: DataEntry| crate::data::entry_view(e);
    let n = entries.len();
    let mut texts: Vec<String> = Vec::new();
    let mut i: usize = 0;
    proof {
        assert(d.take(0) =~= Seq::<(Seq<char>, crate::data::DataEntryView)>::empty());
    }
    while i < n
        invariant
            n == entries@.len(),
            i <= n,
            d == crate::sorted::view_entries(entries@, f),
            f == (|e: DataEntry| crate::data::entry_view(e)),
            crate::sorted::str_views(texts@) == console_entries(d.take(i as int)),
        decreases n - i,
    {
        proof {
            assert(d.take(i + 1).drop_last() =~= d.take(i as int));
            assert(d.take(i + 1).last() == d[i as int]);
            assert(d[i as int] == (entries@[i as int].0@, entries@[i as int].1@));
        }
        if !entries[i].1.has_tag(DONTPRINT_TAG) {
            let mut t = entries[i].0.clone();
            t.append("=");
            let v = entries[i].1.0.to_display_string();
            t.append(v.as_str());
            let ghost before = texts@;
            texts.push(t);
            proof {
                assert(crate::sorted::str_views(texts@) =~= crate::sorted::str_views(before).push(t@));
            }
        }
        i = i + 1;
    }
    proof {
        assert(d.take(n as int) =~= d);
    }
    if texts.len() == 0 {
        String::new()
    } else {
        let mut r = String::from_str(" (");
        let j = join_strs(&texts, ", ");
        r.append(j.as_str());
        r.append(")");
        r
    }
}

/// Events are written once: a drain takes its queue's events and empties
/// the queue, and a drain of an empty queue adds nothing to the output.
pub proof fn law_nothing_new_nothing_written(added: Seq<char>, tf: TimestampFormat, df: DurationFormat, strip: bool)
    requires
        string_report(added, Seq::empty(), tf, df, strip),
    ensures
        added.len() == 0,
{
    let ps = choose|ps: Seq<Seq<char>>| {
        &&& ps.len() == 0
        &&& forall|i: int| 0 <= i < ps.len() ==> #[trigger] string_piece(ps[i], Seq::<TaskEventView>::empty()[i], tf, df, strip)
        &&& added == flatten(ps)
    };
    assert(ps =~= Seq::<Seq<char>>::empty());
}

/// The console texts of two data lists one after the other are the texts
/// of the first, then those of the second.
proof fn lemma_console_entries_concat(a: DataView, b: DataView)
    ensures
        console_entries(a + b) == console_entries(a) + console_entries(b),
    decreases b.len(),
{
    if b.len() == 0 {
        assert(a + b =~= a);
        assert(console_entries(a) + console_entries(b) =~= console_entries(a));
    } else {
        assert((a + b).drop_last() =~= a + b.drop_last());
        lemma_console_entries_concat(a, b.drop_last());
        let rest = console_entries(a) + console_entries(b.drop_last());
        if !b.last().1.1.contains("dontprint"@) {
            assert(rest.push(b.last().0 + "="@ + value_text(b.last().1.0))
                =~= console_entries(a) + console_entries(b.drop_last()).push(b.last().0 + "="@ + value_text(b.last().1.0)));
        }
    }
}

/// Every entry whose key is not tagged `dontprint` has its `key=value`
/// text among the console texts of the data.
proof fn lemma_console_entries_member(d: DataView, i: int)
    requires
        0 <= i < d.len(),
        !d[i].1.1.contains("dontprint"@),
    ensures
        console_entries(d).contains(d[i].0 + "="@ + value_text(d[i].1.0)),
    decreases d.len(),
{
    if i == d.len() - 1 {
        assert(console_entries(d).last() == d[i].0 + "="@ + value_text(d[i].1.0));
    } else {
        lemma_console_entries_member(d.drop_last(), i);
        let x = d[i].0 + "="@ + value_text(d[i].1.0);
        let j = choose|j: int| 0 <= j < console_entries(d.drop_last()).len() && console_entries(d.drop_last())[j] == x;
        if !d.last().1.1.contains("dontprint"@) {
            assert(console_entries(d)[j] == x);
        }
    }
}

/// A console message's data suffix lists `key=value` for the entries of the
/// task's own data and then of its inherited data, leaving out keys tagged
/// `dontprint`; every inherited entry not tagged `dontprint` is listed.
pub proof fn law_console_data_own_then_inherited(t: TaskView)
    ensures
        ({
            let listed = console_entries(t.data) + console_entries(t.data_transitive);
            console_data(t) == (if listed.len() == 0 { Seq::empty() } else { " ("@ + joined(listed, ", "@) + ")"@ })
        }),
        forall|i: int| 0 <= i < t.data_transitive.len() && !(#[trigger] t.data_transitive[i]).1.1.contains("dontprint"@)
            ==> console_entries(crate::task_tree::all_data_of(t)).contains(
                t.data_transitive[i].0 + "="@ + value_text(t.data_transitive[i].1.0)),
{
    lemma_console_entries_concat(t.data, t.data_transitive);
    assert forall|i: int| 0 <= i < t.data_transitive.len() && !(#[trigger] t.data_transitive[i]).1.1.contains("dontprint"@)
        implies console_entries(crate::task_tree::all_data_of(t)).contains(
            t.data_transitive[i].0 + "="@ + value_text(t.data_transitive[i].1.0)) by {
        let d = crate::task_tree::all_data_of(t);
        assert(d[t.data.len() + i] == t.data_transitive[i]);
        lemma_console_entries_member(d, t.data.len() + i);
    }
}

/// The stdio reporter prints nothing for a task above its level or tagged
/// `dontprint`, whether the event is its start or its end, and nothing for
/// progress; it prints every end of any other task, and every start of one
/// exactly when starts are logged.
pub proof fn law_stdio_filters_events(log_task_start: bool, max_log_level: Level, ev: TaskEventView)
    ensures
        level_of_tags(event_task(ev).tags).spec_rank() > max_log_level.spec_rank() ==> !stdio_reports(log_task_start, max_log_level, ev),
        is_dontprint(event_task(ev)) ==> !stdio_reports(log_task_start, max_log_level, ev),
        ev is Progress ==> !stdio_reports(log_task_start, max_log_level, ev),
        ev is End && level_of_tags(event_task(ev).tags).spec_rank() <= max_log_level.spec_rank() && !is_dontprint(event_task(ev))
            ==> stdio_reports(log_task_start, max_log_level, ev),
        ev is Start && level_of_tags(event_task(ev).tags).spec_rank() <= max_log_level.spec_rank() && !is_dontprint(event_task(ev))
            ==> stdio_reports(log_task_start, max_log_level, ev) == log_task_start,
{
}

} // verus!
