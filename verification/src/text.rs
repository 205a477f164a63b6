//! Text lines for task events: what the stdio and string reporters print
//! when a task starts or ends.

use vstd::prelude::*;
use chrono::SubsecRound;
use crate::data::{entry_view, value_text, DataEntry, DataEntryView, DataView};
use crate::strs::{nat_decimal, push_char, push_u128};
use crate::style::{lemma_renders_concat, lemma_renders_empty, lemma_renders_plain, paint, push_painted, renders, Style};
use crate::task_tree::{
    all_data_of, full_name_of, TaskInternal, TaskResult, TaskResultView,
    TaskStatus, TaskStatusView, TaskView,
};

verus! {

/// The tag that keeps a task, or a data entry, out of text reports.
pub const DONTPRINT_TAG: &'static str = "dontprint";

/// Which event of a task a line reports.
#[derive(Clone, Copy, PartialEq, Eq, Structural)]
pub enum TaskReportType {
    Start,
    End,
}

/// How lines show the time.
#[derive(Clone, Copy, PartialEq, Eq, Structural)]
pub enum TimestampFormat {
    UTC,
    Local,
    /// No timestamp at all.
    NoTimestamp,
    /// A fixed `[ ] ` in place of the time.
    Redacted,
}

/// Whether end lines show how long the task took.
#[derive(Clone, Copy, PartialEq, Eq, Structural)]
pub enum DurationFormat {
    Milliseconds,
    /// No duration.
    NoDuration,
}

/// `s` right-aligned in a field of `w` characters (`{:>w}`).
pub open spec fn pad_left(s: Seq<char>, w: nat) -> Seq<char> {
    if s.len() >= w {
        s
    } else {
        Seq::new((w - s.len()) as nat, |i: int| ' ') + s
    }
}

/// Whether the task's tags include `dontprint`.
pub open spec fn is_dontprint(t: TaskView) -> bool {
    t.tags.contains("dontprint"@)
}

/// The segments of the name part of a line.
pub open spec fn name_segs(t: TaskView, rt: TaskReportType) -> Seq<(Style, Seq<char>)> {
    if t.status matches TaskStatusView::Finished(TaskResultView::Failure(_), _) {
        seq![(Style::Red, "[ERR] "@ + full_name_of(t))]
    } else if rt == TaskReportType::Start {
        seq![(Style::Yellow, full_name_of(t))]
    } else {
        seq![(Style::Green, full_name_of(t))]
    }
}

/// The segments of the status part of a line: `| STARTING | ` for a start,
/// the duration for an end when asked for and known.
pub open spec fn status_segs(t: TaskView, df: DurationFormat, rt: TaskReportType) -> Seq<(Style, Seq<char>)> {
    if rt == TaskReportType::Start {
        seq![(Style::Plain, "| "@), (Style::Yellow, "STARTING"@), (Style::Plain, " | "@)]
    } else {
        match t.status {
            TaskStatusView::Finished(_, at) => {
                if t.started_at <= at && df == DurationFormat::Milliseconds {
                    seq![(Style::BoldDimmed, "| "@ + pad_left(nat_decimal(((at - t.started_at) / 1_000_000) as nat), 6) + "ms | "@)]
                } else {
                    Seq::empty()
                }
            },
            TaskStatusView::Running => Seq::empty(),
        }
    }
}

/// One printed data line per entry whose key is not tagged `dontprint`,
/// each preceded by a newline.
pub open spec fn data_segs(d: DataView) -> Seq<(Style, Seq<char>)>
    decreases d.len(),
{
    if d.len() == 0 {
        Seq::empty()
    } else {
        let rest = data_segs(d.drop_last());
        let e = d.last();
        if e.1.1.contains("dontprint"@) {
            rest
        } else {
            rest + seq![(Style::Plain, "\n"@), (Style::Dimmed, "  |      "@ + e.0 + ": "@ + value_text(e.1.0))]
        }
    }
}

/// The error message with each of its lines prefixed by `  |  `.
pub open spec fn indent_error(m: Seq<char>) -> Seq<char>
    decreases m.len(),
{
    if m.len() == 0 {
        "  |  "@
    } else if m.last() == '\n' {
        indent_error(m.drop_last()) + "\n  |  "@
    } else {
        indent_error(m.drop_last()).push(m.last())
    }
}

/// The segments of the error part of a line: for a failed task, its hiding
/// message if set, else its error message indented under `  |`.
pub open spec fn error_segs(t: TaskView) -> Seq<(Style, Seq<char>)> {
    match t.status {
        TaskStatusView::Finished(TaskResultView::Failure(m), _) => match t.hide_errors {
            Some(h) => seq![(Style::DimmedRed, h)],
            None => seq![(Style::Plain, "\n  |\n"@ + indent_error(m))],
        },
        _ => Seq::empty(),
    }
}

/// All of a line but the timestamp.
pub open spec fn body_segs(t: TaskView, df: DurationFormat, rt: TaskReportType) -> Seq<(Style, Seq<char>)> {
    let head = status_segs(t, df, rt) + name_segs(t, rt);
    if rt == TaskReportType::End {
        let data = data_segs(all_data_of(t));
        let sep = if data.len() > 0 && t.hide_errors is Some { seq![(Style::Plain, "\n"@)] } else { Seq::empty() };
        head + data + sep + error_segs(t)
    } else {
        head
    }
}

/// The time a line reports: the start for a start line, the finish for an
/// end line.
pub open spec fn report_time(t: TaskView, rt: TaskReportType) -> Option<u128> {
    if rt == TaskReportType::Start {
        Some(t.started_at)
    } else {
        match t.status {
            TaskStatusView::Finished(_, at) => Some(at),
            TaskStatusView::Running => None,
        }
    }
}

/// What `chrono` gives for the time `secs` seconds and `nsec` nanoseconds
/// after the epoch in UTC, rounded to the second, in its `Debug` form.
pub uninterp spec fn utc_debug_text(secs: int, nsec: int) -> Seq<char>;

/// The last second that `chrono` dates: 262142-12-31T23:59:59 UTC.
pub open spec fn last_chrono_secs() -> int {
    8_210_266_876_799
}

/// Whether lines date the instant: `chrono` has a date for it, and rounding
/// it to the second stays within `chrono`'s range. Past that point the
/// time cannot be shown as a date.
pub open spec fn datable(secs: int, nsec: int) -> bool {
    &&& 0 <= secs
    &&& 0 <= nsec < 1_000_000_000
    &&& (secs < last_chrono_secs() || (secs == last_chrono_secs() && nsec < 500_000_000))
}

/// `ts` is a valid timestamp part for format `tf`.
pub open spec fn timestamp_ok(ts: Seq<char>, tf: TimestampFormat, t: TaskView, rt: TaskReportType) -> bool {
    match tf {
        TimestampFormat::NoTimestamp => ts.len() == 0,
        TimestampFormat::Redacted => ts == "[ ] "@,
        TimestampFormat::UTC => match report_time(t, rt) {
            Some(n) => {
                let secs = (n / 1_000_000_000) as int;
                let nsec = (n % 1_000_000_000) as int;
                if datable(secs, nsec) {
                    renders(ts, seq![(Style::Dimmed, "["@ + utc_debug_text(secs, nsec) + "] "@)])
                } else {
                    ts == "[                    ]"@
                }
            },
            None => ts == "[                    ]"@,
        },
        TimestampFormat::Local => match report_time(t, rt) {
            Some(n) => {
                let secs = (n / 1_000_000_000) as int;
                let nsec = (n % 1_000_000_000) as int;
                if datable(secs, nsec) {
                    local_stamp(ts, n)
                } else {
                    ts == "[          ]"@
                }
            },
            None => ts == "[          ]"@,
        },
    }
}

/// `ts` is the dimmed, bracketed text that `local_text` gives for the
/// instant `n` nanoseconds after the epoch.
pub closed spec fn local_stamp(ts: Seq<char>, n: u128) -> bool {
    exists|x: String|
        call_ensures(local_text, ((n / 1_000_000_000) as i64, (n % 1_000_000_000) as u32), x)
        && renders(ts, seq![(Style::Dimmed, "["@ + x@ + "] "@)])
}

/// `line` is a line for the event: a timestamp part, then a rendering of
/// the body segments.
pub open spec fn line_ok(line: Seq<char>, t: TaskView, tf: TimestampFormat, df: DurationFormat, rt: TaskReportType) -> bool {
    exists|k: int| 0 <= k <= line.len() && timestamp_ok(line.take(k), tf, t, rt) && renders(line.skip(k), body_segs(t, df, rt))
}

/// The time part of a local-time line for the instant `n`: the text that
/// `local_text` gives for `n` in brackets, or a blank bracket where `n`
/// cannot be dated.
pub open spec fn local_stamp_or_blank(ts: Seq<char>, n: u128) -> bool {
    if datable((n / 1_000_000_000) as int, (n % 1_000_000_000) as int) {
        local_stamp(ts, n)
    } else {
        ts == "[          ]"@
    }
}

/// With the local-time format, the bracketed time of a line is the local
/// time of the instant the line reports and of no other: a start line shows
/// when the task started, an end line when it finished. An end line of a
/// task that has not finished shows a blank bracket.
pub proof fn law_local_stamp_is_of_report_time(ts: Seq<char>, t: TaskView, rt: TaskReportType)
    requires
        timestamp_ok(ts, TimestampFormat::Local, t, rt),
    ensures
        rt == TaskReportType::Start ==> local_stamp_or_blank(ts, t.started_at),
        rt == TaskReportType::End ==> match t.status {
            TaskStatusView::Finished(_, at) => local_stamp_or_blank(ts, at),
            TaskStatusView::Running => ts == "[          ]"@,
        },
{
}

/// A whole local-time line begins with the local time of the instant it
/// reports: the start of the task for a start line, its finish for an end
/// line.
pub proof fn law_local_line_is_stamped_with_report_time(
    line: Seq<char>,
    t: TaskView,
    df: DurationFormat,
    rt: TaskReportType,
)
    requires
        line_ok(line, t, TimestampFormat::Local, df, rt),
    ensures
        rt == TaskReportType::Start ==> exists|k: int|
            0 <= k <= line.len() && #[trigger] local_stamp_or_blank(line.take(k), t.started_at),
        (rt == TaskReportType::End && t.status is Finished) ==> exists|k: int|
            0 <= k <= line.len() && #[trigger] local_stamp_or_blank(line.take(k), t.status->Finished_1),
{
    let k = choose|k: int| 0 <= k <= line.len() && timestamp_ok(line.take(k), TimestampFormat::Local, t, rt)
        && renders(line.skip(k), body_segs(t, df, rt));
    law_local_stamp_is_of_report_time(line.take(k), t, rt);
}

/// `chrono`'s UTC time for the given instant, rounded to whole seconds, in
/// `Debug` form (e.g. `2024-01-01T12:00:00Z`). `DateTime::from_timestamp`
/// gives a date for every datable instant, and rounding it stays in range,
/// so the empty arm is never taken.
#[verifier::external_body]
fn utc_text(secs: i64, nsec: u32) -> (r: String)
    requires
        datable(secs as int, nsec as int),
    ensures
        r@ == utc_debug_text(secs as int, nsec as int),
{
    match chrono::DateTime::<chrono::Utc>::from_timestamp(secs, nsec) {
        Some(d) => format!("{:?}", d.round_subsecs(0)),
        None => String::new(),
    }
}

/// `chrono`'s local time for the given instant, rounded to whole seconds,
/// as `%I:%M:%S%p`. `from_timestamp` gives a date for every datable
/// instant, and `with_timezone` and the rounding always give a time, so
/// there always is a text; what it says depends on the machine's time zone
/// and is not stated.
#[verifier::external_body]
fn local_text(secs: i64, nsec: u32) -> (r: String)
    requires
        datable(secs as int, nsec as int),
{
    match chrono::DateTime::<chrono::Utc>::from_timestamp(secs, nsec) {
        Some(d) => d.with_timezone(&chrono::Local).round_subsecs(0).format("%I:%M:%S%p").to_string(),
        None => String::new(),
    }
}

fn is_datable(secs: u128, nsec: u32) -> (r: bool)
    requires
        nsec < 1_000_000_000,
    ensures
        r == datable(secs as int, nsec as int),
{
    secs < 8_210_266_876_799 || (secs == 8_210_266_876_799 && nsec < 500_000_000)
}

fn report_time_of(task: &TaskInternal, report_type: TaskReportType) -> (r: Option<u128>)
    ensures
        r == report_time(task@, report_type),
{
    match report_type {
        TaskReportType::Start => Some(task.started_at.nanos),
        TaskReportType::End => match &task.status {
            TaskStatus::Finished(_, at) => Some(at.nanos),
            TaskStatus::Running => None,
        },
    }
}

fn bracketed(t: &str) -> (r: String)
    ensures
        r@ == "["@ + t@ + "] "@,
{
    let mut r = String::from_str("[");
    r.append(t);
    r.append("] ");
    r
}

/// The timestamp part of a line.
pub fn format_timestamp(timestamp_format: TimestampFormat, task: &TaskInternal, report_type: TaskReportType) -> (r: String)
    ensures
        timestamp_ok(r@, timestamp_format, task@, report_type),
{
    let time = report_time_of(task, report_type);
    match timestamp_format {
        TimestampFormat::NoTimestamp => String::new(),
        TimestampFormat::Redacted => String::from_str("[ ] "),
        TimestampFormat::Local => match time {
            Some(n) => {
                let secs = n / 1_000_000_000;
                let nsec = (n % 1_000_000_000) as u32;
                if is_datable(secs, nsec) {
                    let t = local_text(secs as i64, nsec);
                    let b = bracketed(t.as_str());
                    paint(Style::Dimmed, b.as_str())
                } else {
                    String::from_str("[          ]")
                }
            },
            None => String::from_str("[          ]"),
        },
        TimestampFormat::UTC => match time {
            Some(n) => {
                let secs = n / 1_000_000_000;
                let nsec = (n % 1_000_000_000) as u32;
                if is_datable(secs, nsec) {
                    let t = utc_text(secs as i64, nsec);
                    let b = bracketed(t.as_str());
                    paint(Style::Dimmed, b.as_str())
                } else {
                    String::from_str("[                    ]")
                }
            },
            None => String::from_str("[                    ]"),
        },
    }
}

} // verus!

verus! {

/// `s` right-aligned in a field of `w` characters.
pub fn pad_left_str(s: &str, w: usize) -> (r: String)
    ensures
        r@ == pad_left(s@, w as nat),
{
    let n = s.unicode_len();
    let mut r = String::new();
    if n < w {
        let mut i: usize = 0;
        while i < w - n
            invariant
                n < w,
                i <= w - n,
                r@ == Seq::new(i as nat, |j: int| ' '),
            decreases w - n - i,
        {
            push_char(&mut r, ' ');
            assert(r@ =~= Seq::new((i + 1) as nat, |j: int| ' '));
            i = i + 1;
        }
    }
    r.append(s);
    proof {
        if n >= w {
            assert(r@ =~= s@);
        }
    }
    r
}

/// The name part of a line.
pub fn format_name(task: &TaskInternal, report_type: TaskReportType) -> (r: String)
    ensures
        renders(r@, name_segs(task@, report_type)),
{
    let full_name = task.full_name();
    match &task.status {
        TaskStatus::Finished(TaskResult::Failure(_), _) => {
            let mut t = String::from_str("[ERR] ");
            t.append(full_name.as_str());
            paint(Style::Red, t.as_str())
        },
        _ => match report_type {
            TaskReportType::Start => paint(Style::Yellow, full_name.as_str()),
            TaskReportType::End => paint(Style::Green, full_name.as_str()),
        },
    }
}

/// The status part of a line.
pub fn format_status(task: &TaskInternal, format: DurationFormat, report_type: TaskReportType) -> (r: String)
    ensures
        renders(r@, status_segs(task@, format, report_type)),
{
    match report_type {
        TaskReportType::Start => {
            let mut r = String::new();
            proof {
                lemma_renders_empty();
            }
            let ghost s0: Seq<(Style, Seq<char>)> = Seq::empty();
            let ghost s1: Seq<(Style, Seq<char>)> = seq![(Style::Plain, "| "@)];
            let ghost s2: Seq<(Style, Seq<char>)> = seq![(Style::Plain, "| "@), (Style::Yellow, "STARTING"@)];
            push_painted(&mut r, Style::Plain, "| ", Ghost(s0));
            proof {
                assert(s0.push((Style::Plain, "| "@)) =~= s1);
            }
            push_painted(&mut r, Style::Yellow, "STARTING", Ghost(s1));
            proof {
                assert(s1.push((Style::Yellow, "STARTING"@)) =~= s2);
            }
            push_painted(&mut r, Style::Plain, " | ", Ghost(s2));
            proof {
                assert(seq![(Style::Plain, "| "@), (Style::Yellow, "STARTING"@)].push((Style::Plain, " | "@))
                    =~= status_segs(task@, format, report_type));
                assert(Seq::<(Style, Seq<char>)>::empty().push((Style::Plain, "| "@)) =~= seq![(Style::Plain, "| "@)]);
                assert(seq![(Style::Plain, "| "@)].push((Style::Yellow, "STARTING"@)) =~= seq![(Style::Plain, "| "@), (Style::Yellow, "STARTING"@)]);
            }
            r
        },
        TaskReportType::End => {
            proof {
                lemma_renders_empty();
            }
            match &task.status {
                TaskStatus::Finished(_, finished_at) => {
                    match (finished_at.duration_since(&task.started_at), format) {
                        (Some(d), DurationFormat::Milliseconds) => {
                            let mut ms = String::new();
                            push_u128(&mut ms, d / 1_000_000);
                            let padded = pad_left_str(ms.as_str(), 6);
                            let mut t = String::from_str("| ");
                            t.append(padded.as_str());
                            t.append("ms | ");
                            proof {
                                assert(t@ =~= "| "@ + pad_left(nat_decimal((d / 1_000_000) as nat), 6) + "ms | "@);
                            }
                            paint(Style::BoldDimmed, t.as_str())
                        },
                        _ => String::new(),
                    }
                },
                TaskStatus::Running => String::new(),
            }
        },
    }
}

/// The data lines of an end line: the task's data, then its inherited
/// data, skipping entries whose key is tagged `dontprint`.
pub fn format_data(task: &TaskInternal) -> (r: String)
    ensures
        renders(r@, data_segs(all_data_of(task@))),
{
    let entries = task.all_data();
    let ghost d = all_data_of(task@);
    let ghost f = |e: DataEntry| entry_view(e);
    let n = entries.len();
    let mut r = String::new();
    let mut i: usize = 0;
    proof {
        lemma_renders_empty();
        assert(d.take(0) =~= Seq::<(Seq<char>, DataEntryView)>::empty());
    }
    while i < n
        invariant
            n == entries@.len(),
            i <= n,
            d == crate::sorted::view_entries(entries@, f),
            f == (|e: DataEntry| entry_view(e)),
            renders(r@, data_segs(d.take(i as int))),
        decreases n - i,
    {
        let ghost before = d.take(i as int);
        proof {
            assert(d.take(i + 1).drop_last() =~= before);
            assert(d.take(i + 1).last() == d[i as int]);
            assert(d[i as int] == (entries@[i as int].0@, entries@[i as int].1@));
        }
        if !entries[i].1.has_tag("dontprint") {
            let mut line = String::from_str("  |      ");
            line.append(entries[i].0.as_str());
            line.append(": ");
            let v = entries[i].1.0.to_display_string();
            line.append(v.as_str());
            let ghost segs0 = data_segs(before);
            push_painted(&mut r, Style::Plain, "\n", Ghost(segs0));
            push_painted(&mut r, Style::Dimmed, line.as_str(), Ghost(segs0.push((Style::Plain, "\n"@))));
            proof {
                assert(segs0.push((Style::Plain, "\n"@)).push((Style::Dimmed, line@))
                    =~= data_segs(d.take(i + 1)));
            }
        }
        i = i + 1;
    }
    proof {
        assert(d.take(n as int) =~= d);
    }
    r
}

fn indent_error_str(m: &str) -> (r: String)
    ensures
        r@ == indent_error(m@),
{
    let n = m.unicode_len();
    let mut r = String::from_str("  |  ");
    let mut i: usize = 0;
    proof {
        assert(m@.take(0) =~= Seq::<char>::empty());
    }
    while i < n
        invariant
            n == m@.len(),
            i <= n,
            r@ == indent_error(m@.take(i as int)),
        decreases n - i,
    {
        let c = m.get_char(i);
        proof {
            assert(m@.take(i + 1).drop_last() =~= m@.take(i as int));
            assert(m@.take(i + 1).last() == c);
        }
        if c == '\n' {
            r.append("\n  |  ");
        } else {
            push_char(&mut r, c);
        }
        i = i + 1;
    }
    proof {
        assert(m@.take(n as int) =~= m@);
    }
    r
}

/// The error part of an end line.
pub fn format_error(task: &TaskInternal) -> (r: String)
    ensures
        renders(r@, error_segs(task@)),
{
    proof {
        lemma_renders_empty();
    }
    match &task.status {
        TaskStatus::Finished(TaskResult::Failure(error_msg), _) => {
            match &task.hide_errors {
                Some(msg) => paint(Style::DimmedRed, msg.as_str()),
                None => {
                    let mut result = String::from_str("\n  |\n");
                    let body = indent_error_str(error_msg.as_str());
                    result.append(body.as_str());
                    proof {
                        lemma_renders_plain(result@);
                    }
                    result
                },
            }
        },
        _ => String::new(),
    }
}

/// The line for a task event: timestamp, status, name, and for an end its
/// data and error.
pub fn make_string(
    task_internal: &TaskInternal,
    timestamp_format: TimestampFormat,
    duration_format: DurationFormat,
    report_type: TaskReportType,
) -> (r: String)
    ensures
        line_ok(r@, task_internal@, timestamp_format, duration_format, report_type),
{
    let t = task_internal;
    let timestamp = format_timestamp(timestamp_format, t, report_type);
    let status = format_status(t, duration_format, report_type);
    let name = format_name(t, report_type);
    let mut body = status;
    proof {
        lemma_renders_concat(body@, status_segs(t@, duration_format, report_type), name@, name_segs(t@, report_type));
    }
    body.append(name.as_str());
    let ghost head = status_segs(t@, duration_format, report_type) + name_segs(t@, report_type);
    match report_type {
        TaskReportType::End => {
            let data = format_data(t);
            let error = format_error(t);
            let ghost ds = data_segs(all_data_of(t@));
            proof {
                lemma_renders_concat(body@, head, data@, ds);
            }
            body.append(data.as_str());
            let has_data = data.unicode_len() > 0;
            proof {
                if ds.len() > 0 {
                    lemma_data_segs_render_nonempty(data@, all_data_of(t@));
                } else {
                    lemma_renders_of_empty(data@, ds);
                }
            }
            let ghost sep: Seq<(Style, Seq<char>)> = if ds.len() > 0 && t@.hide_errors is Some { seq![(Style::Plain, "\n"@)] } else { Seq::empty() };
            if has_data && t.hide_errors.is_some() {
                proof {
                    lemma_renders_plain("\n"@);
                    lemma_renders_concat(body@, head + ds, "\n"@, sep);
                }
                body.append("\n");
            } else {
                proof {
                    lemma_renders_empty();
                    lemma_renders_concat(body@, head + ds, Seq::empty(), sep);
                    assert(body@ + Seq::<char>::empty() =~= body@);
                }
            }
            proof {
                lemma_renders_concat(body@, head + ds + sep, error@, error_segs(t@));
            }
            body.append(error.as_str());
        },
        TaskReportType::Start => {},
    }
    let mut r = timestamp;
    let ghost k = r@.len() as int;
    r.append(body.as_str());
    proof {
        assert(r@.take(k) =~= timestamp@);
        assert(r@.skip(k) =~= body@);
    }
    r
}

/// A rendering of data lines is non-empty when there are lines.
proof fn lemma_data_segs_render_nonempty(out: Seq<char>, d: DataView)
    requires
        renders(out, data_segs(d)),
        data_segs(d).len() > 0,
    ensures
        out.len() > 0,
    decreases d.len(),
{
    let segs = data_segs(d);
    let picks = choose|picks: Seq<bool>| picks.len() == segs.len() && out == crate::style::rendered(segs, picks);
    lemma_data_segs_first_newline(d);
    reveal_strlit("\n");
    lemma_rendered_first_plain(segs, picks);
}

proof fn lemma_data_segs_first_newline(d: DataView)
    requires
        data_segs(d).len() > 0,
    ensures
        data_segs(d)[0] == (Style::Plain, "\n"@),
    decreases d.len(),
{
    let rest = data_segs(d.drop_last());
    if rest.len() > 0 {
        lemma_data_segs_first_newline(d.drop_last());
    }
}

proof fn lemma_rendered_first_plain(segs: Seq<(Style, Seq<char>)>, picks: Seq<bool>)
    requires
        segs.len() > 0,
        picks.len() == segs.len(),
        segs[0].0 == Style::Plain,
        segs[0].1.len() > 0,
    ensures
        crate::style::rendered(segs, picks).len() > 0,
    decreases segs.len(),
{
    if segs.len() > 1 {
        lemma_rendered_first_plain(segs.drop_last(), picks.drop_last());
    }
}

proof fn lemma_renders_of_empty(out: Seq<char>, segs: Seq<(Style, Seq<char>)>)
    requires
        renders(out, segs),
        segs.len() == 0,
    ensures
        out.len() == 0,
{
}

} // verus!
