//! The live status display: a tree of the running and recent tasks, drawn
//! below the log and redrawn in place on every tick.
//!
//! The shared log buffer, the rows of a frame and the bytes written for a
//! frame are computed here; the render loop, the terminal size and the
//! writes to stderr stay with the caller.

use vstd::prelude::*;
use crossterm::Command;
use crate::level::{level_of_tags, parse_level, Level};
use crate::sorted::str_contains;
use crate::strs::{int_decimal, nat_decimal, push_char, push_i64, push_u128};
use crate::style::{push_painted, renders, lemma_renders_empty, Style};
use std::collections::BTreeSet;
use crate::task_tree::{lemma_parent_in_singleton, model_wf, TaskTree, TaskTreeInternal, TreeModel, TaskInternal, TaskResult, TaskResultView, TaskStatus, TaskStatusView, TaskView};
use crate::time::Timestamp;
use crate::ids::{is_increasing, lemma_sorted_ids, sorted_ids};

verus! {

broadcast use vstd::std_specs::btree::group_btree_axioms, vstd::laws_cmp::group_laws_cmp, crate::ids::lemma_btree_ids_increase;

/// The tag that keeps a task out of the status display.
pub const NOSTATUS_TAG: &'static str = "nostatus";

/// The width of a progress bar, in cells.
pub const PROGRESS_BAR_LEN: i64 = 30;

/// Rust's `/` on integers: the quotient rounded toward zero.
pub open spec fn trunc_div(a: int, b: int) -> int {
    let q = (if a >= 0 { a } else { -a }) / (if b >= 0 { b } else { -b });
    if (a >= 0) == (b > 0) { q } else { -q }
}

/// The percentage a progress of `done` out of `total` shows.
pub open spec fn pct_done(done: int, total: int) -> int {
    trunc_div(done * 100, total)
}

/// The number of filled cells of the bar.
pub open spec fn done_blocks(done: int, total: int) -> int {
    let b = trunc_div(PROGRESS_BAR_LEN * pct_done(done, total), 100);
    if b < PROGRESS_BAR_LEN { b } else { PROGRESS_BAR_LEN as int }
}

/// Whether the bar can be drawn without overflow: the products fit in an
/// `i64` and the filled part is not negative.
pub open spec fn progress_ok(p: Option<(i64, i64)>) -> bool {
    match p {
        Some((done, total)) => total == 0 || {
            &&& i64::MIN <= done * 100 <= i64::MAX
            &&& i64::MIN <= PROGRESS_BAR_LEN * pct_done(done as int, total as int) <= i64::MAX
            &&& done_blocks(done as int, total as int) >= 0
        },
        None => true,
    }
}

/// `n` copies of `c`.
pub open spec fn repeated(c: char, n: nat) -> Seq<char> {
    Seq::new(n, |i: int| c)
}

/// The segments of a task's progress bar: ` [`, the filled cells, the
/// empty cells, `] done/total `; nothing without progress or with a total
/// of zero.
pub open spec fn progress_segs(p: Option<(i64, i64)>) -> Seq<(Style, Seq<char>)> {
    match p {
        Some((done, total)) => {
            if total == 0 {
                Seq::empty()
            } else {
                let db = done_blocks(done as int, total as int);
                seq![
                    (Style::Plain, " ["@),
                    (Style::OnBrightGreen, repeated(' ', db as nat)),
                    (Style::OnBlack, repeated('.', (PROGRESS_BAR_LEN - db) as nat)),
                    (Style::Plain, "] "@ + int_decimal(done as int) + "/"@ + int_decimal(total as int) + " "@),
                ]
            }
        },
        None => Seq::empty(),
    }
}

fn abs_i128(a: i128) -> (r: u128)
    requires
        a > i128::MIN,
    ensures
        r == (if a >= 0 { a as int } else { -a }),
{
    if a >= 0 {
        a as u128
    } else {
        (-a) as u128
    }
}

/// Quotient rounded toward zero.
fn tdiv(a: i128, b: i128) -> (r: i128)
    requires
        b != 0,
        -0x1_0000_0000_0000_0000_0000_0000 < a < 0x1_0000_0000_0000_0000_0000_0000,
        -0x1_0000_0000_0000_0000_0000_0000 < b < 0x1_0000_0000_0000_0000_0000_0000,
    ensures
        r == trunc_div(a as int, b as int),
{
    let ua = abs_i128(a);
    let ub = abs_i128(b);
    let q = ua / ub;
    assert(q <= ua) by (nonlinear_arith)
        requires
            q == ua / ub,
            ub > 0,
    ;
    if (a >= 0) == (b > 0) {
        q as i128
    } else {
        -(q as i128)
    }
}

fn push_repeated(out: &mut String, style: Style, c: char, n: usize, Ghost(segs): Ghost<Seq<(Style, Seq<char>)>>)
    requires
        renders(old(out)@, segs),
    ensures
        renders(final(out)@, segs.push((style, repeated(c, n as nat)))),
{
    let mut t = String::new();
    let mut i: usize = 0;
    while i < n
        invariant
            i <= n,
            t@ == repeated(c, i as nat),
        decreases n - i,
    {
        push_char(&mut t, c);
        assert(t@ =~= repeated(c, (i + 1) as nat));
        i = i + 1;
    }
    push_painted(out, style, t.as_str(), Ghost(segs));
}

/// The progress bar of a task.
pub fn make_progress(task: &TaskInternal) -> (r: String)
    requires
        progress_ok(task.progress),
    ensures
        renders(r@, progress_segs(task.progress)),
{
    let mut r = String::new();
    proof {
        lemma_renders_empty();
    }
    match task.progress {
        Some((done, total)) => {
            if total == 0 {
                return r;
            }
            let d100 = (done as i128) * 100;
            let pct = tdiv(d100, total as i128);
            let x = (PROGRESS_BAR_LEN as i128) * pct;
            let b = tdiv(x, 100);
            let db: i128 = if b < PROGRESS_BAR_LEN as i128 { b } else { PROGRESS_BAR_LEN as i128 };
            assert(db == done_blocks(done as int, total as int));
            let ghost s0: Seq<(Style, Seq<char>)> = Seq::empty();
            let ghost s1 = s0.push((Style::Plain, " ["@));
            let ghost s2 = s1.push((Style::OnBrightGreen, repeated(' ', db as nat)));
            let ghost s3 = s2.push((Style::OnBlack, repeated('.', (PROGRESS_BAR_LEN - db) as nat)));
            push_painted(&mut r, Style::Plain, " [", Ghost(s0));
            push_repeated(&mut r, Style::OnBrightGreen, ' ', db as usize, Ghost(s1));
            push_repeated(&mut r, Style::OnBlack, '.', (PROGRESS_BAR_LEN as i128 - db) as usize, Ghost(s2));
            let mut tail = String::from_str("] ");
            push_i64(&mut tail, done);
            tail.append("/");
            push_i64(&mut tail, total);
            tail.append(" ");
            push_painted(&mut r, Style::Plain, tail.as_str(), Ghost(s3));
            proof {
                assert(s3.push((Style::Plain, tail@)) =~= progress_segs(task.progress));
            }
            r
        },
        None => r,
    }
}

/// Whether the status display shows the task: not tagged `nostatus` and
/// not above the level shown.
pub open spec fn status_printed(t: TaskView, max_log_level: Level) -> bool {
    !t.tags.contains("nostatus"@) && level_of_tags(t.tags).spec_rank() <= max_log_level.spec_rank()
}

/// The vertical lines of an indentation: `│ ` where a line continues, two
/// spaces where it does not.
pub open spec fn bars(depth: Seq<bool>) -> Seq<char>
    decreases depth.len(),
{
    if depth.len() == 0 {
        Seq::empty()
    } else {
        bars(depth.drop_last()) + (if depth.last() { "│ "@ } else { "  "@ })
    }
}

/// The indentation of a row: nothing for a root, else the vertical lines
/// of the ancestors and `├ ` (more siblings follow) or `╰ ` (the last one).
pub open spec fn indent_text(depth: Seq<bool>) -> Seq<char> {
    if depth.len() == 0 {
        Seq::empty()
    } else {
        bars(depth.drop_last()) + (if depth.last() { "├ "@ } else { "╰ "@ })
    }
}

/// The status badge of a row.
pub open spec fn badge(t: TaskView) -> (Style, Seq<char>) {
    match t.status {
        TaskStatusView::Running => (Style::BlackOnYellow, " ▶ "@),
        TaskStatusView::Finished(TaskResultView::Success, _) => (Style::BlackOnGreen, " ✓ "@),
        TaskStatusView::Finished(TaskResultView::Failure(_), _) => (Style::WhiteOnRed, " x "@),
    }
}

/// How long the task has run, in nanoseconds: up to its end, or up to
/// `now` while it runs; `None` when that time is before its start.
pub open spec fn run_duration(t: TaskView, now: u128) -> Option<nat> {
    let end = match t.status {
        TaskStatusView::Finished(_, at) => at,
        TaskStatusView::Running => now,
    };
    if t.started_at <= end { Some((end - t.started_at) as nat) } else { None }
}

/// ` [s.ts] `: whole seconds and tenths.
pub open spec fn duration_text(d: nat) -> Seq<char> {
    " ["@ + nat_decimal(d / 1_000_000_000) + "."@ + nat_decimal(((d / 1_000_000) % 1000) / 100) + "s] "@
}

/// The segments of a task's row.
pub open spec fn row_segs(t: TaskView, depth: Seq<bool>, d: nat) -> Seq<(Style, Seq<char>)> {
    seq![(Style::Plain, indent_text(depth)), badge(t), (Style::Dimmed, duration_text(d))]
        + progress_segs(t.progress) + seq![(Style::Plain, t.name)]
}

fn indent_string(depth: &Vec<bool>) -> (r: String)
    ensures
        r@ == indent_text(depth@),
{
    let n = depth.len();
    let mut r = String::new();
    if n == 0 {
        return r;
    }
    let mut i: usize = 0;
    while i < n - 1
        invariant
            n == depth@.len(),
            n > 0,
            i <= n - 1,
            r@ == bars(depth@.take(i as int)),
        decreases n - 1 - i,
    {
        proof {
            assert(depth@.take(i + 1).drop_last() =~= depth@.take(i as int));
        }
        if depth[i] {
            r.append("│ ");
        } else {
            r.append("  ");
        }
        i = i + 1;
    }
    proof {
        assert(depth@.take((n - 1) as int) =~= depth@.drop_last());
    }
    if depth[n - 1] {
        r.append("├ ");
    } else {
        r.append("╰ ");
    }
    r
}

/// The text of a duration.
fn format_duration(d: u128) -> (r: String)
    ensures
        r@ == duration_text(d as nat),
{
    let mut r = String::from_str(" [");
    push_u128(&mut r, d / 1_000_000_000);
    r.append(".");
    push_u128(&mut r, ((d / 1_000_000) % 1000) / 100);
    r.append("s] ");
    r
}

/// The rendered row of a task; `None` when its duration cannot be taken.
pub fn task_row(task_internal: &TaskInternal, depth: &Vec<bool>, now: Timestamp) -> (r: Option<String>)
    requires
        progress_ok(task_internal.progress),
    ensures
        match run_duration(task_internal@, now.nanos) {
            Some(d) => r matches Some(s) && renders(s@, row_segs(task_internal@, depth@, d)),
            None => r is None,
        },
{
    let end = match &task_internal.status {
        TaskStatus::Finished(_, at) => *at,
        TaskStatus::Running => now,
    };
    let d = match end.duration_since(&task_internal.started_at) {
        Some(d) => d,
        None => {
            return None;
        },
    };
    let mut r = String::new();
    proof {
        lemma_renders_empty();
    }
    let indent = indent_string(depth);
    let ghost s0: Seq<(Style, Seq<char>)> = Seq::empty();
    let ghost s1 = s0.push((Style::Plain, indent@));
    let ghost s2 = s1.push(badge(task_internal@));
    let ghost s3 = s2.push((Style::Dimmed, duration_text(d as nat)));
    push_painted(&mut r, Style::Plain, indent.as_str(), Ghost(s0));
    match &task_internal.status {
        TaskStatus::Running => push_painted(&mut r, Style::BlackOnYellow, " ▶ ", Ghost(s1)),
        TaskStatus::Finished(TaskResult::Success, _) => push_painted(&mut r, Style::BlackOnGreen, " ✓ ", Ghost(s1)),
        TaskStatus::Finished(TaskResult::Failure(_), _) => push_painted(&mut r, Style::WhiteOnRed, " x ", Ghost(s1)),
    }
    let ts = format_duration(d);
    push_painted(&mut r, Style::Dimmed, ts.as_str(), Ghost(s2));
    let progress = make_progress(task_internal);
    let ghost ps = progress_segs(task_internal.progress);
    proof {
        crate::style::lemma_renders_concat(r@, s3, progress@, ps);
    }
    r.append(progress.as_str());
    push_painted(&mut r, Style::Plain, task_internal.name.as_str(), Ghost(s3 + ps));
    proof {
        assert((s3 + ps).push((Style::Plain, task_internal.name@)) =~= row_segs(task_internal@, depth@, d as nat));
    }
    Some(r)
}

/// The segments of one row.
pub type RowSegs = Seq<(Style, Seq<char>)>;

/// The children of a task in increasing order.
pub open spec fn children_of(m: TreeModel, id: u64) -> Seq<u64> {
    if m.children.contains_key(id) { sorted_ids(m.children[id]) } else { Seq::empty() }
}

/// Whether the display shows the task with identifier `id`.
pub open spec fn shown(m: TreeModel, id: u64, max_log_level: Level) -> bool {
    m.tasks.contains_key(id) && status_printed(m.tasks[id], max_log_level)
}

/// The last shown task of `cs`.
pub open spec fn last_shown(m: TreeModel, cs: Seq<u64>, max_log_level: Level) -> Option<u64>
    decreases cs.len(),
{
    if cs.len() == 0 {
        None
    } else if shown(m, cs.last(), max_log_level) {
        Some(cs.last())
    } else {
        last_shown(m, cs.drop_last(), max_log_level)
    }
}

/// The depth of child `c` of `id`: one more level, with a continuing line
/// unless `c` is the last shown child, when `id` itself is shown; the same
/// depth (the child takes its place) when it is not.
pub open spec fn child_depth(m: TreeModel, id: u64, depth: Seq<bool>, c: u64, max_log_level: Level) -> Seq<bool> {
    if shown(m, id, max_log_level) {
        depth.push(Some(c) != last_shown(m, children_of(m, id), max_log_level))
    } else {
        depth
    }
}

/// Both parts, or `None` if either is missing.
pub open spec fn both(a: Option<Seq<RowSegs>>, b: Option<Seq<RowSegs>>) -> Option<Seq<RowSegs>> {
    match (a, b) {
        (Some(x), Some(y)) => Some(x + y),
        _ => None,
    }
}

/// The rows of a task and its descendants, depth first, children in
/// increasing order; `None` when a shown task's duration cannot be taken.
pub open spec fn subtree_rows(m: TreeModel, id: u64, depth: Seq<bool>, max_log_level: Level, now: u128) -> Option<Seq<RowSegs>>
    decreases u64::MAX - id, 1int, 0int,
{
    let own = if shown(m, id, max_log_level) {
        match run_duration(m.tasks[id], now) {
            Some(d) => Some(seq![row_segs(m.tasks[id], depth, d)]),
            None => None,
        }
    } else {
        Some(Seq::empty())
    };
    both(own, kid_rows(m, id, children_of(m, id), depth, max_log_level, now))
}

/// The rows of the subtrees of the children `cs` of `parent`.
pub open spec fn kid_rows(m: TreeModel, parent: u64, cs: Seq<u64>, depth: Seq<bool>, max_log_level: Level, now: u128) -> Option<Seq<RowSegs>>
    decreases u64::MAX - parent, 0int, cs.len(),
{
    if cs.len() == 0 {
        Some(Seq::empty())
    } else {
        let c = cs.last();
        let back = if parent < c {
            subtree_rows(m, c, child_depth(m, parent, depth, c, max_log_level), max_log_level, now)
        } else {
            Some(Seq::empty())
        };
        both(kid_rows(m, parent, cs.drop_last(), depth, max_log_level, now), back)
    }
}

/// The rows of the trees of the roots `rs`, in that order.
pub open spec fn forest_rows(m: TreeModel, rs: Seq<u64>, max_log_level: Level, now: u128) -> Option<Seq<RowSegs>>
    decreases rs.len(),
{
    if rs.len() == 0 {
        Some(Seq::empty())
    } else {
        both(forest_rows(m, rs.drop_last(), max_log_level, now), subtree_rows(m, rs.last(), Seq::empty(), max_log_level, now))
    }
}

/// All rows: the root trees, the last created root first.
pub open spec fn all_rows(m: TreeModel, max_log_level: Level, now: u128) -> Option<Seq<RowSegs>> {
    forest_rows(m, sorted_ids(m.roots).reverse(), max_log_level, now)
}

/// The rows kept on a screen of `term_height` lines: all of them when they
/// fit in `term_height - 2`, else that many and a line counting the rest.
pub open spec fn fitted_rows(rows: Seq<RowSegs>, term_height: int) -> Seq<RowSegs> {
    let max_height = term_height - 2;
    if rows.len() > max_height {
        rows.take(max_height).push(seq![(Style::Plain, "......."@ + nat_decimal((rows.len() - max_height) as nat) + " more tasks......."@)])
    } else {
        rows
    }
}

/// `new` is `old` followed by a rendering of each of `segs`.
pub open spec fn rows_appended(new: Seq<String>, old: Seq<String>, segs: Seq<RowSegs>) -> bool {
    &&& new.len() == old.len() + segs.len()
    &&& new.take(old.len() as int) == old
    &&& forall|i: int| 0 <= i < segs.len() ==> renders(#[trigger] new[old.len() + i]@, segs[i])
}

/// Every task the display shows has a drawable progress bar.
pub open spec fn progress_drawable(m: TreeModel, max_log_level: Level) -> bool {
    forall|id: u64| #[trigger] shown(m, id, max_log_level) ==> progress_ok(m.tasks[id].progress)
}

/// The children of a task, in increasing order.
fn sorted_children(tree: &TaskTreeInternal, id: u64) -> (r: Vec<u64>)
    ensures
        r@ == children_of(tree.model(), id),
        tree.model().children.contains_key(id) ==> r@.to_set() == tree.model().children[id],
{
    match tree.parent_to_children.get(&id) {
        Some(set) => sorted_set(set),
        None => Vec::new(),
    }
}

/// A child of a task comes after it and is in the tree.
proof fn lemma_child_after(m: TreeModel, id: u64, c: u64)
    requires
        model_wf(m),
        m.children.contains_key(id),
        m.children[id].contains(c),
    ensures
        id < c,
        m.tasks.contains_key(c),
{
    lemma_parent_in_singleton(m, c, id);
}

/// Once the rows of some children are missing, those of all are.
proof fn lemma_kid_rows_none(m: TreeModel, parent: u64, cs: Seq<u64>, k: int, depth: Seq<bool>, max_log_level: Level, now: u128)
    requires
        0 <= k <= cs.len(),
        kid_rows(m, parent, cs.take(k), depth, max_log_level, now) is None,
    ensures
        kid_rows(m, parent, cs, depth, max_log_level, now) is None,
    decreases cs.len() - k,
{
    if k == cs.len() {
        assert(cs.take(k) =~= cs);
    } else {
        assert(cs.drop_last().take(k) =~= cs.take(k));
        lemma_kid_rows_none(m, parent, cs.drop_last(), k, depth, max_log_level, now);
    }
}

/// A copy of the flags.
fn copy_flags(v: &Vec<bool>) -> (r: Vec<bool>)
    ensures
        r@ == v@,
{
    let mut r: Vec<bool> = Vec::new();
    let mut i: usize = 0;
    while i < v.len()
        invariant
            i <= v@.len(),
            r@ == v@.take(i as int),
        decreases v@.len() - i,
    {
        r.push(v[i]);
        assert(r@ =~= v@.take(i + 1));
        i = i + 1;
    }
    assert(v@.take(v@.len() as int) =~= v@);
    r
}

/// The elements of a set of identifiers in increasing order.
fn sorted_set(set: &BTreeSet<u64>) -> (r: Vec<u64>)
    ensures
        r@ == sorted_ids(set@),
        r@.to_set() == set@,
{
    let mut r: Vec<u64> = Vec::new();
    for c in it: set.iter()
        invariant
            r@.len() == it.index(),
            forall|k: int| 0 <= k < it.index() ==> r@[k] == *it.seq()[k],
            it.index() == it.seq().len() ==> is_increasing(r@) && r@.to_set() == set@,
            it.seq().unref().to_set() == set@,
            vstd::std_specs::btree::increasing_seq(it.seq()),
            is_increasing(it.seq().unref()),
    {
        r.push(*c);
        assert(it.index() + 1 == it.seq().len() ==> r@ =~= it.seq().unref());
        assert(it.index() + 1 == it.seq().len() ==> is_increasing(r@));
        assert(it.index() + 1 == it.seq().len() ==> r@.to_set() =~= set@);
    }
    proof {
        if r@.len() == 0 {
            assert(r@.to_set() =~= set@);
        }
        lemma_sorted_ids(r@, set@);
    }
    r
}

/// Display settings and the height of the frame on screen.
pub struct TermStatusInternal {
    /// Lines of the frame now drawn (without the blank line above it).
    pub current_height: usize,
    pub max_log_level: Level,
    pub enabled: bool,
}

impl TermStatusInternal {
    /// Hidden, with nothing drawn, showing levels up to `L1`.
    pub fn new() -> (r: TermStatusInternal)
        ensures
            r.current_height == 0,
            r.max_log_level == Level::L1,
            !r.enabled,
    {
        TermStatusInternal { current_height: 0, max_log_level: Level::L1, enabled: false }
    }

    /// Whether the display shows the task.
    pub fn should_print(&self, task: &TaskInternal) -> (r: bool)
        ensures
            r == status_printed(task@, self.max_log_level),
    {
        let level = parse_level(&task.tags);
        !str_contains(&task.tags, NOSTATUS_TAG) && level.at_most(&self.max_log_level)
    }

    /// The last of the children that the display shows.
    fn last_visible_child(&self, tree: &TaskTreeInternal, children: &Vec<u64>) -> (r: Option<u64>)
        ensures
            r == last_shown(tree.model(), children@, self.max_log_level),
    {
        let mut last: Option<u64> = None;
        let mut i: usize = 0;
        while i < children.len()
            invariant
                i <= children@.len(),
                last == last_shown(tree.model(), children@.take(i as int), self.max_log_level),
            decreases children@.len() - i,
        {
            let c = children[i];
            proof {
                assert(children@.take(i + 1).drop_last() =~= children@.take(i as int));
            }
            match tree.tasks_internal.get(&c) {
                Some(t) => {
                    if self.should_print(t) {
                        last = Some(c);
                    }
                },
                None => {},
            }
            i = i + 1;
        }
        assert(children@.take(children@.len() as int) =~= children@);
        last
    }

    /// Appends the rows of the task `id` and its descendants; `false` when a
    /// shown task's duration cannot be taken.
    fn push_subtree(&self, tree: &TaskTreeInternal, id: u64, depth: &Vec<bool>, now: Timestamp, rows: &mut Vec<String>) -> (ok: bool)
        requires
            tree.wf(),
            tree.tasks().contains_key(id),
            progress_drawable(tree.model(), self.max_log_level),
        ensures
            match subtree_rows(tree.model(), id, depth@, self.max_log_level, now.nanos) {
                Some(segs) => ok && rows_appended(final(rows)@, old(rows)@, segs),
                None => !ok,
            },
        decreases u64::MAX - id,
    {
        let ghost m = tree.model();
        let ghost max = self.max_log_level;
        let ghost start = rows@;
        let task = match tree.tasks_internal.get(&id) {
            Some(t) => t,
            None => {
                return false;
            },
        };
        assert(m.tasks[id] == task@);
        let printed = self.should_print(task);
        assert(printed == shown(m, id, max));
        let children = sorted_children(tree, id);
        let last_visible = self.last_visible_child(tree, &children);
        let ghost own: Seq<RowSegs> = if printed {
            match run_duration(task@, now.nanos) {
                Some(d) => seq![row_segs(task@, depth@, d)],
                None => Seq::empty(),
            }
        } else {
            Seq::empty()
        };
        if printed {
            assert(progress_ok(m.tasks[id].progress));
            match task_row(task, depth, now) {
                Some(row) => {
                    rows.push(row);
                },
                None => {
                    return false;
                },
            }
        }
        proof {
            assert(rows@.take(start.len() as int) =~= start);
            assert(children@.take(0) =~= Seq::<u64>::empty());
            assert(own + Seq::<RowSegs>::empty() =~= own);
        }
        let n = children.len();
        let mut i: usize = 0;
        while i < n
            invariant
                n == children@.len(),
                i <= n,
                m == tree.model(),
                max == self.max_log_level,
                tree.wf(),
                progress_drawable(m, max),
                children@ == children_of(m, id),
                m.children.contains_key(id) ==> children@.to_set() == m.children[id],
                last_visible == last_shown(m, children@, max),
                printed == shown(m, id, max),
                shown(m, id, max) ==> run_duration(m.tasks[id], now.nanos) is Some,
                own == (if shown(m, id, max) { seq![row_segs(m.tasks[id], depth@, run_duration(m.tasks[id], now.nanos)->0)] } else { Seq::<RowSegs>::empty() }),
                kid_rows(m, id, children@.take(i as int), depth@, max, now.nanos) is Some,
                rows_appended(rows@, start, own + kid_rows(m, id, children@.take(i as int), depth@, max, now.nanos)->0),
            decreases n - i,
        {
            let c = children[i];
            proof {
                assert(m.children.contains_key(id));
                assert(children@.contains(c));
                assert(children@.to_set().contains(c));
                lemma_child_after(m, id, c);
                assert(children@.take(i + 1).drop_last() =~= children@.take(i as int));
                assert(children@.take(i + 1).last() == c);
            }
            let mut nd = copy_flags(depth);
            if printed {
                let more = match last_visible {
                    Some(l) => l != c,
                    None => true,
                };
                nd.push(more);
            }
            assert(nd@ == child_depth(m, id, depth@, c, max));
            let ghost before = rows@;
            let ghost prev = kid_rows(m, id, children@.take(i as int), depth@, max, now.nanos)->0;
            let ok = self.push_subtree(tree, c, &nd, now, rows);
            if !ok {
                proof {
                    lemma_kid_rows_none(m, id, children@, i + 1, depth@, max, now.nanos);
                }
                return false;
            }
            proof {
                let sub = subtree_rows(m, c, nd@, max, now.nanos)->0;
                assert(kid_rows(m, id, children@.take(i + 1), depth@, max, now.nanos) == Some(prev + sub));
                assert((own + prev) + sub =~= own + (prev + sub));
                assert(rows@.take(start.len() as int) =~= start) by {
                    assert(rows@.take(before.len() as int) == before);
                    assert(before.take(start.len() as int) == start);
                }
                assert forall|j: int| 0 <= j < (own + (prev + sub)).len() implies renders(#[trigger] rows@[start.len() + j]@, (own + (prev + sub))[j]) by {
                    if j < (own + prev).len() {
                        assert(rows@[start.len() + j] == before[start.len() + j]);
                    } else {
                        let k = j - (own + prev).len();
                        assert(rows@[start.len() + j] == rows@[before.len() + k]);
                    }
                }
            }
            i = i + 1;
        }
        proof {
            assert(children@.take(n as int) =~= children@);
        }
        true
    }

    /// The rows of a frame: every tree from its root, the last created root
    /// first, fitted to a screen of `term_height` lines; `None` when a shown
    /// task's duration cannot be taken.
    pub fn make_status_rows(&self, tree: &TaskTree, term_height: u16, now: Timestamp) -> (r: Option<Vec<String>>)
        requires
            tree.wf(),
            term_height >= 2,
            progress_drawable(tree.model(), self.max_log_level),
        ensures
            match all_rows(tree.model(), self.max_log_level, now.nanos) {
                Some(segs) => r matches Some(rows) && rows_appended(rows@, Seq::empty(), fitted_rows(segs, term_height as int)),
                None => r is None,
            },
    {
        let t = &tree.tree_internal;
        let ghost m = t.model();
        let ghost max = self.max_log_level;
        let roots = sorted_set(&t.root_tasks);
        let ghost rs = roots@.reverse();
        let n = roots.len();
        let mut rows: Vec<String> = Vec::new();
        let empty: Vec<bool> = Vec::new();
        let mut i: usize = 0;
        proof {
            assert(rs.take(0) =~= Seq::<u64>::empty());
            assert(rows@.take(0) =~= Seq::<String>::empty());
        }
        while i < n
            invariant
                n == roots@.len(),
                i <= n,
                rs == roots@.reverse(),
                roots@ == sorted_ids(m.roots),
                roots@.to_set() == m.roots,
                m == t.model(),
                m == tree.model(),
                t.wf(),
                max == self.max_log_level,
                empty@ == Seq::<bool>::empty(),
                progress_drawable(m, max),
                forest_rows(m, rs.take(i as int), max, now.nanos) is Some,
                rows_appended(rows@, Seq::empty(), forest_rows(m, rs.take(i as int), max, now.nanos)->0),
            decreases n - i,
        {
            let r = roots[n - 1 - i];
            proof {
                assert(rs[i as int] == r);
                assert(roots@.contains(r));
                assert(roots@.to_set().contains(r));
                assert(m.roots.contains(r));
                assert(rs.take(i + 1).drop_last() =~= rs.take(i as int));
            }
            let ghost before = rows@;
            let ghost prev = forest_rows(m, rs.take(i as int), max, now.nanos)->0;
            if !self.push_subtree(t, r, &empty, now, &mut rows) {
                proof {
                    assert(forest_rows(m, rs.take(i + 1), max, now.nanos) is None);
                    lemma_forest_rows_none(m, rs, i + 1, max, now.nanos);
                    assert(m == tree.model());
                    assert(rs == sorted_ids(m.roots).reverse());
                    assert(forest_rows(m, rs, max, now.nanos) is None);
                    assert(all_rows(tree.model(), self.max_log_level, now.nanos) is None);
                }
                return None;
            }
            proof {
                let sub = subtree_rows(m, r, Seq::empty(), max, now.nanos)->0;
                assert(forest_rows(m, rs.take(i + 1), max, now.nanos) == Some(prev + sub));
                assert(rows@.take(0) =~= Seq::<String>::empty());
                assert forall|j: int| 0 <= j < (prev + sub).len() implies renders(#[trigger] rows@[0 + j]@, (prev + sub)[j]) by {
                    if j < prev.len() {
                        assert(rows@[j] == before[j]);
                    } else {
                        assert(rows@[j] == rows@[before.len() + (j - prev.len())]);
                    }
                }
            }
            i = i + 1;
        }
        proof {
            assert(rs.take(n as int) =~= rs);
        }
        let max_height: usize = (term_height - 2) as usize;
        if rows.len() > max_height {
            let trimmed = rows.len() - max_height;
            let ghost all = rows@;
            let mut kept: Vec<String> = Vec::new();
            let mut k: usize = 0;
            while k < max_height
                invariant
                    k <= max_height < all.len(),
                    rows@ == all,
                    kept@ == all.take(k as int),
                decreases max_height - k,
            {
                kept.push(rows[k].clone());
                assert(kept@ =~= all.take(k + 1));
                k = k + 1;
            }
            let mut line = String::from_str(".......");
            push_u128(&mut line, trimmed as u128);
            line.append(" more tasks.......");
            proof {
                crate::style::lemma_renders_plain(line@);
            }
            kept.push(line);
            proof {
                let segs = forest_rows(m, rs, max, now.nanos)->0;
                let fit = fitted_rows(segs, term_height as int);
                assert forall|j: int| 0 <= j < fit.len() implies renders(#[trigger] kept@[0 + j]@, fit[j]) by {
                    if j < max_height {
                        assert(kept@[j] == all[j]);
                    }
                }
                assert(kept@.take(0) =~= Seq::<String>::empty());
            }
            Some(kept)
        } else {
            Some(rows)
        }
    }
}

/// Once the rows of some root trees are missing, those of all are.
proof fn lemma_forest_rows_none(m: TreeModel, rs: Seq<u64>, k: int, max_log_level: Level, now: u128)
    requires
        0 <= k <= rs.len(),
        forest_rows(m, rs.take(k), max_log_level, now) is None,
    ensures
        forest_rows(m, rs, max_log_level, now) is None,
    decreases rs.len() - k,
{
    if k == rs.len() {
        assert(rs.take(k) =~= rs);
    } else {
        assert(rs.drop_last().take(k) =~= rs.take(k));
        lemma_forest_rows_none(m, rs.drop_last(), k, max_log_level, now);
    }
}

/// A quotient rounded toward zero is no larger than the dividend.
proof fn lemma_trunc_div_bound(a: int, b: int)
    requires
        b != 0,
    ensures
        a >= 0 ==> -a <= trunc_div(a, b) <= a,
        a < 0 ==> a <= trunc_div(a, b) <= -a,
{
    let x = if a >= 0 { a } else { -a };
    let y = if b >= 0 { b } else { -b };
    assert(0 <= x / y <= x) by (nonlinear_arith)
        requires
            x >= 0,
            y > 0;
}

/// Whether the bar of a progress can be drawn.
pub fn progress_drawable_value(p: Option<(i64, i64)>) -> (r: bool)
    ensures
        r == progress_ok(p),
{
    match p {
        Some((done, total)) => {
            if total == 0 {
                return true;
            }
            let d100 = (done as i128) * 100;
            if d100 < i64::MIN as i128 || d100 > i64::MAX as i128 {
                return false;
            }
            let pct = tdiv(d100, total as i128);
            proof {
                lemma_trunc_div_bound(d100 as int, total as int);
            }
            assert(-0x8000_0000_0000_0000 <= pct <= 0x8000_0000_0000_0000);
            let x = 30 * pct;
            if x < i64::MIN as i128 || x > i64::MAX as i128 {
                return false;
            }
            let b = tdiv(x, 100);
            let db: i128 = if b < PROGRESS_BAR_LEN as i128 { b } else { PROGRESS_BAR_LEN as i128 };
            db >= 0
        },
        None => true,
    }
}

impl TermStatusInternal {
    /// Whether every task the display shows has a drawable progress bar.
    pub fn progress_drawable_check(&self, tree: &TaskTree) -> (r: bool)
        ensures
            r == progress_drawable(tree.model(), self.max_log_level),
    {
        let ghost m = tree.model();
        let ghost max = self.max_log_level;
        let tasks = &tree.tree_internal.tasks_internal;
        for (k, v) in it: tasks.iter()
            invariant
                m == tree.model(),
                max == self.max_log_level,
                tasks == &tree.tree_internal.tasks_internal,
                forall|j: int| 0 <= j < it.index() ==> shown(m, *it.seq()[j].0, max) ==> progress_ok(m.tasks[*it.seq()[j].0].progress),
                forall|j: int| 0 <= j < it.seq().len() ==> tasks@.contains_key(*it.seq()[j].0) && tasks@[*it.seq()[j].0] == *it.seq()[j].1,
                forall|id: u64| tasks@.contains_key(id) ==> it.seq().contains((&id, &tasks@[id])),
        {
            let ghost j = it.index();
            assert(*it.seq()[j].0 == *k && *it.seq()[j].1 == *v);
            assert(m.tasks[*k] == v@);
            if self.should_print(v) && !progress_drawable_value(v.progress) {
                assert(shown(m, *k, max));
                return false;
            }
        }
        assert forall|id: u64| #[trigger] shown(m, id, max) implies progress_ok(m.tasks[id].progress) by {
            assert(tasks@.contains_key(id));
        }
        true
    }
}

/// `\x1B[?2026h`: the terminal starts buffering output.
pub open spec fn begin_sync_text() -> Seq<char> {
    seq!['\x1B', '[', '?', '2', '0', '2', '6', 'h']
}

/// `\x1B[?2026l`: the terminal paints what it buffered.
pub open spec fn end_sync_text() -> Seq<char> {
    seq!['\x1B', '[', '?', '2', '0', '2', '6', 'l']
}

/// `\x1B[nA`: the cursor goes `n` lines up.
pub open spec fn move_up_text(n: nat) -> Seq<char> {
    seq!['\x1B', '['] + nat_decimal(n) + seq!['A']
}

/// `\x1B[J`: clear from the cursor to the end of the screen.
pub open spec fn clear_down_text() -> Seq<char> {
    seq!['\x1B', '[', 'J']
}

/// `crossterm::terminal::BeginSynchronizedUpdate` in its ANSI form, which
/// crossterm writes as `ESC [ ? 2 0 2 6 h`.
#[verifier::external_body]
fn begin_sync() -> (r: String)
    ensures
        r@ == begin_sync_text(),
{
    let mut s = String::new();
    let _ = crossterm::terminal::BeginSynchronizedUpdate.write_ansi(&mut s);
    s
}

/// `crossterm::terminal::EndSynchronizedUpdate` in its ANSI form, which
/// crossterm writes as `ESC [ ? 2 0 2 6 l`.
#[verifier::external_body]
fn end_sync() -> (r: String)
    ensures
        r@ == end_sync_text(),
{
    let mut s = String::new();
    let _ = crossterm::terminal::EndSynchronizedUpdate.write_ansi(&mut s);
    s
}

/// `crossterm::cursor::MoveUp(n)` in its ANSI form, which crossterm writes
/// as `ESC [`, `n` in decimal, `A`.
#[verifier::external_body]
fn move_up(n: u16) -> (r: String)
    ensures
        r@ == move_up_text(n as nat),
{
    let mut s = String::new();
    let _ = crossterm::cursor::MoveUp(n).write_ansi(&mut s);
    s
}

/// `crossterm::terminal::Clear(ClearType::FromCursorDown)` in its ANSI
/// form, which crossterm writes as `ESC [ J`.
#[verifier::external_body]
fn clear_down() -> (r: String)
    ensures
        r@ == clear_down_text(),
{
    let mut s = String::new();
    let _ = crossterm::terminal::Clear(crossterm::terminal::ClearType::FromCursorDown).write_ansi(&mut s);
    s
}

/// What erases a frame of `h` lines (and the blank line above it).
pub open spec fn clear_text(h: nat) -> Seq<char> {
    move_up_text(h + 1) + clear_down_text()
}

/// The lines, each followed by a newline.
pub open spec fn lines_text(lines: Seq<Seq<char>>) -> Seq<char>
    decreases lines.len(),
{
    if lines.len() == 0 {
        Seq::empty()
    } else {
        lines_text(lines.drop_last()) + lines.last() + "\n"@
    }
}

/// What a tick writes, with a frame of `cur` lines on screen, log lines
/// `lines` waiting and the new frame `rows`: nothing when there is nothing
/// on screen and nothing to write; the erasing of the old frame when only
/// that is left; else, as one synchronized update, the erasing of the old
/// frame, the log lines, and the new frame after a blank line.
pub open spec fn frame_text(cur: nat, lines: Seq<Seq<char>>, rows: Seq<Seq<char>>) -> Seq<char> {
    if rows.len() == 0 && lines.len() == 0 {
        if cur == 0 { Seq::empty() } else { clear_text(cur) }
    } else {
        begin_sync_text()
            + (if cur > 0 { clear_text(cur) } else { Seq::empty() })
            + lines_text(lines)
            + (if rows.len() > 0 { "\n"@ + crate::strs::joined(rows, "\n"@) + "\n"@ } else { Seq::empty() })
            + end_sync_text()
    }
}

/// The log buffer and whether the display is on: the state that the
/// stdio reporter shares with the display.
pub struct TermStatusShared {
    pub active: bool,
    pub log_buffer: Vec<String>,
}

impl TermStatusShared {
    /// Off, with nothing buffered.
    pub fn new() -> (r: TermStatusShared)
        ensures
            !r.active,
            r.log_buffer@.len() == 0,
    {
        TermStatusShared { active: false, log_buffer: Vec::new() }
    }
}

/// The display's own flag and the shared flag agree: log lines are
/// buffered exactly while the display is shown.
pub open spec fn in_step(internal: TermStatusInternal, shared: TermStatusShared) -> bool {
    internal.enabled == shared.active
}

/// Whether the live status display is on, so that log lines should be
/// buffered rather than written.
pub fn is_active(shared: &TermStatusShared) -> (r: bool)
    ensures
        r == shared.active,
{
    shared.active
}

/// Adds a log line to the buffer; the next tick writes it above the frame.
pub fn buffer_line(shared: &mut TermStatusShared, line: String)
    ensures
        final(shared).log_buffer@ == old(shared).log_buffer@.push(line),
        final(shared).active == old(shared).active,
{
    shared.log_buffer.push(line);
}

/// Takes all buffered log lines, in order.
pub fn drain_buffer(shared: &mut TermStatusShared) -> (r: Vec<String>)
    ensures
        r@ == old(shared).log_buffer@,
        final(shared).log_buffer@.len() == 0,
        final(shared).active == old(shared).active,
{
    let mut empty: Vec<String> = Vec::new();
    std::mem::swap(&mut empty, &mut shared.log_buffer);
    empty
}

/// The texts of the strings.
pub open spec fn texts(v: Seq<String>) -> Seq<Seq<char>> {
    v.map_values(|s: String| s@)
}

fn clear_string(h: usize) -> (r: String)
    requires
        h < 65535,
    ensures
        r@ == clear_text(h as nat),
{
    let mut r = move_up((h + 1) as u16);
    let c = clear_down();
    r.append(c.as_str());
    r
}

fn append_lines(out: &mut String, lines: &Vec<String>)
    ensures
        final(out)@ == old(out)@ + lines_text(texts(lines@)),
{
    let n = lines.len();
    let mut i: usize = 0;
    let ghost start = out@;
    while i < n
        invariant
            n == lines@.len(),
            i <= n,
            out@ == start + lines_text(texts(lines@).take(i as int)),
        decreases n - i,
    {
        proof {
            assert(texts(lines@).take(i + 1).drop_last() =~= texts(lines@).take(i as int));
        }
        out.append(lines[i].as_str());
        out.append("\n");
        i = i + 1;
    }
    assert(texts(lines@).take(n as int) =~= texts(lines@));
}

impl TermStatusInternal {
    /// One tick: the text that erases the frame on screen, writes the
    /// buffered log lines and draws the new frame, with the buffer emptied
    /// and the height of the new frame recorded. `None`, with nothing
    /// changed, when the rows cannot be made.
    pub fn render_frame(&mut self, tree: &TaskTree, shared: &mut TermStatusShared, term_height: u16, now: Timestamp) -> (r: Option<String>)
        requires
            tree.wf(),
            term_height >= 2,
            progress_drawable(tree.model(), old(self).max_log_level),
            old(self).current_height < 65535,
        ensures
            final(self).max_log_level == old(self).max_log_level,
            final(self).enabled == old(self).enabled,
            final(self).current_height < 65535,
            final(shared).active == old(shared).active,
            match all_rows(tree.model(), old(self).max_log_level, now.nanos) {
                None => r is None && *final(self) == *old(self) && final(shared).log_buffer@ == old(shared).log_buffer@,
                Some(segs) => {
                    let fit = fitted_rows(segs, term_height as int);
                    &&& r is Some
                    &&& final(shared).log_buffer@.len() == 0
                    &&& final(self).current_height == (if fit.len() == 0 && old(shared).log_buffer@.len() == 0 { 0 } else { fit.len() })
                    &&& exists|rows: Seq<Seq<char>>| {
                        &&& rows.len() == fit.len()
                        &&& forall|i: int| 0 <= i < rows.len() ==> renders(#[trigger] rows[i], fit[i])
                        &&& r->0@ == frame_text(old(self).current_height as nat, texts(old(shared).log_buffer@), rows)
                    }
                },
            },
    {
        let rows = match self.make_status_rows(tree, term_height, now) {
            Some(rows) => rows,
            None => {
                return None;
            },
        };
        let ghost fit = fitted_rows(all_rows(tree.model(), self.max_log_level, now.nanos)->0, term_height as int);
        let ghost row_texts = texts(rows@);
        proof {
            assert(row_texts.len() == fit.len());
            assert forall|i: int| 0 <= i < row_texts.len() implies renders(#[trigger] row_texts[i], fit[i]) by {
                assert(rows@[0 + i]@ == row_texts[i]);
            }
            assert(rows@.len() <= term_height - 1);
        }
        let buffered_lines = drain_buffer(shared);
        let new_height = rows.len();
        let mut out = String::new();
        if new_height == 0 && buffered_lines.len() == 0 {
            if self.current_height > 0 {
                out = clear_string(self.current_height);
                self.current_height = 0;
            }
            return Some(out);
        }
        let b = begin_sync();
        out.append(b.as_str());
        if self.current_height > 0 {
            let c = clear_string(self.current_height);
            out.append(c.as_str());
        } else {
            assert(out@ + Seq::<char>::empty() =~= out@);
        }
        append_lines(&mut out, &buffered_lines);
        if new_height > 0 {
            out.append("\n");
            let j = crate::strs::join_strs(&rows, "\n");
            proof {
                assert(crate::sorted::str_views(rows@) =~= row_texts);
            }
            out.append(j.as_str());
            out.append("\n");
        }
        let e = end_sync();
        out.append(e.as_str());
        proof {
            assert(out@ =~= frame_text(self.current_height as nat, texts(buffered_lines@), row_texts));
        }
        self.current_height = new_height;
        Some(out)
    }

    /// The text that erases the frame on screen; nothing when none is.
    pub fn clear_frame(&mut self) -> (r: String)
        requires
            old(self).current_height < 65535,
        ensures
            r@ == (if old(self).current_height > 0 { clear_text(old(self).current_height as nat) } else { Seq::empty() }),
            final(self).current_height == 0,
            final(self).max_log_level == old(self).max_log_level,
            final(self).enabled == old(self).enabled,
    {
        if self.current_height > 0 {
            let r = clear_string(self.current_height);
            self.current_height = 0;
            r
        } else {
            String::new()
        }
    }

    /// Turns the display on. `true` when it was off, so that the render
    /// loop has to start; `false`, changing nothing, when it was on.
    pub fn show(&mut self, shared: &mut TermStatusShared) -> (started: bool)
        ensures
            started == !old(self).enabled,
            final(self).enabled,
            final(self).current_height == old(self).current_height,
            final(self).max_log_level == old(self).max_log_level,
            final(shared).active == (old(shared).active || started),
            final(shared).log_buffer == old(shared).log_buffer,
            in_step(*old(self), *old(shared)) ==> in_step(*final(self), *final(shared)) && final(shared).active,
    {
        if self.enabled {
            false
        } else {
            self.enabled = true;
            shared.active = true;
            true
        }
    }
}

/// Turns the display off: the text that erases its frame, followed by
/// the log lines still buffered, each on its own line. Lines logged from
/// now on go straight to stderr.
pub fn hide_status(internal: &mut TermStatusInternal, shared: &mut TermStatusShared) -> (r: String)
    requires
        old(internal).current_height < 65535,
    ensures
        !final(internal).enabled,
        !final(shared).active,
        in_step(*final(internal), *final(shared)),
        final(internal).current_height == 0,
        final(internal).max_log_level == old(internal).max_log_level,
        final(shared).log_buffer@.len() == 0,
        r@ == (if old(internal).current_height > 0 { clear_text(old(internal).current_height as nat) } else { Seq::<char>::empty() })
            + lines_text(texts(old(shared).log_buffer@)),
{
    internal.enabled = false;
    shared.active = false;
    let mut r = internal.clear_frame();
    let lines = drain_buffer(shared);
    append_lines(&mut r, &lines);
    r
}

/// A frame never takes more than `term_height - 1` lines: rows that do not
/// fit in `term_height - 2` are cut there and one line counts the rest.
pub proof fn law_frame_fits_screen(rows: Seq<RowSegs>, term_height: int)
    requires
        term_height >= 2,
    ensures
        fitted_rows(rows, term_height).len() <= term_height - 1,
        rows.len() <= term_height - 2 ==> fitted_rows(rows, term_height) == rows,
        forall|i: int| 0 <= i < term_height - 2 && i < rows.len() ==> #[trigger] fitted_rows(rows, term_height)[i] == rows[i],
{
}

/// Log lines buffered while the display is on are all written by the next
/// frame, in order, between the erasing of the old frame and the drawing
/// of the new one.
pub proof fn law_buffered_lines_are_written(cur: nat, lines: Seq<Seq<char>>, rows: Seq<Seq<char>>)
    requires
        lines.len() > 0,
    ensures
        exists|before: Seq<char>, after: Seq<char>| #[trigger] frame_text(cur, lines, rows) == before + lines_text(lines) + after,
{
    let before = begin_sync_text() + (if cur > 0 { clear_text(cur) } else { Seq::empty() });
    let after = (if rows.len() > 0 { "\n"@ + crate::strs::joined(rows, "\n"@) + "\n"@ } else { Seq::empty() }) + end_sync_text();
    assert(frame_text(cur, lines, rows) =~= before + lines_text(lines) + after);
}

} // verus!
