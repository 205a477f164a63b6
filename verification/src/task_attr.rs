//! What the `#[task]` attribute does with a function: its options, the
//! checks on the function, and the plan of the body it writes (which
//! spawn method, under which name, logging which arguments).
//!
//! The attribute's text is parsed here with syn into plain meta items;
//! the function's signature reaches `plan_task` already parsed, and the
//! writing of tokens stays with the macro.

use vstd::prelude::*;
use syn::parse::Parser;
use syn::punctuated::Punctuated;
use syn::{Expr, ExprLit, Ident, Lit, Meta};
use crate::sorted::str_views;
use crate::strs::str_eq;

verus! {

/// How the task body runs.
#[derive(Clone, Copy, PartialEq, Eq, Structural)]
pub enum SpawnKind {
    /// `task.spawn(name, move |task| async move { .. }).await`
    Async,
    /// `task.spawn_sync(name, move |task| { .. })`
    Sync,
    /// `task.spawn_tokio(name, move |task| async move { .. }).await`
    Tokio,
    /// `task.spawn_blocking(name, move |task| { .. }).await`
    Blocking,
}

/// One item of the attribute's comma-separated list. A path is given by
/// its identifier when it is a single plain identifier, `None` otherwise.
pub enum MetaItem {
    /// `sync`
    Path(Option<String>),
    /// `data(a, b)`; the identifiers, or `None` when the arguments are not
    /// a list of identifiers.
    List(Option<String>, Option<Vec<String>>),
    /// `name = "x"`; the string, or `None` when the value is not a string
    /// literal.
    NameValue(Option<String>, Option<String>),
}

/// An item by views.
pub enum MetaView {
    Path(Option<Seq<char>>),
    List(Option<Seq<char>>, Option<Seq<Seq<char>>>),
    NameValue(Option<Seq<char>>, Option<Seq<char>>),
}

pub open spec fn opt_text(o: Option<String>) -> Option<Seq<char>> {
    match o {
        Some(s) => Some(s@),
        None => None,
    }
}

impl MetaItem {
    pub open spec fn view(&self) -> MetaView {
        match self {
            MetaItem::Path(p) => MetaView::Path(opt_text(*p)),
            MetaItem::List(p, a) => MetaView::List(opt_text(*p), match a {
                Some(v) => Some(str_views(v@)),
                None => None,
            }),
            MetaItem::NameValue(p, v) => MetaView::NameValue(opt_text(*p), opt_text(*v)),
        }
    }
}

pub open spec fn meta_views(items: Seq<MetaItem>) -> Seq<MetaView> {
    items.map_values(|m: MetaItem| m@)
}

/// The options of the attribute.
pub struct TaskAttr {
    pub kind: SpawnKind,
    pub data_args: Vec<String>,
    pub name_override: Option<String>,
}

/// The options by views.
pub struct TaskAttrView {
    pub kind: SpawnKind,
    pub data_args: Seq<Seq<char>>,
    pub name_override: Option<Seq<char>>,
}

impl TaskAttr {
    pub open spec fn view(&self) -> TaskAttrView {
        TaskAttrView { kind: self.kind, data_args: str_views(self.data_args@), name_override: opt_text(self.name_override) }
    }
}

/// Why the attribute was refused.
#[derive(Clone, Copy, PartialEq, Eq, Structural)]
pub enum AttrErrorKind {
    /// A bare word other than `sync`, `tokio`, `blocking`.
    UnknownFlag,
    /// `data(...)` whose arguments are not identifiers.
    BadDataArgs,
    /// Text that is not a comma-separated list of meta items.
    BadSyntax,
    /// `name = ...` whose value is not a string literal.
    NotStringLiteral,
    /// Anything else.
    Unexpected,
}

/// A refused attribute: why, and at which item.
pub struct AttrError {
    pub kind: AttrErrorKind,
    pub at: usize,
}

/// The options before any item.
pub open spec fn default_attr() -> TaskAttrView {
    TaskAttrView { kind: SpawnKind::Async, data_args: Seq::empty(), name_override: None }
}

/// The options after item `m`: a flag sets the kind, `data(..)` sets the
/// logged arguments, `name = ".."` sets the name; an error otherwise.
pub open spec fn apply_item(a: TaskAttrView, m: MetaView) -> Result<TaskAttrView, AttrErrorKind> {
    match m {
        MetaView::Path(p) => {
            if p == Some("sync"@) {
                Ok(TaskAttrView { kind: SpawnKind::Sync, ..a })
            } else if p == Some("tokio"@) {
                Ok(TaskAttrView { kind: SpawnKind::Tokio, ..a })
            } else if p == Some("blocking"@) {
                Ok(TaskAttrView { kind: SpawnKind::Blocking, ..a })
            } else {
                Err(AttrErrorKind::UnknownFlag)
            }
        },
        MetaView::List(p, args) => {
            if p == Some("data"@) {
                match args {
                    Some(v) => Ok(TaskAttrView { data_args: v, ..a }),
                    None => Err(AttrErrorKind::BadDataArgs),
                }
            } else {
                Err(AttrErrorKind::Unexpected)
            }
        },
        MetaView::NameValue(p, v) => {
            if p == Some("name"@) {
                match v {
                    Some(s) => Ok(TaskAttrView { name_override: Some(s), ..a }),
                    None => Err(AttrErrorKind::NotStringLiteral),
                }
            } else {
                Err(AttrErrorKind::Unexpected)
            }
        },
    }
}

/// The options of a list of items, read left to right; the first refused
/// item, with its position, ends the reading.
pub open spec fn parse_items(items: Seq<MetaView>) -> Result<TaskAttrView, (AttrErrorKind, int)>
    decreases items.len(),
{
    if items.len() == 0 {
        Ok(default_attr())
    } else {
        match parse_items(items.drop_last()) {
            Err(e) => Err(e),
            Ok(a) => match apply_item(a, items.last()) {
                Ok(b) => Ok(b),
                Err(k) => Err((k, items.len() - 1)),
            },
        }
    }
}

/// A refused item ends the reading: the result of the whole list is the
/// refusal of its first refused item.
proof fn lemma_parse_items_err(ms: Seq<MetaView>, k: int)
    requires
        0 <= k <= ms.len(),
        parse_items(ms.take(k)) is Err,
    ensures
        parse_items(ms) == parse_items(ms.take(k)),
    decreases ms.len() - k,
{
    if k < ms.len() {
        assert(ms.drop_last().take(k) =~= ms.take(k));
        lemma_parse_items_err(ms.drop_last(), k);
    } else {
        assert(ms.take(k) =~= ms);
    }
}

fn opt_is(o: &Option<String>, word: &str) -> (r: bool)
    ensures
        r == (opt_text(*o) == Some(word@)),
{
    match o {
        Some(s) => str_eq(s.as_str(), word),
        None => false,
    }
}

fn copy_strings(v: &Vec<String>) -> (r: Vec<String>)
    ensures
        str_views(r@) == str_views(v@),
{
    let r = crate::data::clone_strings(v);
    r
}

impl TaskAttr {
    /// Reads the attribute's items.
    pub fn parse(items: &Vec<MetaItem>) -> (r: Result<TaskAttr, AttrError>)
        ensures
            match parse_items(meta_views(items@)) {
                Ok(a) => r matches Ok(t) && t@ == a,
                Err((k, i)) => r matches Err(e) && e.kind == k && e.at == i,
            },
    {
        let ghost ms = meta_views(items@);
        let mut kind = SpawnKind::Async;
        let mut data_args: Vec<String> = Vec::new();
        let mut name_override: Option<String> = None;
        let n = items.len();
        let mut i: usize = 0;
        proof {
            assert(ms.take(0) =~= Seq::<MetaView>::empty());
            assert(str_views(data_args@) =~= Seq::<Seq<char>>::empty());
        }
        while i < n
            invariant
                n == items@.len(),
                ms == meta_views(items@),
                i <= n,
                parse_items(ms.take(i as int)) == Ok::<TaskAttrView, (AttrErrorKind, int)>(TaskAttrView {
                    kind,
                    data_args: str_views(data_args@),
                    name_override: opt_text(name_override),
                }),
            decreases n - i,
        {
            proof {
                assert(ms.take(i + 1).drop_last() =~= ms.take(i as int));
                assert(ms.take(i + 1).last() == items@[i as int]@);
                reveal_strlit("sync");
                reveal_strlit("tokio");
                reveal_strlit("blocking");
                reveal_strlit("data");
                reveal_strlit("name");
            }
            match &items[i] {
                MetaItem::Path(p) => {
                    if opt_is(p, "sync") {
                        kind = SpawnKind::Sync;
                    } else if opt_is(p, "tokio") {
                        kind = SpawnKind::Tokio;
                    } else if opt_is(p, "blocking") {
                        kind = SpawnKind::Blocking;
                    } else {
                        proof {
                            lemma_parse_items_err(ms, i + 1);
                        }
                        return Err(AttrError { kind: AttrErrorKind::UnknownFlag, at: i });
                    }
                },
                MetaItem::List(p, args) => {
                    if opt_is(p, "data") {
                        match args {
                            Some(v) => {
                                data_args = copy_strings(v);
                            },
                            None => {
                                proof {
                            lemma_parse_items_err(ms, i + 1);
                        }
                        return Err(AttrError { kind: AttrErrorKind::BadDataArgs, at: i });
                            },
                        }
                    } else {
                        proof {
                            lemma_parse_items_err(ms, i + 1);
                        }
                        return Err(AttrError { kind: AttrErrorKind::Unexpected, at: i });
                    }
                },
                MetaItem::NameValue(p, v) => {
                    if opt_is(p, "name") {
                        match v {
                            Some(s) => {
                                name_override = Some(s.clone());
                            },
                            None => {
                                proof {
                            lemma_parse_items_err(ms, i + 1);
                        }
                        return Err(AttrError { kind: AttrErrorKind::NotStringLiteral, at: i });
                            },
                        }
                    } else {
                        proof {
                            lemma_parse_items_err(ms, i + 1);
                        }
                        return Err(AttrError { kind: AttrErrorKind::Unexpected, at: i });
                    }
                },
            }
            i = i + 1;
        }
        proof {
            assert(ms.take(n as int) =~= ms);
        }
        Ok(TaskAttr { kind, data_args, name_override })
    }
}

impl AttrErrorKind {
    /// The message the macro reports; for a refused `data(...)` and for
    /// text that does not parse it reports the parser's own message, so
    /// there is none here.
    pub fn message(&self) -> (r: Option<String>)
        ensures
            match self {
                AttrErrorKind::UnknownFlag => r matches Some(m) && m@ == "expected `sync`, `tokio`, or `blocking`"@,
                AttrErrorKind::BadDataArgs => r is None,
                AttrErrorKind::BadSyntax => r is None,
                AttrErrorKind::NotStringLiteral => r matches Some(m) && m@ == "expected a string literal"@,
                AttrErrorKind::Unexpected => r matches Some(m) && m@ == "unexpected attribute, expected `sync`, `tokio`, `blocking`, `data(...)`, or `name = \"...\"`"@,
            },
    {
        match self {
            AttrErrorKind::UnknownFlag => Some(String::from_str("expected `sync`, `tokio`, or `blocking`")),
            AttrErrorKind::BadDataArgs => None,
            AttrErrorKind::BadSyntax => None,
            AttrErrorKind::NotStringLiteral => Some(String::from_str("expected a string literal")),
            AttrErrorKind::Unexpected => Some(String::from_str("unexpected attribute, expected `sync`, `tokio`, `blocking`, `data(...)`, or `name = \"...\"`")),
        }
    }
}

/// The shape of a parameter's type, as far as the macro looks: references
/// are followed, and a path is known by its last segment.
pub enum TypeShape {
    Reference(Box<TypeShape>),
    /// A path, by the identifier of its last segment (`None` for an empty
    /// path).
    Path(Option<String>),
    Other,
}

/// Whether a type is, after its references, a path ending in `Task`.
pub open spec fn is_task_shape(t: TypeShape) -> bool
    decreases t,
{
    match t {
        TypeShape::Reference(inner) => is_task_shape(*inner),
        TypeShape::Path(last) => opt_text(last) == Some("Task"@),
        TypeShape::Other => false,
    }
}

/// Whether the type (after stripping references) ends in `Task`.
pub fn is_task_type(ty: &TypeShape) -> (r: bool)
    ensures
        r == is_task_shape(*ty),
    decreases ty,
{
    match ty {
        TypeShape::Reference(inner) => is_task_type(&**inner),
        TypeShape::Path(last) => opt_is(last, "Task"),
        TypeShape::Other => false,
    }
}

/// A parameter of the function: its type for a typed parameter (`None`
/// for `self`), its name when its pattern is a plain identifier.
pub struct FnParam {
    pub ty: Option<TypeShape>,
    pub ident: Option<String>,
}

/// Whether a parameter counts as the task parameter: typed as a `Task`
/// and bound to a plain identifier.
pub open spec fn is_task_param(p: FnParam) -> bool {
    &&& p.ty matches Some(t) && is_task_shape(t)
    &&& p.ident is Some
}

/// The positions of the task parameters among the first `n`.
pub open spec fn task_params(ps: Seq<FnParam>) -> Seq<int>
    decreases ps.len(),
{
    if ps.len() == 0 {
        Seq::empty()
    } else if is_task_param(ps.last()) {
        task_params(ps.drop_last()).push(ps.len() - 1)
    } else {
        task_params(ps.drop_last())
    }
}

/// Why the function cannot be a task.
pub enum TaskFnError {
    /// `#[task(sync)]` on an `async fn`.
    SyncOnAsync,
    /// Another kind on a plain `fn`.
    NeedsAsync,
    /// A second task parameter, at this position.
    MultipleTaskParams(usize),
    /// No task parameter.
    NoTaskParam,
    /// A logged argument that is no parameter: its position in `data(..)`
    /// and its name.
    UnknownDataArg(usize, String),
    /// The task parameter listed in `data(..)`, at this position.
    TaskParamAsData(usize),
}

/// The task parameter: the name of the only one; the position of the
/// second when there are several; nothing when there are none.
pub open spec fn task_param_of(ps: Seq<FnParam>) -> Result<Seq<char>, Option<int>> {
    let t = task_params(ps);
    if t.len() == 0 {
        Err(None)
    } else if t.len() > 1 {
        Err(Some(t[1]))
    } else {
        Ok(ps[t[0]].ident->0@)
    }
}

/// Finds the task parameter: the one typed as a `Task` and bound to a
/// plain identifier.
pub fn find_task_param(params: &Vec<FnParam>) -> (r: Result<String, TaskFnError>)
    ensures
        match task_param_of(params@) {
            Ok(name) => r matches Ok(s) && s@ == name,
            Err(None) => r matches Err(TaskFnError::NoTaskParam),
            Err(Some(i)) => r matches Err(TaskFnError::MultipleTaskParams(j)) && j == i,
        },
{
    let n = params.len();
    let mut found: Option<String> = None;
    let mut i: usize = 0;
    let ghost ps = params@;
    proof {
        assert(ps.take(0) =~= Seq::<FnParam>::empty());
    }
    while i < n
        invariant
            n == ps.len(),
            ps == params@,
            i <= n,
            task_params(ps.take(i as int)).len() <= 1,
            found is None <==> task_params(ps.take(i as int)).len() == 0,
            found matches Some(s) ==> s@ == ps[task_params(ps.take(i as int))[0]].ident->0@,
            forall|j: int| 0 <= j < task_params(ps.take(i as int)).len() ==> 0 <= #[trigger] task_params(ps.take(i as int))[j] < i,
        decreases n - i,
    {
        proof {
            assert(ps.take(i + 1).drop_last() =~= ps.take(i as int));
            assert(ps.take(i + 1).last() == ps[i as int]);
        }
        let p = &params[i];
        let is_task = match &p.ty {
            Some(t) => is_task_type(t),
            None => false,
        };
        if is_task {
            match &p.ident {
                Some(name) => {
                    if found.is_some() {
                        proof {
                            lemma_task_params_prefix(ps, i + 1);
                        }
                        return Err(TaskFnError::MultipleTaskParams(i));
                    }
                    found = Some(name.clone());
                },
                None => {},
            }
        }
        i = i + 1;
    }
    proof {
        assert(ps.take(n as int) =~= ps);
    }
    match found {
        Some(s) => Ok(s),
        None => Err(TaskFnError::NoTaskParam),
    }
}

/// The task parameters of a prefix come first among those of the whole.
proof fn lemma_task_params_prefix(ps: Seq<FnParam>, k: int)
    requires
        0 <= k <= ps.len(),
    ensures
        task_params(ps.take(k)).len() <= task_params(ps).len(),
        forall|j: int| 0 <= j < task_params(ps.take(k)).len() ==> #[trigger] task_params(ps)[j] == task_params(ps.take(k))[j],
    decreases ps.len() - k,
{
    if k < ps.len() {
        assert(ps.drop_last().take(k) =~= ps.take(k));
        lemma_task_params_prefix(ps.drop_last(), k);
    } else {
        assert(ps.take(k) =~= ps);
    }
}

/// A refusal by views.
pub enum TaskFnErrorView {
    SyncOnAsync,
    NeedsAsync,
    MultipleTaskParams(int),
    NoTaskParam,
    UnknownDataArg(int, Seq<char>),
    TaskParamAsData(int),
}

impl TaskFnError {
    pub open spec fn view(&self) -> TaskFnErrorView {
        match self {
            TaskFnError::SyncOnAsync => TaskFnErrorView::SyncOnAsync,
            TaskFnError::NeedsAsync => TaskFnErrorView::NeedsAsync,
            TaskFnError::MultipleTaskParams(i) => TaskFnErrorView::MultipleTaskParams(*i as int),
            TaskFnError::NoTaskParam => TaskFnErrorView::NoTaskParam,
            TaskFnError::UnknownDataArg(i, n) => TaskFnErrorView::UnknownDataArg(*i as int, n@),
            TaskFnError::TaskParamAsData(i) => TaskFnErrorView::TaskParamAsData(*i as int),
        }
    }

    /// The message the macro reports.
    pub fn message(&self) -> (r: String)
        ensures
            r@ == match self@ {
                TaskFnErrorView::SyncOnAsync => "#[task(sync)] requires a non-async `fn`; remove `async` or use #[task]"@,
                TaskFnErrorView::NeedsAsync => "#[task] requires `async fn`; use #[task(sync)] for synchronous functions"@,
                TaskFnErrorView::MultipleTaskParams(_) => "multiple Task parameters found; #[task] requires exactly one"@,
                TaskFnErrorView::NoTaskParam => "#[task] requires a parameter whose type is `Task` (e.g. `task: &Task`)"@,
                TaskFnErrorView::UnknownDataArg(_, n) => "data arg `"@ + n + "` is not a parameter of this function"@,
                TaskFnErrorView::TaskParamAsData(_) => "cannot log the task parameter as data"@,
            },
    {
        match self {
            TaskFnError::SyncOnAsync => String::from_str("#[task(sync)] requires a non-async `fn`; remove `async` or use #[task]"),
            TaskFnError::NeedsAsync => String::from_str("#[task] requires `async fn`; use #[task(sync)] for synchronous functions"),
            TaskFnError::MultipleTaskParams(_) => String::from_str("multiple Task parameters found; #[task] requires exactly one"),
            TaskFnError::NoTaskParam => String::from_str("#[task] requires a parameter whose type is `Task` (e.g. `task: &Task`)"),
            TaskFnError::UnknownDataArg(_, n) => {
                let mut m = String::from_str("data arg `");
                m.append(n.as_str());
                m.append("` is not a parameter of this function");
                m
            },
            TaskFnError::TaskParamAsData(_) => String::from_str("cannot log the task parameter as data"),
        }
    }
}

/// The function the attribute is on: whether it is `async`, its name, and
/// its parameters.
pub struct TaskFnShape {
    pub is_async: bool,
    pub fn_name: String,
    pub params: Vec<FnParam>,
}

/// What the macro writes: the body spawns a task of this kind and name on
/// the task parameter, first logging the listed arguments as data.
pub struct TaskPlan {
    pub kind: SpawnKind,
    pub task_ident: String,
    pub task_name: String,
    pub data_args: Vec<String>,
}

/// The names of the parameters that are typed and bound to a plain
/// identifier.
pub open spec fn param_names(ps: Seq<FnParam>) -> Seq<Seq<char>>
    decreases ps.len(),
{
    if ps.len() == 0 {
        Seq::empty()
    } else {
        let rest = param_names(ps.drop_last());
        let p = ps.last();
        if p.ty is Some && p.ident is Some {
            rest.push(p.ident->0@)
        } else {
            rest
        }
    }
}

/// The first logged argument that is not a parameter or is the task
/// parameter.
pub open spec fn first_bad_arg(args: Seq<Seq<char>>, names: Seq<Seq<char>>, task_ident: Seq<char>) -> Option<int>
    decreases args.len(),
{
    if args.len() == 0 {
        None
    } else {
        match first_bad_arg(args.drop_last(), names, task_ident) {
            Some(i) => Some(i),
            None => {
                let a = args.last();
                if !names.contains(a) || a == task_ident { Some(args.len() - 1) } else { None }
            },
        }
    }
}

/// The plan for a function, or why it cannot be a task: the kind must
/// match `async`, there must be exactly one task parameter, and the
/// logged arguments must be other parameters. The name is the one given,
/// else the function's.
pub open spec fn plan_of(a: TaskAttrView, is_async: bool, fn_name: Seq<char>, ps: Seq<FnParam>) -> Result<(SpawnKind, Seq<char>, Seq<char>, Seq<Seq<char>>), TaskFnErrorView> {
    if a.kind == SpawnKind::Sync && is_async {
        Err(TaskFnErrorView::SyncOnAsync)
    } else if a.kind != SpawnKind::Sync && !is_async {
        Err(TaskFnErrorView::NeedsAsync)
    } else {
        match task_param_of(ps) {
            Err(None) => Err(TaskFnErrorView::NoTaskParam),
            Err(Some(i)) => Err(TaskFnErrorView::MultipleTaskParams(i)),
            Ok(tid) => match first_bad_arg(a.data_args, param_names(ps), tid) {
                Some(i) => if !param_names(ps).contains(a.data_args[i]) {
                    Err(TaskFnErrorView::UnknownDataArg(i, a.data_args[i]))
                } else {
                    Err(TaskFnErrorView::TaskParamAsData(i))
                },
                None => Ok((a.kind, tid, match a.name_override { Some(n) => n, None => fn_name }, a.data_args)),
            },
        }
    }
}

fn collect_param_names(params: &Vec<FnParam>) -> (r: Vec<String>)
    ensures
        str_views(r@) == param_names(params@),
{
    let n = params.len();
    let mut r: Vec<String> = Vec::new();
    let mut i: usize = 0;
    proof {
        assert(params@.take(0) =~= Seq::<FnParam>::empty());
        assert(str_views(r@) =~= Seq::<Seq<char>>::empty());
    }
    while i < n
        invariant
            n == params@.len(),
            i <= n,
            str_views(r@) == param_names(params@.take(i as int)),
        decreases n - i,
    {
        proof {
            assert(params@.take(i + 1).drop_last() =~= params@.take(i as int));
            assert(params@.take(i + 1).last() == params@[i as int]);
        }
        if params[i].ty.is_some() {
            match &params[i].ident {
                Some(name) => {
                    let ghost before = r@;
                    r.push(name.clone());
                    proof {
                        assert(str_views(r@) =~= str_views(before).push(name@));
                    }
                },
                None => {},
            }
        }
        i = i + 1;
    }
    proof {
        assert(params@.take(n as int) =~= params@);
    }
    r
}

/// Once a logged argument is refused, the first refused one stays first.
proof fn lemma_first_bad_prefix(args: Seq<Seq<char>>, names: Seq<Seq<char>>, tid: Seq<char>, k: int)
    requires
        0 <= k <= args.len(),
        first_bad_arg(args.take(k), names, tid) is Some,
    ensures
        first_bad_arg(args, names, tid) == first_bad_arg(args.take(k), names, tid),
    decreases args.len() - k,
{
    if k < args.len() {
        assert(args.drop_last().take(k) =~= args.take(k));
        lemma_first_bad_prefix(args.drop_last(), names, tid, k);
    } else {
        assert(args.take(k) =~= args);
    }
}

/// Checks the function and plans the body the macro writes.
pub fn plan_task(attr: &TaskAttr, f: &TaskFnShape) -> (r: Result<TaskPlan, TaskFnError>)
    ensures
        match plan_of(attr@, f.is_async, f.fn_name@, f.params@) {
            Ok((kind, tid, name, args)) => r matches Ok(p) && p.kind == kind && p.task_ident@ == tid
                && p.task_name@ == name && str_views(p.data_args@) == args,
            Err(e) => r matches Err(x) && x@ == e,
        },
{
    match attr.kind {
        SpawnKind::Sync => {
            if f.is_async {
                return Err(TaskFnError::SyncOnAsync);
            }
        },
        _ => {
            if !f.is_async {
                return Err(TaskFnError::NeedsAsync);
            }
        },
    }
    let task_ident = match find_task_param(&f.params) {
        Ok(t) => t,
        Err(e) => {
            return Err(e);
        },
    };
    let names = collect_param_names(&f.params);
    let ghost args = attr@.data_args;
    let ghost pn = param_names(f.params@);
    let n = attr.data_args.len();
    let mut i: usize = 0;
    proof {
        assert(args.take(0) =~= Seq::<Seq<char>>::empty());
    }
    while i < n
        invariant
            n == attr.data_args@.len(),
            args == attr@.data_args,
            args == str_views(attr.data_args@),
            pn == str_views(names@),
            pn == param_names(f.params@),
            task_param_of(f.params@) == Ok::<Seq<char>, Option<int>>(task_ident@),
            f.is_async == (attr.kind != SpawnKind::Sync),
            i <= n,
            first_bad_arg(args.take(i as int), pn, task_ident@) is None,
        decreases n - i,
    {
        proof {
            assert(args.take(i + 1).drop_last() =~= args.take(i as int));
            assert(args.take(i + 1).last() == args[i as int]);
            assert(args[i as int] == attr.data_args@[i as int]@);
        }
        let a = attr.data_args[i].as_str();
        if !crate::sorted::str_contains(&names, a) {
            proof {
                lemma_first_bad_prefix(args, pn, task_ident@, i + 1);
            }
            return Err(TaskFnError::UnknownDataArg(i, attr.data_args[i].clone()));
        }
        if str_eq(a, task_ident.as_str()) {
            proof {
                lemma_first_bad_prefix(args, pn, task_ident@, i + 1);
            }
            return Err(TaskFnError::TaskParamAsData(i));
        }
        i = i + 1;
    }
    proof {
        assert(args.take(n as int) =~= args);
    }
    let task_name = match &attr.name_override {
        Some(n) => n.clone(),
        None => f.fn_name.clone(),
    };
    Ok(TaskPlan { kind: attr.kind, task_ident, task_name, data_args: copy_strings(&attr.data_args) })
}

/// Proof that no refused argument means every argument is a parameter
/// other than the task parameter.
proof fn lemma_no_bad_arg(args: Seq<Seq<char>>, names: Seq<Seq<char>>, tid: Seq<char>)
    requires
        first_bad_arg(args, names, tid) is None,
    ensures
        forall|i: int| 0 <= i < args.len() ==> names.contains(#[trigger] args[i]) && args[i] != tid,
    decreases args.len(),
{
    if args.len() > 0 {
        lemma_no_bad_arg(args.drop_last(), names, tid);
        assert forall|i: int| 0 <= i < args.len() implies names.contains(#[trigger] args[i]) && args[i] != tid by {
            if i < args.len() - 1 {
                assert(args.drop_last()[i] == args[i]);
            }
        }
    }
}

/// The body the macro writes logs only parameters of the function, never
/// the task parameter, and names the task after the function unless a
/// name is given.
pub proof fn law_planned_task(a: TaskAttrView, is_async: bool, fn_name: Seq<char>, ps: Seq<FnParam>)
    requires
        plan_of(a, is_async, fn_name, ps) is Ok,
    ensures
        ({
            let (kind, tid, name, args) = plan_of(a, is_async, fn_name, ps)->Ok_0;
            &&& kind == a.kind
            &&& (kind == SpawnKind::Sync) == !is_async
            &&& forall|i: int| 0 <= i < args.len() ==> param_names(ps).contains(#[trigger] args[i]) && args[i] != tid
            &&& name == (match a.name_override { Some(n) => n, None => fn_name })
        }),
{
    let tid = task_param_of(ps)->Ok_0;
    lemma_no_bad_arg(a.data_args, param_names(ps), tid);
}

/// `syn::Meta`, carried through as an opaque value.
#[verifier::external_type_specification]
#[verifier::external_body]
pub struct ExMeta(syn::Meta);

/// What syn's comma-separated `Meta` list parser gives for a text: the
/// items, or `None` when the text is no such list.
pub uninterp spec fn parsed_metas(text: Seq<char>) -> Option<Seq<syn::Meta>>;

/// The plain form of a syn meta item: its kind, the identifier of its path
/// when the path is one identifier, the identifiers of its arguments when
/// they parse as a comma-separated identifier list, its value when it is a
/// string literal.
pub uninterp spec fn meta_view_of(m: syn::Meta) -> MetaView;

/// The plain items of an attribute's text, or `None` when it does not parse.
pub open spec fn meta_items_of(text: Seq<char>) -> Option<Seq<MetaView>> {
    match parsed_metas(text) {
        Some(ms) => Some(ms.map_values(|m: syn::Meta| meta_view_of(m))),
        None => None,
    }
}

/// `Punctuated::<Meta, Comma>::parse_terminated` on the text, through
/// `Parser::parse_str`: the items in order, or `None` on a parse error.
#[verifier::external_body]
fn parse_metas(attr_text: &str) -> (r: Option<Vec<syn::Meta>>)
    ensures
        match r {
            Some(v) => parsed_metas(attr_text@) == Some(v@),
            None => parsed_metas(attr_text@) is None,
        },
{
    match Punctuated::<syn::Meta, syn::token::Comma>::parse_terminated.parse_str(attr_text) {
        Ok(p) => Some(p.into_iter().collect()),
        Err(_) => None,
    }
}

/// A syn meta item in plain form: `Path::get_ident` for its path,
/// `MetaList::parse_args_with` an identifier list for its arguments, and
/// the value of a string-literal value.
#[verifier::external_body]
fn meta_item(m: &syn::Meta) -> (r: MetaItem)
    ensures
        r@ == meta_view_of(*m),
{
    match m {
        Meta::Path(p) => MetaItem::Path(p.get_ident().map(|i| i.to_string())),
        Meta::List(l) => MetaItem::List(
            l.path.get_ident().map(|i| i.to_string()),
            l.parse_args_with(Punctuated::<Ident, syn::token::Comma>::parse_terminated)
                .ok().map(|v| v.iter().map(|i| i.to_string()).collect()),
        ),
        Meta::NameValue(nv) => MetaItem::NameValue(nv.path.get_ident().map(|i| i.to_string()), match &nv.value {
            Expr::Lit(ExprLit { lit: Lit::Str(s), .. }) => Some(s.value()),
            _ => None,
        }),
    }
}

/// The plain items of an attribute's text, or `None` when it is not a
/// comma-separated list of meta items.
pub fn attr_meta_items(attr_text: &str) -> (r: Option<Vec<MetaItem>>)
    ensures
        r is None <==> meta_items_of(attr_text@) is None,
        r matches Some(v) ==> meta_views(v@) == meta_items_of(attr_text@)->0,
{
    let metas = match parse_metas(attr_text) {
        Some(m) => m,
        None => {
            return None;
        },
    };
    let n = metas.len();
    let mut r: Vec<MetaItem> = Vec::new();
    let mut i: usize = 0;
    while i < n
        invariant
            n == metas@.len(),
            i <= n,
            meta_views(r@) == metas@.take(i as int).map_values(|m: syn::Meta| meta_view_of(m)),
        decreases n - i,
    {
        let item = meta_item(&metas[i]);
        let ghost before = r@;
        r.push(item);
        proof {
            assert(meta_views(r@) =~= meta_views(before).push(item@));
            assert(metas@.take(i + 1).map_values(|m: syn::Meta| meta_view_of(m))
                =~= metas@.take(i as int).map_values(|m: syn::Meta| meta_view_of(m)).push(meta_view_of(metas@[i as int])));
        }
        i = i + 1;
    }
    proof {
        assert(metas@.take(n as int) =~= metas@);
    }
    Some(r)
}

/// Reads the attribute from its text: a text that is no list of meta items
/// is refused at its start; otherwise the items are read as
/// `TaskAttr::parse` reads them.
pub fn parse_attr_text(attr_text: &str) -> (r: Result<TaskAttr, AttrError>)
    ensures
        match meta_items_of(attr_text@) {
            None => r matches Err(e) && e.kind == AttrErrorKind::BadSyntax && e.at == 0,
            Some(ms) => match parse_items(ms) {
                Ok(a) => r matches Ok(t) && t@ == a,
                Err((k, i)) => r matches Err(e) && e.kind == k && e.at == i,
            },
        },
{
    match attr_meta_items(attr_text) {
        Some(items) => TaskAttr::parse(&items),
        None => Err(AttrError { kind: AttrErrorKind::BadSyntax, at: 0 }),
    }
}

} // verus!
