use ll::task_attr::{attr_meta_items, parse_attr_text};
use ll::task_attr::{
    find_task_param, is_task_type, plan_task, AttrErrorKind, FnParam, MetaItem, SpawnKind, TaskAttr, TaskFnError,
    TaskFnShape, TypeShape,
};

fn path(s: &str) -> MetaItem {
    MetaItem::Path(Some(s.to_string()))
}

fn task_ref() -> TypeShape {
    TypeShape::Reference(Box::new(TypeShape::Path(Some("Task".to_string()))))
}

fn param(name: &str, ty: TypeShape) -> FnParam {
    FnParam { ty: Some(ty), ident: Some(name.to_string()) }
}

fn shape(is_async: bool, params: Vec<FnParam>) -> TaskFnShape {
    TaskFnShape { is_async, fn_name: "check_lockfile".to_string(), params }
}

#[test]
fn attribute_defaults_and_options() {
    let a = TaskAttr::parse(&vec![]).ok().unwrap();
    assert!(a.kind == SpawnKind::Async);
    assert!(a.data_args.is_empty() && a.name_override.is_none());
    let a = TaskAttr::parse(&vec![
        path("sync"),
        MetaItem::List(Some("data".to_string()), Some(vec!["path".to_string()])),
        MetaItem::NameValue(Some("name".to_string()), Some("check #l2".to_string())),
    ])
    .ok()
    .unwrap();
    assert!(a.kind == SpawnKind::Sync);
    assert_eq!(a.data_args, vec!["path".to_string()]);
    assert_eq!(a.name_override, Some("check #l2".to_string()));
    let a = TaskAttr::parse(&vec![path("sync"), path("blocking")]).ok().unwrap();
    assert!(a.kind == SpawnKind::Blocking);
    let a = TaskAttr::parse(&vec![path("tokio")]).ok().unwrap();
    assert!(a.kind == SpawnKind::Tokio);
}

#[test]
fn attribute_errors() {
    let e = TaskAttr::parse(&vec![path("sync"), path("fast")]).err().unwrap();
    assert!(e.kind == AttrErrorKind::UnknownFlag && e.at == 1);
    assert_eq!(e.kind.message().unwrap(), "expected `sync`, `tokio`, or `blocking`");
    let e = TaskAttr::parse(&vec![MetaItem::NameValue(Some("name".to_string()), None)]).err().unwrap();
    assert!(e.kind == AttrErrorKind::NotStringLiteral && e.at == 0);
    assert_eq!(e.kind.message().unwrap(), "expected a string literal");
    let e = TaskAttr::parse(&vec![MetaItem::List(Some("args".to_string()), Some(vec![]))]).err().unwrap();
    assert!(e.kind == AttrErrorKind::Unexpected);
    assert_eq!(
        e.kind.message().unwrap(),
        "unexpected attribute, expected `sync`, `tokio`, `blocking`, `data(...)`, or `name = \"...\"`"
    );
    let e = TaskAttr::parse(&vec![MetaItem::List(Some("data".to_string()), None), path("oops")]).err().unwrap();
    assert!(e.kind == AttrErrorKind::BadDataArgs && e.at == 0);
    assert!(e.kind.message().is_none());
    let e = TaskAttr::parse(&vec![MetaItem::NameValue(Some("label".to_string()), Some("x".to_string()))]).err().unwrap();
    assert!(e.kind == AttrErrorKind::Unexpected);
    let e = TaskAttr::parse(&vec![MetaItem::Path(None)]).err().unwrap();
    assert!(e.kind == AttrErrorKind::UnknownFlag);
}

#[test]
fn task_types() {
    assert!(is_task_type(&task_ref()));
    assert!(is_task_type(&TypeShape::Path(Some("Task".to_string()))));
    assert!(!is_task_type(&TypeShape::Reference(Box::new(TypeShape::Path(Some("Tasks".to_string()))))));
    assert!(!is_task_type(&TypeShape::Other));
}

#[test]
fn task_parameter_is_found() {
    let ps = vec![param("path", TypeShape::Path(Some("str".to_string()))), param("task", task_ref())];
    assert_eq!(find_task_param(&ps).ok().unwrap(), "task");
    let two = vec![param("a", task_ref()), param("x", TypeShape::Other), param("b", task_ref())];
    assert!(matches!(find_task_param(&two), Err(TaskFnError::MultipleTaskParams(2))));
    let none = vec![param("x", TypeShape::Other), FnParam { ty: Some(task_ref()), ident: None }];
    assert!(matches!(find_task_param(&none), Err(TaskFnError::NoTaskParam)));
}

#[test]
fn plans_and_refusals() {
    let ps = vec![param("path", TypeShape::Path(Some("str".to_string()))), param("task", task_ref())];
    let sync_attr = TaskAttr { kind: SpawnKind::Sync, data_args: vec!["path".to_string()], name_override: None };
    let plan = plan_task(&sync_attr, &shape(false, ps.iter().map(|p| clone_param(p)).collect())).ok().unwrap();
    assert!(plan.kind == SpawnKind::Sync);
    assert_eq!(plan.task_ident, "task");
    assert_eq!(plan.task_name, "check_lockfile");
    assert_eq!(plan.data_args, vec!["path".to_string()]);

    let e = plan_task(&sync_attr, &shape(true, vec![])).err().unwrap();
    assert_eq!(e.message(), "#[task(sync)] requires a non-async `fn`; remove `async` or use #[task]");
    let async_attr = TaskAttr { kind: SpawnKind::Tokio, data_args: vec![], name_override: Some("x #l2".to_string()) };
    let e = plan_task(&async_attr, &shape(false, vec![])).err().unwrap();
    assert_eq!(e.message(), "#[task] requires `async fn`; use #[task(sync)] for synchronous functions");
    let e = plan_task(&async_attr, &shape(true, vec![])).err().unwrap();
    assert_eq!(e.message(), "#[task] requires a parameter whose type is `Task` (e.g. `task: &Task`)");
    let plan = plan_task(&async_attr, &shape(true, vec![param("t", task_ref())])).ok().unwrap();
    assert_eq!(plan.task_name, "x #l2");

    let bad_arg = TaskAttr { kind: SpawnKind::Sync, data_args: vec!["path".to_string(), "size".to_string()], name_override: None };
    let e = plan_task(&bad_arg, &shape(false, ps.iter().map(|p| clone_param(p)).collect())).err().unwrap();
    assert!(matches!(e, TaskFnError::UnknownDataArg(1, _)));
    assert_eq!(e.message(), "data arg `size` is not a parameter of this function");
    let self_arg = TaskAttr { kind: SpawnKind::Sync, data_args: vec!["task".to_string()], name_override: None };
    let e = plan_task(&self_arg, &shape(false, ps.iter().map(|p| clone_param(p)).collect())).err().unwrap();
    assert!(matches!(e, TaskFnError::TaskParamAsData(0)));
    assert_eq!(e.message(), "cannot log the task parameter as data");
    let two = vec![param("a", task_ref()), param("b", task_ref())];
    let e = plan_task(&async_attr, &shape(true, two)).err().unwrap();
    assert_eq!(e.message(), "multiple Task parameters found; #[task] requires exactly one");
}

fn clone_shape(t: &TypeShape) -> TypeShape {
    match t {
        TypeShape::Reference(b) => TypeShape::Reference(Box::new(clone_shape(b))),
        TypeShape::Path(p) => TypeShape::Path(p.clone()),
        TypeShape::Other => TypeShape::Other,
    }
}

fn clone_param(p: &FnParam) -> FnParam {
    FnParam { ty: p.ty.as_ref().map(clone_shape), ident: p.ident.clone() }
}

#[test]
fn attribute_read_from_text() {
    let a = parse_attr_text("sync, data(path, size), name = \"check #l2\"").ok().unwrap();
    assert!(a.kind == SpawnKind::Sync);
    assert_eq!(a.data_args, vec!["path".to_string(), "size".to_string()]);
    assert_eq!(a.name_override, Some("check #l2".to_string()));
    let a = parse_attr_text("").ok().unwrap();
    assert!(a.kind == SpawnKind::Async && a.data_args.is_empty() && a.name_override.is_none());
    let e = parse_attr_text("tokio, fast").err().unwrap();
    assert!(e.kind == AttrErrorKind::UnknownFlag && e.at == 1);
    let e = parse_attr_text("name = 5").err().unwrap();
    assert!(e.kind == AttrErrorKind::NotStringLiteral && e.at == 0);
    let e = parse_attr_text("data(1)").err().unwrap();
    assert!(e.kind == AttrErrorKind::BadDataArgs);
    let e = parse_attr_text("sync,, tokio").err().unwrap();
    assert!(e.kind == AttrErrorKind::BadSyntax && e.at == 0);
    assert!(e.kind.message().is_none());
    let items = attr_meta_items("other(x), a::b, label = \"v\"").unwrap();
    assert!(matches!(&items[0], MetaItem::List(Some(p), Some(v)) if p == "other" && v == &vec!["x".to_string()]));
    assert!(matches!(&items[1], MetaItem::Path(None)));
    assert!(matches!(&items[2], MetaItem::NameValue(Some(p), Some(v)) if p == "label" && v == "v"));
}
