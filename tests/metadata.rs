use quake::errors::{QuakeError, Span, Spanned};
use quake::metadata::{Metadata, Task, TaskCallMetadata, TaskFlags, TaskKind};

fn task(name: &str, start: usize) -> Task {
    Task {
        name: Spanned { item: name.to_string(), span: Span::new(start, start + name.len()) },
        kind: TaskKind::Global,
        flags: TaskFlags { concurrent: false },
        depends_decl_id: None,
        decl_body: None,
        run_body: Some(1),
    }
}

#[test]
fn task_ids_are_dense_and_stable() {
    let mut md: Metadata<()> = Metadata::new();
    assert_eq!(md.next_task_id(), 0);
    assert_eq!(md.register_task(task("a", 0)), Ok(0));
    assert_eq!(md.register_task(task("b", 10)), Ok(1));
    assert_eq!(md.register_task(task("c", 20)), Ok(2));
    assert_eq!(md.next_task_id(), 3);
    assert_eq!(md.get_task(1).unwrap().name.item, "b");
    assert_eq!(md.find_task_id("c", None), Ok(2));
    assert!(md.get_task(3).is_none());
}

#[test]
fn duplicate_definition_is_refused() {
    let mut md: Metadata<()> = Metadata::new();
    assert_eq!(md.register_task(task("foo", 0)), Ok(0));
    let err = md.register_task(task("foo", 40)).unwrap_err();
    assert_eq!(
        err,
        QuakeError::TaskDuplicateDefinition {
            name: "foo".to_string(),
            existing_span: Span::new(0, 3),
            span: Span::new(40, 43),
        }
    );
    assert_eq!(md.tasks().len(), 1);
}

#[test]
fn unknown_task_is_not_found() {
    let mut md: Metadata<()> = Metadata::new();
    md.register_task(task("build", 0)).unwrap();
    let span = Some(Span::new(5, 9));
    assert_eq!(
        md.find_task_id("test", span),
        Err(QuakeError::TaskNotFound { name: "test".to_string(), span })
    );
    assert!(md.find_task("test", None).is_err());
    assert_eq!(md.find_task("build", None).unwrap().name.item, "build");
}

#[test]
fn identical_calls_get_distinct_ids() {
    let mut md: Metadata<Vec<String>> = Metadata::new();
    md.register_task(task("a", 0)).unwrap();
    let first = md.register_task_call(0, Span::unknown(), vec!["x".to_string()]);
    let second = md.register_task_call(0, Span::unknown(), vec!["x".to_string()]);
    assert_eq!(first, Some(0));
    assert_eq!(second, Some(1));
    assert_eq!(md.register_task_call(7, Span::unknown(), vec![]), None);
    assert_eq!(md.get_task_call(1).unwrap().arguments, vec!["x".to_string()]);
    assert!(!md.get_task_call(1).unwrap().populated);
    assert_eq!(md.task_of_call(1).unwrap().name.item, "a");
}

#[test]
fn call_metadata_is_written_once() {
    let mut md: Metadata<()> = Metadata::new();
    md.register_task(task("a", 0)).unwrap();
    md.register_task_call(0, Span::unknown(), ()).unwrap();
    md.register_task_call(0, Span::unknown(), ()).unwrap();
    let first = TaskCallMetadata {
        dependencies: vec![1],
        sources: vec!["s.txt".to_string()],
        artifacts: vec!["a.out".to_string()],
    };
    assert_eq!(md.set_call_metadata(0, first.clone()), Ok(()));
    let second = TaskCallMetadata { dependencies: vec![], sources: vec![], artifacts: vec![] };
    assert!(matches!(md.set_call_metadata(0, second), Err(QuakeError::Internal { .. })));
    assert_eq!(md.task_call_metadata(0), Some(&first));
    assert!(md.get_task_call(0).unwrap().populated);
}

#[test]
fn call_metadata_must_name_known_calls() {
    let mut md: Metadata<()> = Metadata::new();
    md.register_task(task("a", 0)).unwrap();
    md.register_task_call(0, Span::unknown(), ()).unwrap();
    let dangling = TaskCallMetadata { dependencies: vec![5], sources: vec![], artifacts: vec![] };
    assert!(matches!(md.set_call_metadata(0, dangling), Err(QuakeError::Internal { .. })));
    assert!(matches!(
        md.set_call_metadata(3, TaskCallMetadata::new()),
        Err(QuakeError::Internal { .. })
    ));
    assert!(!md.get_task_call(0).unwrap().populated);
}
