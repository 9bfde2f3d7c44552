use quake::commands::{DefTask, Depends, DependsTask, Produces, Sources, Subtask};
use quake::errors::{QuakeError, Span, Spanned};
use quake::metadata::{TaskFlags, TaskKind};
use quake::populate::{begin_declaration, next_unpopulated};
use quake::state::{State, NO_SCOPE};

fn name(s: &str) -> Spanned<String> {
    Spanned { item: s.to_string(), span: Span::new(0, s.len()) }
}

const PLAIN: TaskFlags = TaskFlags { concurrent: false };

#[test]
fn domain_commands_fail_outside_a_scope() {
    let mut state: State<()> = State::new();
    DefTask::run(&mut state, NO_SCOPE, name("a"), PLAIN, false, &vec![1], Some(100), Span::new(0, 9))
        .unwrap();
    let span = Span::new(3, 7);
    assert_eq!(
        Sources::run(&mut state, NO_SCOPE, vec!["s".to_string()], span),
        Err(QuakeError::InvalidScope { span })
    );
    assert_eq!(
        Produces::run(&mut state, NO_SCOPE, vec!["p".to_string()], span),
        Err(QuakeError::InvalidScope { span })
    );
    assert_eq!(Depends::run(&state, NO_SCOPE, span), Err(QuakeError::InvalidScope { span }));
    assert_eq!(
        DependsTask::new(0).run(&mut state, NO_SCOPE, (), span),
        Err(QuakeError::InvalidScope { span })
    );
    assert_eq!(
        Subtask::run(&mut state, NO_SCOPE, name("sub"), PLAIN, 2, (), span),
        Err(QuakeError::InvalidScope { span })
    );
    // a stale scope id does not name a scope either
    assert_eq!(state.check_in_scope(4, span), Err(QuakeError::InvalidScope { span }));
    assert_eq!(state.metadata.tasks().len(), 1);
    assert_eq!(state.metadata.call_count(), 0);
}

#[test]
fn def_task_only_at_top_level() {
    let mut state: State<()> = State::new();
    DefTask::run(&mut state, NO_SCOPE, name("a"), PLAIN, false, &vec![1, 2], None, Span::new(0, 9))
        .unwrap();
    let root = state.metadata.register_task_call(0, Span::unknown(), ()).unwrap();
    let scope = state.push_scope(root, NO_SCOPE, Span::new(0, 1)).unwrap();
    let span = Span::new(20, 30);
    assert_eq!(
        DefTask::run(&mut state, scope, name("b"), PLAIN, false, &vec![3], None, span),
        Err(QuakeError::NestedScopes { span })
    );
    assert_eq!(state.push_scope(root, scope, span), Err(QuakeError::NestedScopes { span }));
    assert_eq!(state.metadata.tasks().len(), 1);
}

#[test]
fn def_task_bodies() {
    let span = Span::new(1, 2);
    assert_eq!(DefTask::task_bodies(&vec![4, 5], false, span), Ok((Some(4), Some(5))));
    assert_eq!(DefTask::task_bodies(&vec![4], false, span), Ok((None, Some(4))));
    assert_eq!(DefTask::task_bodies(&vec![4], true, span), Ok((Some(4), None)));
    assert_eq!(
        DefTask::task_bodies(&vec![4, 5], true, span),
        Err(QuakeError::DeclTaskHasExtraBody { span })
    );
    assert_eq!(DefTask::task_bodies(&vec![], false, span), Err(QuakeError::TaskMissingBody { span }));

    let mut state: State<()> = State::new();
    assert_eq!(
        DefTask::run(&mut state, NO_SCOPE, name("x"), PLAIN, true, &vec![4, 5], None, span),
        Err(QuakeError::DeclTaskHasExtraBody { span })
    );
    assert_eq!(
        DefTask::run(&mut state, NO_SCOPE, name("x"), PLAIN, true, &vec![4], Some(9), span),
        Ok(0)
    );
    let t = state.metadata.get_task(0).unwrap();
    assert_eq!((t.decl_body, t.run_body, t.depends_decl_id), (Some(4), None, Some(9)));
    assert_eq!(t.kind, TaskKind::Global);
}

#[test]
fn declaration_body_populates_its_call() {
    let mut state: State<&'static str> = State::new();
    DefTask::run(&mut state, NO_SCOPE, name("lib"), PLAIN, false, &vec![7], None, Span::unknown())
        .unwrap();
    DefTask::run(&mut state, NO_SCOPE, name("app"), PLAIN, false, &vec![8, 9], None, Span::unknown())
        .unwrap();
    let root = state.metadata.register_task_call(1, Span::unknown(), "root").unwrap();

    assert_eq!(next_unpopulated(&state.metadata, root), Some(root));
    let (body, scope) = begin_declaration(&mut state, root, NO_SCOPE, Span::unknown()).unwrap().unwrap();
    assert_eq!(body, 8);
    assert!(scope >= 0);
    assert_eq!(state.scope_call_id(scope, Span::unknown()), Ok(root));

    let dep = DependsTask::new(0).run(&mut state, scope, "dep-args", Span::new(2, 3)).unwrap();
    Sources::run(&mut state, scope, vec!["main.c".to_string()], Span::unknown()).unwrap();
    Produces::run(&mut state, scope, vec!["app".to_string()], Span::unknown()).unwrap();
    let sub = Subtask::run(&mut state, scope, name("gen"), TaskFlags { concurrent: true }, 11, "input", Span::unknown())
        .unwrap();
    assert_eq!(state.commit_scope(scope, Span::unknown()), Ok(root));
    assert_eq!(state.check_in_scope(scope, Span::unknown()), Err(QuakeError::InvalidScope { span: Span::unknown() }));

    let md = state.metadata.task_call_metadata(root).unwrap();
    assert_eq!(md.dependencies, vec![dep, sub]);
    assert_eq!(md.sources, vec!["main.c".to_string()]);
    assert_eq!(md.artifacts, vec!["app".to_string()]);
    assert_eq!(state.metadata.get_task_call(dep).unwrap().arguments, "dep-args");
    let gen = state.metadata.task_of_call(sub).unwrap();
    assert_eq!((gen.kind, gen.run_body, gen.flags.concurrent), (TaskKind::Subtask, Some(11), true));

    // the dependency's task has no declaration body: it is populated at once
    assert_eq!(next_unpopulated(&state.metadata, root), Some(dep));
    assert_eq!(begin_declaration(&mut state, dep, NO_SCOPE, Span::unknown()), Ok(None));
    assert_eq!(next_unpopulated(&state.metadata, root), Some(sub));
    assert_eq!(begin_declaration(&mut state, sub, NO_SCOPE, Span::unknown()), Ok(None));
    assert_eq!(next_unpopulated(&state.metadata, root), None);

    // a call is not populated twice
    assert!(matches!(
        begin_declaration(&mut state, dep, NO_SCOPE, Span::unknown()),
        Err(QuakeError::Internal { .. })
    ));
}

#[test]
fn resolving_depends() {
    let mut state: State<()> = State::new();
    DefTask::run(&mut state, NO_SCOPE, name("a"), PLAIN, false, &vec![1], Some(42), Span::unknown())
        .unwrap();
    assert_eq!(Depends::resolve(&state.metadata, &name("a")), Ok(42));
    let missing = Spanned { item: "b".to_string(), span: Span::new(4, 5) };
    assert_eq!(
        Depends::resolve(&state.metadata, &missing),
        Err(QuakeError::TaskNotFound { name: "b".to_string(), span: Some(Span::new(4, 5)) })
    );
}

#[test]
fn errors_are_collected_and_taken() {
    let mut state: State<()> = State::new();
    state.error(QuakeError::ProjectNotFound);
    state.error(QuakeError::BuildScriptNotFound);
    assert_eq!(state.errors().len(), 2);
    let taken = state.take_errors();
    assert_eq!(taken, vec![QuakeError::ProjectNotFound, QuakeError::BuildScriptNotFound]);
    assert!(state.errors().is_empty());
}

#[test]
fn subtask_names_must_be_unique() {
    let mut state: State<()> = State::new();
    DefTask::run(&mut state, NO_SCOPE, name("a"), PLAIN, false, &vec![1, 2], None, Span::unknown())
        .unwrap();
    let root = state.metadata.register_task_call(0, Span::unknown(), ()).unwrap();
    let scope = state.push_scope(root, NO_SCOPE, Span::unknown()).unwrap();
    assert!(matches!(
        Subtask::run(&mut state, scope, name("a"), PLAIN, 3, (), Span::unknown()),
        Err(QuakeError::TaskDuplicateDefinition { .. })
    ));
    assert_eq!(state.scope_metadata(scope, Span::unknown()).unwrap().dependencies.len(), 0);
}

#[test]
fn hidden_command_names() {
    assert_eq!(DependsTask::command_name("build"), "depends build");
    assert_eq!(DependsTask::command_name(""), "depends ");
}
