use quake::commands::{DefTask, DependsTask};
use quake::errors::{Span, Spanned};
use quake::metadata::{Metadata, Task, TaskCallMetadata, TaskFlags, TaskKind};
use quake::populate::{begin_declaration, next_unpopulated};
use quake::run_tree::{generate_run_tree, RunNode};
use quake::scheduler::{ScheduledTask, Scheduler};
use quake::state::{State, NO_SCOPE};

fn name(s: &str) -> Spanned<String> {
    Spanned { item: s.to_string(), span: Span::unknown() }
}

/// Define each task with a declaration body that depends on the listed
/// tasks, call `root` and run the declaration phase to its end.
fn declare(tasks: &[(&str, bool, &[usize])], root: usize) -> (State<()>, usize) {
    let mut state: State<()> = State::new();
    for (i, (n, concurrent, _)) in tasks.iter().enumerate() {
        let bodies = vec![10 + 2 * i, 11 + 2 * i];
        let flags = TaskFlags { concurrent: *concurrent };
        DefTask::run(&mut state, NO_SCOPE, name(n), flags, false, &bodies, None, Span::unknown())
            .unwrap();
    }
    let root_call = state.metadata.register_task_call(root, Span::unknown(), ()).unwrap();
    while let Some(call) = next_unpopulated(&state.metadata, root_call) {
        let task = state.metadata.get_task_call(call).unwrap().task_id;
        let (_, scope) = begin_declaration(&mut state, call, NO_SCOPE, Span::unknown())
            .unwrap()
            .unwrap();
        for dep in tasks[task].2 {
            DependsTask::new(*dep).run(&mut state, scope, (), Span::unknown()).unwrap();
        }
        state.commit_scope(scope, Span::unknown()).unwrap();
    }
    (state, root_call)
}

fn task_names<A>(md: &Metadata<A>, nodes: &[&RunNode]) -> Vec<String> {
    nodes.iter().map(|n| md.task_of_call(n.call_id).unwrap().name.item.clone()).collect()
}

/// Run the scheduler, finishing workers oldest first, and return the
/// events and the largest number of workers in flight.
fn simulate<A>(md: &Metadata<A>, sched: &mut Scheduler) -> (Vec<String>, usize) {
    let mut events = Vec::new();
    let mut in_flight: Vec<usize> = Vec::new();
    let mut widest = 0;
    loop {
        while let Some(call) = sched.spawn_next() {
            events.push(format!("running {}", md.task_of_call(call).unwrap().name.item));
            in_flight.push(call);
        }
        widest = widest.max(in_flight.len());
        if in_flight.is_empty() {
            break;
        }
        let done = in_flight.remove(0);
        events.push(format!("done {}", md.task_of_call(done).unwrap().name.item));
        assert!(sched.finish(done, true).is_empty());
    }
    assert!(sched.is_done());
    (events, widest)
}

fn plain_task(n: &str) -> Task {
    Task {
        name: name(n),
        kind: TaskKind::Global,
        flags: TaskFlags { concurrent: false },
        depends_decl_id: None,
        decl_body: None,
        run_body: Some(0),
    }
}

fn deps(ids: Vec<usize>) -> TaskCallMetadata {
    TaskCallMetadata { dependencies: ids, sources: vec![], artifacts: vec![] }
}

#[test]
fn linear_chain_runs_in_dependency_order() {
    // c depends on b, b depends on a
    let (state, root) = declare(&[("a", false, &[]), ("b", false, &[0]), ("c", false, &[1])], 2);
    let tree = generate_run_tree(root, &state.metadata);
    assert_eq!(task_names(&state.metadata, &tree.flatten()), vec!["a", "b", "c"]);
    let mut sched = Scheduler::from_run_tree(&tree, &state.metadata);
    let (events, widest) = simulate(&state.metadata, &mut sched);
    assert_eq!(
        events,
        vec!["running a", "done a", "running b", "done b", "running c", "done c"]
    );
    assert_eq!(widest, 1);
}

#[test]
fn every_transitive_dependency_is_populated() {
    let (state, root) =
        declare(&[("a", false, &[]), ("b", false, &[0]), ("c", false, &[0, 1])], 2);
    assert_eq!(next_unpopulated(&state.metadata, root), None);
    for call in 0..state.metadata.call_count() {
        assert!(state.metadata.get_task_call(call).unwrap().populated);
    }
    // c, its a, its b, and b's own a
    assert_eq!(state.metadata.call_count(), 4);
}

#[test]
fn diamond_runs_shared_call_once() {
    // d depends on b and c, which both depend on the same call of a
    let mut md: Metadata<()> = Metadata::new();
    for n in ["d", "b", "c", "a"] {
        md.register_task(plain_task(n)).unwrap();
    }
    for t in 0..4 {
        assert_eq!(md.register_task_call(t, Span::unknown(), ()), Some(t));
    }
    md.set_call_metadata(0, deps(vec![1, 2])).unwrap();
    md.set_call_metadata(1, deps(vec![3])).unwrap();
    md.set_call_metadata(2, deps(vec![3])).unwrap();
    md.set_call_metadata(3, deps(vec![])).unwrap();
    let tree = generate_run_tree(0, &md);
    assert_eq!(task_names(&md, &tree.flatten()), vec!["a", "b", "c", "d"]);
    let mut sched = Scheduler::from_run_tree(&tree, &md);
    let (events, _) = simulate(&md, &mut sched);
    let runs: Vec<&String> = events.iter().filter(|e| e.starts_with("running")).collect();
    assert_eq!(runs, vec!["running a", "running b", "running c", "running d"]);
}

#[test]
fn cycle_is_cut_in_the_run_tree() {
    let mut md: Metadata<()> = Metadata::new();
    md.register_task(plain_task("a")).unwrap();
    md.register_task(plain_task("b")).unwrap();
    md.register_task_call(0, Span::unknown(), ()).unwrap();
    md.register_task_call(1, Span::unknown(), ()).unwrap();
    md.set_call_metadata(0, deps(vec![1])).unwrap();
    md.set_call_metadata(1, deps(vec![0])).unwrap();
    let tree = generate_run_tree(0, &md);
    assert_eq!(tree.call_id, 0);
    assert_eq!(tree.children.len(), 1);
    assert!(tree.children[0].children.is_empty());
    assert_eq!(task_names(&md, &tree.flatten()), vec!["b", "a"]);
}

#[test]
fn concurrent_fan_out_overlaps() {
    let (state, root) = declare(
        &[("x", true, &[]), ("y", true, &[]), ("z", true, &[]), ("r", false, &[0, 1, 2])],
        3,
    );
    let tree = generate_run_tree(root, &state.metadata);
    let mut sched = Scheduler::from_run_tree(&tree, &state.metadata);
    let x = sched.spawn_next().unwrap();
    let y = sched.spawn_next().unwrap();
    let z = sched.spawn_next().unwrap();
    assert_eq!(sched.running_count(), 3);
    assert_eq!(sched.spawn_next(), None);
    sched.finish(y, true);
    assert_eq!(sched.spawn_next(), None);
    sched.finish(x, true);
    assert_eq!(sched.spawn_next(), None);
    sched.finish(z, true);
    let r = sched.spawn_next().unwrap();
    assert_eq!(state.metadata.task_of_call(r).unwrap().name.item, "r");
    sched.finish(r, true);
    assert!(sched.is_done());
}

#[test]
fn non_concurrent_task_is_a_barrier() {
    let (state, root) = declare(
        &[("a", true, &[]), ("b", false, &[]), ("c", true, &[]), ("root", false, &[0, 1, 2])],
        3,
    );
    let tree = generate_run_tree(root, &state.metadata);
    let md = &state.metadata;
    let mut sched = Scheduler::from_run_tree(&tree, md);
    let a = sched.spawn_next().unwrap();
    assert_eq!(md.task_of_call(a).unwrap().name.item, "a");
    // b must not start while a runs
    assert_eq!(sched.spawn_next(), None);
    sched.finish(a, true);
    let b = sched.spawn_next().unwrap();
    assert_eq!(md.task_of_call(b).unwrap().name.item, "b");
    // nothing starts while b runs
    assert_eq!(sched.spawn_next(), None);
    assert_eq!(sched.running_calls(), vec![b]);
    sched.finish(b, true);
    let c = sched.spawn_next().unwrap();
    assert_eq!(md.task_of_call(c).unwrap().name.item, "c");
    assert_eq!(sched.spawn_next(), None);
    sched.finish(c, true);
    let r = sched.spawn_next().unwrap();
    assert_eq!(md.task_of_call(r).unwrap().name.item, "root");
}

#[test]
fn failure_aborts_the_others() {
    let order = vec![
        ScheduledTask { call_id: 5, children: vec![], concurrent: true },
        ScheduledTask { call_id: 6, children: vec![], concurrent: true },
        ScheduledTask { call_id: 7, children: vec![], concurrent: true },
        ScheduledTask { call_id: 8, children: vec![5, 6, 7], concurrent: false },
    ];
    let mut sched = Scheduler::new(order);
    assert_eq!(sched.spawn_next(), Some(5));
    assert_eq!(sched.spawn_next(), Some(6));
    assert_eq!(sched.spawn_next(), Some(7));
    let mut aborted = sched.finish(6, false);
    aborted.sort();
    assert_eq!(aborted, vec![5, 7]);
    assert!(sched.is_failed());
    assert_eq!(sched.running_count(), 0);
    assert_eq!(sched.spawn_next(), None);
    assert!(!sched.is_done());
}

#[test]
fn flatten_and_locate() {
    let tree = RunNode {
        call_id: 0,
        children: vec![
            RunNode { call_id: 1, children: vec![RunNode::new(3)] },
            RunNode::new(2),
        ],
    };
    let ids: Vec<usize> = tree.flatten().iter().map(|n| n.call_id).collect();
    assert_eq!(ids, vec![3, 1, 2, 0]);
    assert_eq!(tree.locate(3).unwrap().call_id, 3);
    assert_eq!(tree.locate(1).unwrap().children.len(), 1);
    assert!(tree.locate(9).is_none());
}

#[test]
fn global_abort_stops_everything() {
    let order = vec![
        ScheduledTask { call_id: 1, children: vec![], concurrent: true },
        ScheduledTask { call_id: 2, children: vec![], concurrent: true },
        ScheduledTask { call_id: 3, children: vec![1, 2], concurrent: true },
    ];
    let mut sched = Scheduler::new(order);
    assert_eq!(sched.spawn_next(), Some(1));
    assert_eq!(sched.spawn_next(), Some(2));
    let mut aborted = sched.abort_all();
    aborted.sort();
    assert_eq!(aborted, vec![1, 2]);
    assert!(sched.is_failed());
    assert_eq!(sched.running_count(), 0);
    assert_eq!(sched.spawn_next(), None);
}

#[test]
fn children_follow_declaration_order() {
    let mut md: Metadata<()> = Metadata::new();
    for n in ["root", "first", "second", "third"] {
        md.register_task(plain_task(n)).unwrap();
    }
    for t in 0..4 {
        md.register_task_call(t, Span::unknown(), ()).unwrap();
    }
    md.set_call_metadata(0, deps(vec![3, 1, 2])).unwrap();
    md.set_call_metadata(2, deps(vec![1])).unwrap();
    let tree = generate_run_tree(0, &md);
    let children: Vec<usize> = tree.children.iter().map(|c| c.call_id).collect();
    // call 1 is reached first as a direct dependency, so it stays there
    assert_eq!(children, vec![3, 1, 2]);
    assert!(tree.children[2].children.is_empty());
    let ids: Vec<usize> = tree.flatten().iter().map(|n| n.call_id).collect();
    assert_eq!(ids, vec![3, 1, 2, 0]);
}

#[test]
fn next_unpopulated_walks_depth_first() {
    let mut md: Metadata<()> = Metadata::new();
    for n in ["a", "b", "c", "d", "e"] {
        md.register_task(plain_task(n)).unwrap();
    }
    for t in 0..5 {
        md.register_task_call(t, Span::unknown(), ()).unwrap();
    }
    // nothing populated: the root comes first
    assert_eq!(next_unpopulated(&md, 0), Some(0));
    md.set_call_metadata(0, deps(vec![1, 2])).unwrap();
    assert_eq!(next_unpopulated(&md, 0), Some(1));
    md.set_call_metadata(1, deps(vec![3])).unwrap();
    // the dependency of the first child comes before the second child
    assert_eq!(next_unpopulated(&md, 0), Some(3));
    md.set_call_metadata(3, deps(vec![])).unwrap();
    assert_eq!(next_unpopulated(&md, 0), Some(2));
    md.set_call_metadata(2, deps(vec![])).unwrap();
    // call 4 is not a dependency of the root
    assert_eq!(next_unpopulated(&md, 0), None);
    assert_eq!(next_unpopulated(&md, 4), Some(4));
}
