//! The effects of the build script's domain commands on the shared state.
//!
//! `def-task` registers a task while the script is parsed, at the top level.
//! `subtask`, `depends`, `sources` and `produces` may only run inside a
//! declaration body, and add to the metadata of the call whose body it is.

use vstd::prelude::*;

use crate::errors::{QuakeError, Span, Spanned};
use crate::metadata::{BlockId, DeclId, Metadata, Task, TaskCallId, TaskFlags, TaskId, TaskKind};
use crate::state::State;

verus! {

/// `def-task <name> [--concurrent] [--declarative] (params) {body} {body}`
pub struct DefTask;

/// `subtask <name> [--concurrent] {|input| body}`
pub struct Subtask;

/// `depends <task> <args...>`, as written in the script before it is
/// resolved to the hidden command of the named task.
pub struct Depends;

/// The hidden `depends <task>` command of one task.
pub struct DependsTask {
    pub task_id: TaskId,
}

/// `sources [paths]`
pub struct Sources;

/// `produces [paths]`
pub struct Produces;

/// Which of the bodies given to `def-task` is the declaration body and which
/// the run body.
pub open spec fn spec_task_bodies(bodies: Seq<BlockId>, declarative: bool, span: Span) -> Result<
    (Option<BlockId>, Option<BlockId>),
    QuakeError,
> {
    if bodies.len() == 0 {
        Err(QuakeError::TaskMissingBody { span })
    } else if bodies.len() == 1 {
        if declarative {
            Ok((Some(bodies[0]), None))
        } else {
            Ok((None, Some(bodies[0])))
        }
    } else if bodies.len() == 2 && !declarative {
        Ok((Some(bodies[0]), Some(bodies[1])))
    } else {
        Err(QuakeError::DeclTaskHasExtraBody { span })
    }
}

/// The store after a successful registration of `task` as a new task.
pub open spec fn registered<A>(old: Metadata<A>, new: Metadata<A>, task: Task, id: TaskId) -> bool {
    &&& !old.has_task_named(task.name.item@)
    &&& id == old.spec_tasks().len()
    &&& new.spec_tasks() == old.spec_tasks().push(task)
}

impl DefTask {
    /// Split the bodies of a task definition: `{a} {b}` declares with `a`
    /// and runs `b`; `{a}` only runs `a`, or only declares with it when the
    /// task is declarative.
    pub fn task_bodies(bodies: &Vec<BlockId>, declarative: bool, span: Span) -> (r: Result<
        (Option<BlockId>, Option<BlockId>),
        QuakeError,
    >)
        ensures
            r == spec_task_bodies(bodies@, declarative, span),
    {
        if bodies.len() == 0 {
            Err(QuakeError::TaskMissingBody { span })
        } else if bodies.len() == 1 {
            if declarative {
                Ok((Some(bodies[0]), None))
            } else {
                Ok((None, Some(bodies[0])))
            }
        } else if bodies.len() == 2 && !declarative {
            Ok((Some(bodies[0]), Some(bodies[1])))
        } else {
            Err(QuakeError::DeclTaskHasExtraBody { span })
        }
    }

    /// Register the task that a `def-task` call defines. This happens only at
    /// the top level of the script, outside any declaration body.
    pub fn run<A>(
        state: &mut State<A>,
        scope_var: i64,
        name: Spanned<String>,
        flags: TaskFlags,
        declarative: bool,
        bodies: &Vec<BlockId>,
        depends_decl_id: Option<DeclId>,
        span: Span,
    ) -> (r: Result<TaskId, QuakeError>)
        requires
            old(state).wf(),
        ensures
            final(state).wf(),
            final(state).metadata.spec_calls() == old(state).metadata.spec_calls(),
            State::same_scopes(*old(state), *final(state)),
            (scope_var >= 0 || old(state).spec_active().is_some()) ==> r == Err::<
                TaskId,
                QuakeError,
            >(QuakeError::NestedScopes { span }),
            r.is_ok() ==> scope_var < 0 && old(state).spec_active().is_none(),
            scope_var < 0 && old(state).spec_active().is_none() ==> match spec_task_bodies(
                bodies@,
                declarative,
                span,
            ) {
                Err(e) => r == Err::<TaskId, QuakeError>(e),
                Ok((decl_body, run_body)) => {
                    let task = Task {
                        name,
                        kind: TaskKind::Global,
                        flags,
                        depends_decl_id,
                        decl_body,
                        run_body,
                    };
                    &&& r.is_ok() <==> !old(state).metadata.has_task_named(name.item@)
                    &&& r.is_ok() ==> registered(
                        old(state).metadata,
                        final(state).metadata,
                        task,
                        r->Ok_0,
                    )
                    &&& r.is_err() ==> final(state).metadata.spec_tasks() == old(
                        state,
                    ).metadata.spec_tasks()
                },
            },
    {
        if scope_var >= 0 || state.active.is_some() {
            return Err(QuakeError::NestedScopes { span });
        }
        let (decl_body, run_body) = match Self::task_bodies(bodies, declarative, span) {
            Ok(b) => b,
            Err(e) => return Err(e),
        };
        let task = Task { name, kind: TaskKind::Global, flags, depends_decl_id, decl_body, run_body };
        state.metadata.register_task(task)
    }
}

impl Subtask {
    /// Register an anonymous task whose run body is `run_body`, a call of it
    /// carrying `arguments`, and make the active scope depend on that call.
    pub fn run<A>(
        state: &mut State<A>,
        scope_var: i64,
        name: Spanned<String>,
        flags: TaskFlags,
        run_body: BlockId,
        arguments: A,
        span: Span,
    ) -> (r: Result<TaskCallId, QuakeError>)
        requires
            old(state).wf(),
        ensures
            final(state).wf(),
            final(state).spec_errors() == old(state).spec_errors(),
            !old(state).scope_active(scope_var) ==> r == Err::<TaskCallId, QuakeError>(
                QuakeError::InvalidScope { span },
            ) && final(state).metadata == old(state).metadata,
            old(state).scope_active(scope_var) ==> (r.is_ok() <==> !old(
                state,
            ).metadata.has_task_named(name.item@)),
            r.is_ok() ==> {
                let task = Task {
                    name,
                    kind: TaskKind::Subtask,
                    flags,
                    depends_decl_id: None,
                    decl_body: None,
                    run_body: Some(run_body),
                };
                let c = r->Ok_0;
                let calls = final(state).metadata.spec_calls();
                &&& old(state).scope_active(scope_var)
                &&& final(state).scope_active(scope_var)
                &&& final(state).metadata.spec_tasks() == old(state).metadata.spec_tasks().push(
                    task,
                )
                &&& c == old(state).metadata.spec_calls().len()
                &&& calls.len() == c + 1
                &&& Metadata::calls_extend(old(state).metadata.spec_calls(), calls)
                &&& calls[c as int].task_id == old(state).metadata.spec_tasks().len()
                &&& calls[c as int].arguments == arguments
                &&& final(state).spec_active().unwrap().metadata.dependencies@ == old(
                    state,
                ).spec_active().unwrap().metadata.dependencies@.push(c)
            },
    {
        if !state.is_scope_active(scope_var) {
            return Err(QuakeError::InvalidScope { span });
        }
        let task = Task {
            name,
            kind: TaskKind::Subtask,
            flags,
            depends_decl_id: None,
            decl_body: None,
            run_body: Some(run_body),
        };
        let task_id = match state.metadata.register_task(task) {
            Ok(id) => id,
            Err(e) => return Err(e),
        };
        let call_id = match state.metadata.register_task_call(task_id, span, arguments) {
            Some(c) => c,
            None => return Err(QuakeError::Internal { message: "subtask was not registered".to_owned() }),
        };
        match state.add_dependency(scope_var, span, call_id) {
            Ok(()) => Ok(call_id),
            Err(e) => Err(e),
        }
    }
}

impl Depends {
    /// `depends` that was not resolved to a task's hidden command does
    /// nothing, but only inside a declaration body.
    pub fn run<A>(state: &State<A>, scope_var: i64, span: Span) -> (r: Result<(), QuakeError>)
        ensures
            r.is_ok() == state.scope_active(scope_var),
            r.is_err() ==> r == Err::<(), QuakeError>(QuakeError::InvalidScope { span }),
    {
        state.check_in_scope(scope_var, span)
    }

    /// The hidden command that a `depends <name>` in a declaration body is
    /// rewritten to: that of the first task called `name`.
    pub fn resolve<A>(metadata: &Metadata<A>, name: &Spanned<String>) -> (r: Result<
        DeclId,
        QuakeError,
    >)
        ensures
            match r {
                Ok(decl) => exists|i: int|
                    Metadata::<A>::first_named(metadata.spec_tasks(), name.item@, i)
                        && metadata.spec_tasks()[i].depends_decl_id == Some(decl),
                Err(e) => e.is_task_not_found(name.item@, Some(name.span)) && forall|i: int|
                    Metadata::<A>::first_named(metadata.spec_tasks(), name.item@, i)
                        ==> metadata.spec_tasks()[i].depends_decl_id.is_none(),
            },
    {
        match metadata.find_task(name.item.as_str(), Some(name.span)) {
            Ok(task) => match task.depends_decl_id {
                Some(decl) => Ok(decl),
                None => Err(
                    QuakeError::TaskNotFound { name: name.item.clone(), span: Some(name.span) },
                ),
            },
            Err(e) => Err(e),
        }
    }
}

impl DependsTask {
    /// The name of the hidden command of the task called `task_name`.
    pub fn command_name(task_name: &str) -> (r: String)
        ensures
            r@ == "depends "@ + task_name@,
    {
        let mut name = String::from_str("depends ");
        name.append(task_name);
        name
    }

    pub fn new(task_id: TaskId) -> (r: DependsTask)
        ensures
            r.task_id == task_id,
    {
        DependsTask { task_id }
    }

    /// Register a new call of the task with `arguments` and make the active
    /// scope depend on it.
    pub fn run<A>(&self, state: &mut State<A>, scope_var: i64, arguments: A, span: Span) -> (r:
        Result<TaskCallId, QuakeError>)
        requires
            old(state).wf(),
        ensures
            final(state).wf(),
            final(state).spec_errors() == old(state).spec_errors(),
            final(state).metadata.spec_tasks() == old(state).metadata.spec_tasks(),
            !old(state).scope_active(scope_var) ==> r == Err::<TaskCallId, QuakeError>(
                QuakeError::InvalidScope { span },
            ) && final(state).metadata == old(state).metadata,
            old(state).scope_active(scope_var) ==> (r.is_ok() <==> self.task_id < old(
                state,
            ).metadata.spec_tasks().len()),
            r.is_ok() ==> {
                let c = r->Ok_0;
                let calls = final(state).metadata.spec_calls();
                &&& old(state).scope_active(scope_var)
                &&& final(state).scope_active(scope_var)
                &&& c == old(state).metadata.spec_calls().len()
                &&& calls.len() == c + 1
                &&& Metadata::calls_extend(old(state).metadata.spec_calls(), calls)
                &&& calls[c as int].task_id == self.task_id
                &&& calls[c as int].span == span
                &&& calls[c as int].arguments == arguments
                &&& !calls[c as int].populated
                &&& final(state).spec_active().unwrap().metadata.dependencies@ == old(
                    state,
                ).spec_active().unwrap().metadata.dependencies@.push(c)
            },
    {
        if !state.is_scope_active(scope_var) {
            return Err(QuakeError::InvalidScope { span });
        }
        let call_id = match state.metadata.register_task_call(self.task_id, span, arguments) {
            Some(c) => c,
            None => return Err(QuakeError::Internal { message: "dependency on an unknown task".to_owned() }),
        };
        match state.add_dependency(scope_var, span, call_id) {
            Ok(()) => Ok(call_id),
            Err(e) => Err(e),
        }
    }
}

impl Sources {
    /// Declare files that the active scope's call reads.
    pub fn run<A>(state: &mut State<A>, scope_var: i64, paths: Vec<String>, span: Span) -> (r:
        Result<(), QuakeError>)
        requires
            old(state).wf(),
        ensures
            final(state).wf(),
            final(state).metadata == old(state).metadata,
            r.is_ok() == old(state).scope_active(scope_var),
            r.is_err() ==> r == Err::<(), QuakeError>(QuakeError::InvalidScope { span })
                && State::same_scopes(*old(state), *final(state)),
            r.is_ok() ==> final(state).spec_active().unwrap().metadata.sources@ == old(
                state,
            ).spec_active().unwrap().metadata.sources@ + paths@,
    {
        state.add_paths(scope_var, span, paths, false)
    }
}

impl Produces {
    /// Declare files that the active scope's call writes.
    pub fn run<A>(state: &mut State<A>, scope_var: i64, paths: Vec<String>, span: Span) -> (r:
        Result<(), QuakeError>)
        requires
            old(state).wf(),
        ensures
            final(state).wf(),
            final(state).metadata == old(state).metadata,
            r.is_ok() == old(state).scope_active(scope_var),
            r.is_err() ==> r == Err::<(), QuakeError>(QuakeError::InvalidScope { span })
                && State::same_scopes(*old(state), *final(state)),
            r.is_ok() ==> final(state).spec_active().unwrap().metadata.artifacts@ == old(
                state,
            ).spec_active().unwrap().metadata.artifacts@ + paths@,
    {
        state.add_paths(scope_var, span, paths, true)
    }
}

} // verus!
