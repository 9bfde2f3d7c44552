//! The metadata store: tasks, task calls and the declarative metadata of each
//! call, addressed by dense indices.

use vstd::prelude::*;

use crate::errors::{QuakeError, Span, Spanned};

verus! {

/// Index of a task in the store.
pub type TaskId = usize;

/// Index of a task call in the store.
pub type TaskCallId = usize;

/// Identifier of a block or closure in the scripting host.
pub type BlockId = usize;

/// Identifier of a command declaration in the scripting host.
pub type DeclId = usize;

#[derive(Debug, Clone, Copy, PartialEq, Eq, Structural)]
pub struct TaskFlags {
    /// Whether the task may run alongside other concurrent tasks.
    pub concurrent: bool,
}

/// Where a task was defined.
#[derive(Debug, Clone, Copy, PartialEq, Eq, Structural)]
pub enum TaskKind {
    /// Defined by `def-task` at the top level of the build script.
    Global,
    /// Defined by `subtask` inside a declaration body.
    Subtask,
}

/// A task as declared by the build script. Never changed once registered.
#[derive(Debug, Clone, PartialEq, Eq)]
pub struct Task {
    pub name: Spanned<String>,
    pub kind: TaskKind,
    pub flags: TaskFlags,
    /// The hidden `depends <name>` command that calls the task.
    pub depends_decl_id: Option<DeclId>,
    pub decl_body: Option<BlockId>,
    pub run_body: Option<BlockId>,
}

/// What a call's declaration body declared.
#[derive(Debug, Clone, PartialEq, Eq)]
pub struct TaskCallMetadata {
    pub dependencies: Vec<TaskCallId>,
    pub sources: Vec<String>,
    pub artifacts: Vec<String>,
}

impl TaskCallMetadata {
    pub open spec fn is_empty_spec(&self) -> bool {
        &&& self.dependencies@.len() == 0
        &&& self.sources@.len() == 0
        &&& self.artifacts@.len() == 0
    }

    pub fn new() -> (r: TaskCallMetadata)
        ensures
            r.is_empty_spec(),
    {
        TaskCallMetadata { dependencies: Vec::new(), sources: Vec::new(), artifacts: Vec::new() }
    }
}

/// One invocation of a task, with the host's arguments `A` left unevaluated.
#[derive(Debug)]
pub struct TaskCall<A> {
    pub task_id: TaskId,
    pub span: Span,
    pub arguments: A,
    pub metadata: TaskCallMetadata,
    /// Whether the metadata has been written; it is written at most once.
    pub populated: bool,
}

/// The dependencies that a call declared.
pub open spec fn deps_of<A>(c: TaskCall<A>) -> Seq<TaskCallId> {
    c.metadata.dependencies@
}

/// The store of tasks and task calls. Ids are indices: they are handed out in
/// order, and an entry never moves or disappears.
pub struct Metadata<A> {
    tasks: Vec<Task>,
    task_calls: Vec<TaskCall<A>>,
}

impl<A> Metadata<A> {
    pub closed spec fn spec_tasks(&self) -> Seq<Task> {
        self.tasks@
    }

    pub closed spec fn spec_calls(&self) -> Seq<TaskCall<A>> {
        self.task_calls@
    }

    /// The first index of a task named `name`, if any.
    pub open spec fn first_named(tasks: Seq<Task>, name: Seq<char>, i: int) -> bool {
        &&& 0 <= i < tasks.len()
        &&& tasks[i].name.item@ == name
        &&& forall|j: int| 0 <= j < i ==> tasks[j].name.item@ != name
    }

    pub open spec fn has_task_named(&self, name: Seq<char>) -> bool {
        exists|i: int| 0 <= i < self.spec_tasks().len() && self.spec_tasks()[i].name.item@ == name
    }

    pub open spec fn valid_call(&self, c: int) -> bool {
        0 <= c < self.spec_calls().len()
    }

    /// Every dependency names a registered call.
    pub open spec fn deps_valid(&self, deps: Seq<TaskCallId>) -> bool {
        forall|j: int| 0 <= j < deps.len() ==> (#[trigger] deps[j]) < self.spec_calls().len()
    }

    pub open spec fn is_populated(&self, c: int) -> bool {
        self.valid_call(c) && self.spec_calls()[c].populated
    }

    /// The store's invariant: task names are unique, every call refers to a
    /// task and to registered dependencies, and an unpopulated call has no
    /// metadata yet.
    pub open spec fn wf(&self) -> bool {
        &&& forall|i: int, j: int|
            0 <= i < j < self.spec_tasks().len() ==> (#[trigger] self.spec_tasks()[i]).name.item@
                != (#[trigger] self.spec_tasks()[j]).name.item@
        &&& forall|c: int|
            0 <= c < self.spec_calls().len() ==> (#[trigger] self.spec_calls()[c]).task_id
                < self.spec_tasks().len()
        &&& forall|c: int|
            0 <= c < self.spec_calls().len() ==> self.deps_valid(
                deps_of(#[trigger] self.spec_calls()[c]),
            )
        &&& forall|c: int|
            0 <= c < self.spec_calls().len() && !(#[trigger] self.spec_calls()[c]).populated
                ==> self.spec_calls()[c].metadata.is_empty_spec()
    }

    /// `new` keeps every call of `old` as it was: ids are stable and calls
    /// only ever appended.
    pub open spec fn calls_extend(old: Seq<TaskCall<A>>, new: Seq<TaskCall<A>>) -> bool {
        &&& old.len() <= new.len()
        &&& forall|c: int| 0 <= c < old.len() ==> #[trigger] new[c] == old[c]
    }

    pub fn new() -> (r: Self)
        ensures
            r.wf(),
            r.spec_tasks().len() == 0,
            r.spec_calls().len() == 0,
    {
        Metadata { tasks: Vec::new(), task_calls: Vec::new() }
    }

    /// The number of registered calls.
    pub fn call_count(&self) -> (r: usize)
        ensures
            r == self.spec_calls().len(),
    {
        self.task_calls.len()
    }

    pub fn tasks(&self) -> (r: &Vec<Task>)
        ensures
            r@ == self.spec_tasks(),
    {
        &self.tasks
    }

    pub fn get_task(&self, task_id: TaskId) -> (r: Option<&Task>)
        ensures
            task_id < self.spec_tasks().len() ==> r == Some(&self.spec_tasks()[task_id as int]),
            task_id >= self.spec_tasks().len() ==> r.is_none(),
    {
        if task_id < self.tasks.len() {
            Some(&self.tasks[task_id])
        } else {
            None
        }
    }

    /// The id of the first task called `name`.
    pub fn find_task_id(&self, name: &str, span: Option<Span>) -> (r: Result<TaskId, QuakeError>)
        ensures
            match r {
                Ok(id) => Self::first_named(self.spec_tasks(), name@, id as int),
                Err(e) => !self.has_task_named(name@) && e.is_task_not_found(name@, span),
            },
    {
        let key = name.to_owned();
        let mut i: usize = 0;
        while i < self.tasks.len()
            invariant
                key@ == name@,
                i <= self.tasks@.len(),
                forall|j: int| 0 <= j < i ==> self.tasks@[j].name.item@ != name@,
            decreases self.tasks@.len() - i,
        {
            if self.tasks[i].name.item == key {
                return Ok(i);
            }
            i = i + 1;
        }
        Err(QuakeError::TaskNotFound { name: key, span })
    }

    /// The first task called `name`.
    pub fn find_task(&self, name: &str, span: Option<Span>) -> (r: Result<&Task, QuakeError>)
        ensures
            match r {
                Ok(t) => exists|i: int|
                    Self::first_named(self.spec_tasks(), name@, i) && *t == self.spec_tasks()[i],
                Err(e) => !self.has_task_named(name@) && e.is_task_not_found(name@, span),
            },
    {
        match self.find_task_id(name, span) {
            Ok(id) => Ok(&self.tasks[id]),
            Err(e) => Err(e),
        }
    }

    /// The id the next registered task will get.
    pub fn next_task_id(&self) -> (r: TaskId)
        ensures
            r == self.spec_tasks().len(),
    {
        self.tasks.len()
    }

    /// Add a task under a name that no task has yet.
    pub fn register_task(&mut self, task: Task) -> (r: Result<TaskId, QuakeError>)
        requires
            old(self).wf(),
        ensures
            final(self).wf(),
            final(self).spec_calls() == old(self).spec_calls(),
            match r {
                Ok(id) => {
                    &&& !old(self).has_task_named(task.name.item@)
                    &&& id == old(self).spec_tasks().len()
                    &&& final(self).spec_tasks() == old(self).spec_tasks().push(task)
                },
                Err(e) => {
                    &&& final(self).spec_tasks() == old(self).spec_tasks()
                    &&& exists|i: int|
                        {
                            &&& Self::first_named(old(self).spec_tasks(), task.name.item@, i)
                            &&& e.is_duplicate(
                                task.name.item@,
                                old(self).spec_tasks()[i].name.span,
                                task.name.span,
                            )
                        }
                },
            },
    {
        let key = task.name.item.clone();
        let mut i: usize = 0;
        while i < self.tasks.len()
            invariant
                self.wf(),
                self.tasks@ == old(self).tasks@,
                self.task_calls@ == old(self).task_calls@,
                key@ == task.name.item@,
                i <= self.tasks@.len(),
                forall|j: int| 0 <= j < i ==> self.tasks@[j].name.item@ != key@,
            decreases self.tasks@.len() - i,
        {
            if self.tasks[i].name.item == key {
                proof {
                    assert(Self::first_named(old(self).spec_tasks(), task.name.item@, i as int));
                }
                return Err(
                    QuakeError::TaskDuplicateDefinition {
                        name: key,
                        existing_span: self.tasks[i].name.span,
                        span: task.name.span,
                    },
                );
            }
            i = i + 1;
        }
        let id = self.tasks.len();
        self.tasks.push(task);
        proof {
            assert forall|a: int, b: int|
                0 <= a < b < self.tasks@.len() implies (#[trigger] self.tasks@[a]).name.item@
                != (#[trigger] self.tasks@[b]).name.item@ by {
                if b < old(self).tasks@.len() {
                    assert(old(self).tasks@[a] == self.tasks@[a]);
                    assert(old(self).tasks@[b] == self.tasks@[b]);
                }
            }
            assert forall|c: int| 0 <= c < self.task_calls@.len() implies (#[trigger] self.spec_calls()[c]).task_id < self.spec_tasks().len()
                && self.deps_valid(deps_of(self.spec_calls()[c])) && (!self.spec_calls()[c].populated
                ==> self.spec_calls()[c].metadata.is_empty_spec()) by {
                assert(old(self).spec_calls()[c] == self.spec_calls()[c]);
                assert(old(self).deps_valid(deps_of(old(self).spec_calls()[c])));
            }
        }
        Ok(id)
    }

    /// The task that the call `call_id` invokes.
    pub fn task_of_call(&self, call_id: TaskCallId) -> (r: Option<&Task>)
        requires
            self.wf(),
        ensures
            call_id < self.spec_calls().len() ==> r == Some(
                &self.spec_tasks()[self.spec_calls()[call_id as int].task_id as int],
            ),
            call_id >= self.spec_calls().len() ==> r.is_none(),
    {
        if call_id < self.task_calls.len() {
            Some(&self.tasks[self.task_calls[call_id].task_id])
        } else {
            None
        }
    }

    pub fn get_task_call(&self, call_id: TaskCallId) -> (r: Option<&TaskCall<A>>)
        ensures
            call_id < self.spec_calls().len() ==> r == Some(&self.spec_calls()[call_id as int]),
            call_id >= self.spec_calls().len() ==> r.is_none(),
    {
        if call_id < self.task_calls.len() {
            Some(&self.task_calls[call_id])
        } else {
            None
        }
    }

    /// Record a new call of `task_id`. A call is never merged with an
    /// identical earlier one: each gets an id of its own.
    pub fn register_task_call(&mut self, task_id: TaskId, span: Span, arguments: A) -> (r: Option<
        TaskCallId,
    >)
        requires
            old(self).wf(),
        ensures
            final(self).wf(),
            final(self).spec_tasks() == old(self).spec_tasks(),
            task_id >= old(self).spec_tasks().len() ==> r.is_none() && final(self).spec_calls()
                == old(self).spec_calls(),
            task_id < old(self).spec_tasks().len() ==> r.is_some() && r.unwrap() == old(
                self,
            ).spec_calls().len() && final(self).spec_calls().len() == old(self).spec_calls().len() + 1
                && Self::calls_extend(old(self).spec_calls(), final(self).spec_calls()) && ({
                let c = final(self).spec_calls().last();
                &&& c.task_id == task_id
                &&& c.span == span
                &&& c.arguments == arguments
                &&& !c.populated
                &&& c.metadata.is_empty_spec()
            }),
    {
        if task_id >= self.tasks.len() {
            return None;
        }
        let id = self.task_calls.len();
        let call = TaskCall {
            task_id,
            span,
            arguments,
            metadata: TaskCallMetadata::new(),
            populated: false,
        };
        self.task_calls.push(call);
        proof {
            assert forall|c: int| 0 <= c < self.task_calls@.len() implies self.deps_valid(
                deps_of(#[trigger] self.task_calls@[c]),
            ) by {
                if c < old(self).task_calls@.len() {
                    assert(old(self).deps_valid(deps_of(old(self).task_calls@[c])));
                }
            }
        }
        Some(id)
    }

    pub fn task_call_metadata(&self, call_id: TaskCallId) -> (r: Option<&TaskCallMetadata>)
        ensures
            call_id < self.spec_calls().len() ==> r == Some(
                &self.spec_calls()[call_id as int].metadata,
            ),
            call_id >= self.spec_calls().len() ==> r.is_none(),
    {
        if call_id < self.task_calls.len() {
            Some(&self.task_calls[call_id].metadata)
        } else {
            None
        }
    }

    /// Install the metadata of a call. This is the one write a call's
    /// metadata receives: a second one is refused and changes nothing.
    pub fn set_call_metadata(&mut self, call_id: TaskCallId, metadata: TaskCallMetadata) -> (r:
        Result<(), QuakeError>)
        requires
            old(self).wf(),
        ensures
            final(self).wf(),
            final(self).spec_tasks() == old(self).spec_tasks(),
            r.is_ok() <==> {
                &&& old(self).valid_call(call_id as int)
                &&& !old(self).spec_calls()[call_id as int].populated
                &&& old(self).deps_valid(metadata.dependencies@)
            },
            r.is_ok() ==> final(self).spec_calls() == old(self).spec_calls().update(
                call_id as int,
                TaskCall {
                    metadata,
                    populated: true,
                    ..old(self).spec_calls()[call_id as int]
                },
            ),
            r.is_err() ==> final(self).spec_calls() == old(self).spec_calls() && r->Err_0.is_internal(),
    {
        if call_id >= self.task_calls.len() {
            return Err(QuakeError::Internal { message: "unknown task call".to_owned() });
        }
        if self.task_calls[call_id].populated {
            return Err(
                QuakeError::Internal { message: "task call metadata written twice".to_owned() },
            );
        }
        let mut j: usize = 0;
        while j < metadata.dependencies.len()
            invariant
                self.wf(),
                self.tasks@ == old(self).tasks@,
                self.task_calls@ == old(self).task_calls@,
                j <= metadata.dependencies@.len(),
                forall|k: int| 0 <= k < j ==> metadata.dependencies@[k] < self.task_calls@.len(),
            decreases metadata.dependencies@.len() - j,
        {
            if metadata.dependencies[j] >= self.task_calls.len() {
                return Err(
                    QuakeError::Internal { message: "dependency on an unknown task call".to_owned() },
                );
            }
            j = j + 1;
        }
        let ghost old_calls = self.task_calls@;
        let call = &mut self.task_calls[call_id];
        call.metadata = metadata;
        call.populated = true;
        proof {
            assert forall|c: int| 0 <= c < self.task_calls@.len() implies self.deps_valid(
                deps_of(#[trigger] self.task_calls@[c]),
            ) by {
                if c != call_id {
                    assert(old(self).deps_valid(deps_of(old_calls[c])));
                }
            }
        }
        Ok(())
    }
}

} // verus!
