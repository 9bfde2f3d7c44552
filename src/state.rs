//! The state shared with the scripting host: the metadata store, the
//! declaration scope that is active, and the diagnostics gathered while
//! parsing.
//!
//! The host keeps the id of the active scope in a script variable; it is
//! handed to these functions as `scope_var`, with a negative value meaning
//! that no scope is active.

use vstd::prelude::*;

use crate::errors::{QuakeError, Span};
use crate::metadata::{Metadata, TaskCallId, TaskCallMetadata};

verus! {

/// Identifier of a declaration scope.
pub type ScopeId = usize;

/// The value of the scope variable outside any declaration body.
pub const NO_SCOPE: i64 = -1;

/// The metadata that a declaration body has declared so far for its call.
#[derive(Debug)]
pub struct Scope {
    pub call_id: TaskCallId,
    pub metadata: TaskCallMetadata,
}

impl Scope {
    pub fn new(call_id: TaskCallId) -> (r: Scope)
        ensures
            r.call_id == call_id,
            r.metadata.is_empty_spec(),
    {
        Scope { call_id, metadata: TaskCallMetadata::new() }
    }
}

pub struct State<A> {
    pub metadata: Metadata<A>,
    /// The declaration scope that is open, if any.
    pub active: Option<Scope>,
    /// The id of the open scope.
    pub active_id: ScopeId,
    /// The id the next scope will get; ids are never reused.
    pub next_scope_id: ScopeId,
    /// Diagnostics recorded and not yet reported.
    pub errors: Vec<QuakeError>,
}

impl<A> State<A> {
    pub open spec fn spec_active(&self) -> Option<Scope> {
        self.active
    }

    pub open spec fn spec_active_id(&self) -> ScopeId {
        self.active_id
    }

    pub open spec fn spec_next_scope_id(&self) -> ScopeId {
        self.next_scope_id
    }

    pub open spec fn spec_errors(&self) -> Seq<QuakeError> {
        self.errors@
    }

    /// `scope_var` names the declaration scope that is active.
    pub open spec fn scope_active(&self, scope_var: i64) -> bool {
        &&& self.spec_active().is_some()
        &&& scope_var >= 0
        &&& scope_var == self.spec_active_id()
    }

    /// The active scope belongs to a registered call and refers to
    /// registered calls only.
    pub open spec fn wf(&self) -> bool {
        &&& self.metadata.wf()
        &&& self.spec_active().is_some() ==> {
            let s = self.spec_active().unwrap();
            &&& s.call_id < self.metadata.spec_calls().len()
            &&& self.metadata.deps_valid(s.metadata.dependencies@)
            &&& self.spec_active_id() < self.spec_next_scope_id()
        }
    }

    /// `new` is `old` with the same store, scopes and diagnostics.
    pub open spec fn same_scopes(old: Self, new: Self) -> bool {
        &&& new.spec_active() == old.spec_active()
        &&& new.spec_active_id() == old.spec_active_id()
        &&& new.spec_next_scope_id() == old.spec_next_scope_id()
        &&& new.spec_errors() == old.spec_errors()
    }

    pub fn new() -> (r: Self)
        ensures
            r.wf(),
            r.spec_active().is_none(),
            r.spec_errors().len() == 0,
            r.metadata.spec_tasks().len() == 0,
            r.metadata.spec_calls().len() == 0,
    {
        State {
            metadata: Metadata::new(),
            active: None,
            active_id: 0,
            next_scope_id: 0,
            errors: Vec::new(),
        }
    }

    /// Record a diagnostic to be reported with the others of the same pass.
    pub fn error(&mut self, error: QuakeError)
        ensures
            final(self).spec_errors() == old(self).spec_errors().push(error),
            final(self).metadata == old(self).metadata,
            final(self).spec_active() == old(self).spec_active(),
            final(self).spec_active_id() == old(self).spec_active_id(),
            final(self).spec_next_scope_id() == old(self).spec_next_scope_id(),
    {
        self.errors.push(error);
    }

    pub fn errors(&self) -> (r: &Vec<QuakeError>)
        ensures
            r@ == self.spec_errors(),
    {
        &self.errors
    }

    /// Hand out the recorded diagnostics, leaving none behind.
    pub fn take_errors(&mut self) -> (r: Vec<QuakeError>)
        ensures
            r@ == old(self).spec_errors(),
            final(self).spec_errors().len() == 0,
            final(self).metadata == old(self).metadata,
            final(self).spec_active() == old(self).spec_active(),
            final(self).spec_active_id() == old(self).spec_active_id(),
            final(self).spec_next_scope_id() == old(self).spec_next_scope_id(),
    {
        let mut out: Vec<QuakeError> = Vec::new();
        std::mem::swap(&mut out, &mut self.errors);
        out
    }

    pub fn is_scope_active(&self, scope_var: i64) -> (r: bool)
        ensures
            r == self.scope_active(scope_var),
    {
        match &self.active {
            Some(_) => scope_var >= 0 && scope_var as u64 == self.active_id as u64,
            None => false,
        }
    }

    /// Fail with `InvalidScope` unless `scope_var` names the active scope.
    pub fn check_in_scope(&self, scope_var: i64, span: Span) -> (r: Result<(), QuakeError>)
        ensures
            r.is_ok() == self.scope_active(scope_var),
            r.is_err() ==> r == Err::<(), QuakeError>(QuakeError::InvalidScope { span }),
    {
        if self.is_scope_active(scope_var) {
            Ok(())
        } else {
            Err(QuakeError::InvalidScope { span })
        }
    }

    /// The call whose metadata the active scope declares.
    pub fn scope_call_id(&self, scope_var: i64, span: Span) -> (r: Result<TaskCallId, QuakeError>)
        ensures
            self.scope_active(scope_var) ==> r == Ok::<TaskCallId, QuakeError>(
                self.spec_active().unwrap().call_id,
            ),
            !self.scope_active(scope_var) ==> r == Err::<TaskCallId, QuakeError>(
                QuakeError::InvalidScope { span },
            ),
    {
        if !self.is_scope_active(scope_var) {
            return Err(QuakeError::InvalidScope { span });
        }
        match &self.active {
            Some(scope) => Ok(scope.call_id),
            None => Err(QuakeError::InvalidScope { span }),
        }
    }

    /// What the active scope has declared so far.
    pub fn scope_metadata(&self, scope_var: i64, span: Span) -> (r: Result<
        &TaskCallMetadata,
        QuakeError,
    >)
        ensures
            self.scope_active(scope_var) ==> r.is_ok() && *r->Ok_0
                == self.spec_active().unwrap().metadata,
            !self.scope_active(scope_var) ==> r.is_err() && r->Err_0 == (QuakeError::InvalidScope {
                span,
            }),
    {
        if !self.is_scope_active(scope_var) {
            return Err(QuakeError::InvalidScope { span });
        }
        match &self.active {
            Some(scope) => Ok(&scope.metadata),
            None => Err(QuakeError::InvalidScope { span }),
        }
    }

    /// Enter the declaration body of `call_id`: open a fresh scope bound to
    /// it. Scopes do not nest. Returns the new value of the scope variable.
    pub fn push_scope(&mut self, call_id: TaskCallId, scope_var: i64, span: Span) -> (r: Result<
        i64,
        QuakeError,
    >)
        requires
            old(self).wf(),
        ensures
            final(self).wf(),
            final(self).metadata == old(self).metadata,
            final(self).spec_errors() == old(self).spec_errors(),
            (scope_var >= 0 || old(self).spec_active().is_some()) ==> r == Err::<i64, QuakeError>(
                QuakeError::NestedScopes { span },
            ),
            r.is_ok() <==> {
                &&& scope_var < 0
                &&& old(self).spec_active().is_none()
                &&& call_id < old(self).metadata.spec_calls().len()
                &&& old(self).spec_next_scope_id() < i64::MAX
                &&& old(self).spec_next_scope_id() < usize::MAX
            },
            r.is_ok() ==> {
                &&& r->Ok_0 == old(self).spec_next_scope_id()
                &&& final(self).scope_active(r->Ok_0)
                &&& final(self).spec_active().unwrap().call_id == call_id
                &&& final(self).spec_active().unwrap().metadata.is_empty_spec()
                &&& final(self).spec_next_scope_id() == old(self).spec_next_scope_id() + 1
            },
            r.is_err() ==> State::same_scopes(*old(self), *final(self)),
    {
        if scope_var >= 0 || self.active.is_some() {
            return Err(QuakeError::NestedScopes { span });
        }
        if call_id >= self.metadata.call_count() {
            return Err(QuakeError::Internal { message: "scope for an unknown task call".to_owned() });
        }
        if self.next_scope_id as u64 >= i64::MAX as u64 || self.next_scope_id == usize::MAX {
            return Err(QuakeError::Internal { message: "too many declaration scopes".to_owned() });
        }
        let id = self.next_scope_id;
        self.active = Some(Scope::new(call_id));
        self.active_id = id;
        self.next_scope_id = id + 1;
        Ok(id as i64)
    }

    /// Leave the active scope, handing back what it declared.
    pub fn pop_scope(&mut self, scope_var: i64, span: Span) -> (r: Result<Scope, QuakeError>)
        requires
            old(self).wf(),
        ensures
            final(self).wf(),
            final(self).metadata == old(self).metadata,
            final(self).spec_errors() == old(self).spec_errors(),
            final(self).spec_next_scope_id() == old(self).spec_next_scope_id(),
            old(self).scope_active(scope_var) ==> r == Ok::<Scope, QuakeError>(
                old(self).spec_active().unwrap(),
            ) && final(self).spec_active().is_none(),
            !old(self).scope_active(scope_var) ==> r == Err::<Scope, QuakeError>(
                QuakeError::InvalidScope { span },
            ) && State::same_scopes(*old(self), *final(self)),
    {
        if !self.is_scope_active(scope_var) {
            return Err(QuakeError::InvalidScope { span });
        }
        match self.active.take() {
            Some(scope) => Ok(scope),
            None => Err(QuakeError::InvalidScope { span }),
        }
    }

    /// Leave the active scope and install what it declared as the metadata
    /// of its call. Returns that call.
    pub fn commit_scope(&mut self, scope_var: i64, span: Span) -> (r: Result<
        TaskCallId,
        QuakeError,
    >)
        requires
            old(self).wf(),
        ensures
            final(self).wf(),
            final(self).metadata.spec_tasks() == old(self).metadata.spec_tasks(),
            final(self).spec_errors() == old(self).spec_errors(),
            !old(self).scope_active(scope_var) ==> r == Err::<TaskCallId, QuakeError>(
                QuakeError::InvalidScope { span },
            ) && final(self).metadata == old(self).metadata,
            old(self).scope_active(scope_var) ==> final(self).spec_active().is_none() && ({
                let s = old(self).spec_active().unwrap();
                let calls = old(self).metadata.spec_calls();
                if calls[s.call_id as int].populated {
                    r.is_err() && r->Err_0.is_internal() && final(self).metadata.spec_calls()
                        == calls
                } else {
                    &&& r == Ok::<TaskCallId, QuakeError>(s.call_id)
                    &&& final(self).metadata.spec_calls() == calls.update(
                        s.call_id as int,
                        crate::metadata::TaskCall {
                            metadata: s.metadata,
                            populated: true,
                            ..calls[s.call_id as int]
                        },
                    )
                }
            }),
    {
        let scope = match self.pop_scope(scope_var, span) {
            Ok(scope) => scope,
            Err(e) => return Err(e),
        };
        let call_id = scope.call_id;
        match self.metadata.set_call_metadata(call_id, scope.metadata) {
            Ok(()) => Ok(call_id),
            Err(e) => Err(e),
        }
    }

    /// Append a dependency to the active scope.
    pub fn add_dependency(&mut self, scope_var: i64, span: Span, call_id: TaskCallId) -> (r: Result<
        (),
        QuakeError,
    >)
        requires
            old(self).wf(),
            call_id < old(self).metadata.spec_calls().len(),
        ensures
            final(self).wf(),
            final(self).metadata == old(self).metadata,
            final(self).spec_errors() == old(self).spec_errors(),
            final(self).spec_active_id() == old(self).spec_active_id(),
            final(self).spec_next_scope_id() == old(self).spec_next_scope_id(),
            old(self).scope_active(scope_var) ==> r.is_ok() && final(self).scope_active(scope_var)
                && ({
                let s = old(self).spec_active().unwrap();
                let t = final(self).spec_active().unwrap();
                &&& t.call_id == s.call_id
                &&& t.metadata.dependencies@ == s.metadata.dependencies@.push(call_id)
                &&& t.metadata.sources@ == s.metadata.sources@
                &&& t.metadata.artifacts@ == s.metadata.artifacts@
            }),
            !old(self).scope_active(scope_var) ==> r == Err::<(), QuakeError>(
                QuakeError::InvalidScope { span },
            ) && State::same_scopes(*old(self), *final(self)),
    {
        if !self.is_scope_active(scope_var) {
            return Err(QuakeError::InvalidScope { span });
        }
        match self.active.take() {
            Some(mut scope) => {
                scope.metadata.dependencies.push(call_id);
                self.active = Some(scope);
                Ok(())
            },
            None => Err(QuakeError::InvalidScope { span }),
        }
    }

    /// Append declared sources (when `artifacts` is false) or artifacts to
    /// the active scope.
    pub fn add_paths(&mut self, scope_var: i64, span: Span, paths: Vec<String>, artifacts: bool) -> (r:
        Result<(), QuakeError>)
        requires
            old(self).wf(),
        ensures
            final(self).wf(),
            final(self).metadata == old(self).metadata,
            final(self).spec_errors() == old(self).spec_errors(),
            final(self).spec_active_id() == old(self).spec_active_id(),
            final(self).spec_next_scope_id() == old(self).spec_next_scope_id(),
            old(self).scope_active(scope_var) ==> r.is_ok() && final(self).scope_active(scope_var)
                && ({
                let s = old(self).spec_active().unwrap();
                let t = final(self).spec_active().unwrap();
                &&& t.call_id == s.call_id
                &&& t.metadata.dependencies@ == s.metadata.dependencies@
                &&& t.metadata.sources@ == if artifacts {
                    s.metadata.sources@
                } else {
                    s.metadata.sources@ + paths@
                }
                &&& t.metadata.artifacts@ == if artifacts {
                    s.metadata.artifacts@ + paths@
                } else {
                    s.metadata.artifacts@
                }
            }),
            !old(self).scope_active(scope_var) ==> r == Err::<(), QuakeError>(
                QuakeError::InvalidScope { span },
            ) && State::same_scopes(*old(self), *final(self)),
    {
        if !self.is_scope_active(scope_var) {
            return Err(QuakeError::InvalidScope { span });
        }
        let mut paths = paths;
        match self.active.take() {
            Some(mut scope) => {
                if artifacts {
                    scope.metadata.artifacts.append(&mut paths);
                } else {
                    scope.metadata.sources.append(&mut paths);
                }
                self.active = Some(scope);
                Ok(())
            },
            None => Err(QuakeError::InvalidScope { span }),
        }
    }
}

} // verus!
