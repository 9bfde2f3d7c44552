//! Diagnostics reported to the user and the engine's final error type.

use vstd::prelude::*;

verus! {

/// A byte range in a source file.
#[derive(Debug, Clone, Copy, PartialEq, Eq, Structural)]
pub struct Span {
    pub start: usize,
    pub end: usize,
}

impl Span {
    pub fn new(start: usize, end: usize) -> (r: Span)
        ensures
            r.start == start,
            r.end == end,
    {
        Span { start, end }
    }

    /// The span used where no source location is known.
    pub fn unknown() -> (r: Span)
        ensures
            r.start == 0,
            r.end == 0,
    {
        Span { start: 0, end: 0 }
    }
}

/// A value together with the span it was written at.
#[derive(Debug, Clone, PartialEq, Eq)]
pub struct Spanned<T> {
    pub item: T,
    pub span: Span,
}

/// A diagnostic raised while loading or evaluating a build script.
#[derive(Debug, Clone, PartialEq, Eq)]
#[allow(inconsistent_fields)]
pub enum QuakeError {
    /// No project root could be located.
    ProjectNotFound,
    /// A project root was found but holds no recognised build script.
    BuildScriptNotFound,
    /// A task was referenced by a name that no task has.
    TaskNotFound { name: String, span: Option<Span> },
    /// A task name was defined a second time.
    TaskDuplicateDefinition { name: String, existing_span: Span, span: Span },
    /// A declarative task was given both a declaration and a run body.
    DeclTaskHasExtraBody { span: Span },
    /// A task was defined without any body.
    TaskMissingBody { span: Span },
    /// A declaration-only command was used outside a declaration body.
    InvalidScope { span: Span },
    /// A declaration scope was entered while another one was active.
    NestedScopes { span: Span },
    /// A command-line configuration property was not of the form `KEY=VALUE`.
    InvalidConfigProperty { property: String },
    /// An invariant of the engine was violated.
    Internal { message: String },
}

impl QuakeError {
    pub open spec fn is_task_not_found(self, name: Seq<char>, span: Option<Span>) -> bool {
        match self {
            QuakeError::TaskNotFound { name: n, span: s } => n@ == name && s == span,
            _ => false,
        }
    }

    pub open spec fn is_duplicate(self, name: Seq<char>, existing_span: Span, span: Span) -> bool {
        match self {
            QuakeError::TaskDuplicateDefinition { name: n, existing_span: e, span: s } => n@
                == name && e == existing_span && s == span,
            _ => false,
        }
    }

    pub open spec fn is_internal(self) -> bool {
        self matches QuakeError::Internal { .. }
    }
}

/// Exit status for failures that the user caused (a failed task, I/O).
pub const CAUSE_USER: u8 = 1;

/// Exit status for failures of the build script or of its invocation.
pub const CAUSE_OTHER: u8 = 127;

/// Exit status for violated internal invariants (always a bug).
pub const CAUSE_INTERNAL: u8 = 255;

/// The reason the engine terminated unsuccessfully.
#[derive(Debug, Clone, PartialEq, Eq)]
pub enum EngineError {
    LoadFailed,
    ParseFailed,
    EvalFailed,
    TaskFailed { task_name: String },
    Internal { message: String },
    Other { message: String },
}

/// The process exit status that each engine error terminates with.
pub open spec fn spec_exit_code(e: EngineError) -> u8 {
    match e {
        EngineError::TaskFailed { .. } => CAUSE_USER,
        EngineError::Internal { .. } => CAUSE_INTERNAL,
        _ => CAUSE_OTHER,
    }
}

impl EngineError {
    pub fn internal(message: String) -> (r: EngineError)
        ensures
            r == (EngineError::Internal { message }),
    {
        EngineError::Internal { message }
    }

    /// The exit status of the process when the engine fails with this error.
    pub fn exit_code(&self) -> (r: u8)
        ensures
            r == spec_exit_code(*self),
    {
        match self {
            EngineError::LoadFailed | EngineError::ParseFailed | EngineError::EvalFailed
            | EngineError::Other { .. } => CAUSE_OTHER,
            EngineError::TaskFailed { .. } => CAUSE_USER,
            EngineError::Internal { .. } => CAUSE_INTERNAL,
        }
    }
}

/// The outcome of the command-line front end.
pub struct CliResult<T> {
    inner: Result<T, EngineError>,
}

impl<T> CliResult<T> {
    pub closed spec fn spec_inner(&self) -> Result<T, EngineError> {
        self.inner
    }

    pub fn new(inner: Result<T, EngineError>) -> (r: Self)
        ensures
            r.spec_inner() == inner,
    {
        CliResult { inner }
    }

    pub fn inner(&self) -> (r: &Result<T, EngineError>)
        ensures
            *r == self.spec_inner(),
    {
        &self.inner
    }

    /// The process exit status: zero on success, else that of the error.
    pub fn exit_code(&self) -> (r: u8)
        ensures
            r == match self.spec_inner() {
                Ok(_) => 0u8,
                Err(e) => spec_exit_code(e),
            },
    {
        match &self.inner {
            Ok(_) => 0,
            Err(e) => e.exit_code(),
        }
    }
}

impl CliResult<()> {
    pub fn success() -> (r: Self)
        ensures
            r.spec_inner() == Ok::<(), EngineError>(()),
    {
        CliResult { inner: Ok(()) }
    }
}

} // verus!
