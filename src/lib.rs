//! A meta-build engine: tasks declared by a build script form a graph of
//! task calls, which is flattened into an execution order and scheduled with
//! a bounded notion of concurrency.
//!
//! This crate holds the engine's rules: the metadata store, the declaration
//! scope protocol, the effects of the domain commands, run-tree construction,
//! the scheduler's decisions, the dirtiness policy and project discovery. The
//! scripting host, the file system and the worker pool are driven from outside
//! and hand their results to these functions as plain values.

pub mod commands;
pub mod dirty;
pub mod errors;
pub mod log;
pub mod metadata;
pub mod options;
pub mod populate;
pub mod project;
pub mod run_tree;
pub mod scheduler;
pub mod state;
