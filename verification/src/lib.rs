//! Build/task orchestrator core for a multi-package workspace: a command
//! dependency graph with cycle detection, a package dependency graph with
//! deterministic ordering, a scheduler that honors run-until semantics, a
//! content-fingerprint cache, and a process-supervision model.

pub mod cmd;
pub mod dep_graph;
pub mod errors;
pub mod fix;
pub mod fingerprint;
pub mod package;
pub mod process;
pub mod scheduler;
pub mod setup;
pub mod workspace;
