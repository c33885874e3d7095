use vstd::prelude::*;

verus! {

/// The fatal and per-command failures of the orchestrator core.
///
/// A `CacheError` is recovered locally by treating the fingerprint cache as
/// cold; the other variants surface to the caller.
#[derive(Debug)]
pub enum Error {
    /// Malformed configuration or an unresolved package-dependency name.
    ConfigError { message: String },
    /// A dependency cycle in the command graph or the package graph; `key`
    /// names an offending node.
    CycleError { key: String },
    /// A spawned process exited without success where success was required.
    ToolFailure { tool: String, code: Option<i32> },
    /// The persisted fingerprint mapping was unreadable or corrupt.
    CacheError { message: String },
    /// A file or spawn failure, fatal for the owning command.
    IoError { message: String },
}

} // verus!
