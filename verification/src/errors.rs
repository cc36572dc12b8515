//! The error taxonomy of the process-management operations.

use vstd::prelude::*;

verus! {

/// Why an operation failed.  Everything a caller can recover from is
/// distinguished; the raw diagnostic text rides along for observability.
#[derive(Debug, Clone)]
pub enum ProcessError {
    /// The system process listing could not be taken at all; fatal for the
    /// whole tree-kill call.
    SnapshotUnavailable(String),
    /// A termination or query lacked privilege; the host may retry after
    /// requesting elevation.
    AccessDenied(String),
    /// The underlying system utility could not be invoked at all.
    ToolInvocationFailed(String),
    /// The root's own termination failed and the process still exists.
    TerminationFailed(String),
}

impl ProcessError {
    /// The diagnostic text carried by any variant.
    pub fn message(&self) -> (r: &str)
        ensures
            r@ == match self {
                ProcessError::SnapshotUnavailable(m) => m@,
                ProcessError::AccessDenied(m) => m@,
                ProcessError::ToolInvocationFailed(m) => m@,
                ProcessError::TerminationFailed(m) => m@,
            },
    {
        match self {
            ProcessError::SnapshotUnavailable(m) => m.as_str(),
            ProcessError::AccessDenied(m) => m.as_str(),
            ProcessError::ToolInvocationFailed(m) => m.as_str(),
            ProcessError::TerminationFailed(m) => m.as_str(),
        }
    }
}

} // verus!
