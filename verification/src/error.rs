//! The failures this library can report. Transport failures of the
//! compositor connection are not among them: those arise and are handled
//! in the program around the library.

use vstd::prelude::*;
use vstd::string::*;

verus! {

/// Why a computation could not produce a result.
#[derive(Clone, Copy, PartialEq, Eq, Structural, Debug)]
pub enum WsError {
    /// A monitor was named, and no monitor matches the name exactly.
    MonitorNotFound,
    /// The monitor's active workspace id is absent from the fetched
    /// workspace set: a race or a stale snapshot.
    ActiveWorkspaceNotFound,
    /// A relative lookup was asked of a monitor with no workspaces.
    EmptyWorkspaceSet,
}

impl WsError {
    /// A human-readable description of the failure.
    pub fn message(&self) -> (r: String)
        ensures
            *self is MonitorNotFound ==> r@ == "monitor not found"@,
            *self is ActiveWorkspaceNotFound ==> r@ == "active workspace not found"@,
            *self is EmptyWorkspaceSet ==> r@ == "no workspaces on the monitor"@,
    {
        match self {
            WsError::MonitorNotFound => String::from_str("monitor not found"),
            WsError::ActiveWorkspaceNotFound => String::from_str("active workspace not found"),
            WsError::EmptyWorkspaceSet => String::from_str("no workspaces on the monitor"),
        }
    }
}

} // verus!
