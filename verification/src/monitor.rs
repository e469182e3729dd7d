//! Monitor resolution: picking the monitor a request names.
//!
//! When no monitor is named, the compositor's currently active monitor is
//! used instead; fetching that is the surrounding program's part.

use crate::error::WsError;
use crate::order::str_eq;
use vstd::prelude::*;

verus! {

/// What the library needs to know of one monitor: its name and its
/// active workspace, as the compositor reports them.
pub struct MonitorInfo {
    /// The monitor's name.
    pub name: String,
    /// The id of the monitor's active workspace.
    pub active_workspace_id: i64,
    /// The name of the monitor's active workspace.
    pub active_workspace_name: String,
}

/// Finds the first monitor whose name equals `name` exactly, and fails
/// with `MonitorNotFound` when there is none.
pub fn resolve_monitor(monitors: &Vec<MonitorInfo>, name: &str) -> (r: Result<usize, WsError>)
    ensures
        r matches Ok(i) ==> 0 <= i < monitors@.len() && monitors@[i as int].name@ == name@
            && (forall|j: int| 0 <= j < i ==> (#[trigger] monitors@[j]).name@ != name@),
        r is Err ==> r == Err::<usize, WsError>(WsError::MonitorNotFound),
        r is Ok <==> exists|j: int| 0 <= j < monitors@.len() && (#[trigger] monitors@[j]).name@
            == name@,
{
    let mut i: usize = 0;
    while i < monitors.len()
        invariant
            0 <= i <= monitors@.len(),
            forall|j: int| 0 <= j < i ==> (#[trigger] monitors@[j]).name@ != name@,
        decreases monitors@.len() - i,
    {
        if str_eq(monitors[i].name.as_str(), name) {
            return Ok(i);
        }
        i += 1;
    }
    Err(WsError::MonitorNotFound)
}

} // verus!
