//! The relative workspace locator.
//!
//! A lookup works on the full workspace list of one monitor, sorted
//! ascending by name: the start or end of that ordering, or the cyclic
//! neighbour of the workspace whose id is the monitor's active one.

use crate::error::WsError;
use crate::plan::Position;
use crate::workspace::WorkspaceInfo;
use vstd::arithmetic::div_mod::lemma_mod_add_multiples_vanish;
use vstd::arithmetic::div_mod::lemma_small_mod;
use vstd::prelude::*;
use vstd::string::*;

verus! {

/// The position of the first workspace with the given id, if any.
pub open spec fn first_index_with_id(s: Seq<WorkspaceInfo>, id: int) -> Option<int>
    decreases s.len(),
{
    if s.len() == 0 {
        None
    } else if s[0].id == id {
        Some(0)
    } else {
        match first_index_with_id(s.drop_first(), id) {
            Some(k) => Some(k + 1),
            None => None,
        }
    }
}

/// The first index with the given id is a match, everything before it is
/// not, and when there is none, nothing matches.
pub proof fn lemma_first_index_with_id(s: Seq<WorkspaceInfo>, id: int)
    ensures
        match first_index_with_id(s, id) {
            Some(k) => 0 <= k < s.len() && s[k].id == id && forall|j: int|
                0 <= j < k ==> (#[trigger] s[j]).id != id,
            None => forall|j: int| 0 <= j < s.len() ==> (#[trigger] s[j]).id != id,
        },
    decreases s.len(),
{
    if s.len() > 0 && s[0].id != id {
        lemma_first_index_with_id(s.drop_first(), id);
        match first_index_with_id(s.drop_first(), id) {
            Some(k0) => {
                assert(s.drop_first()[k0] == s[k0 + 1]);
                assert forall|j: int| 0 <= j < k0 + 1 implies (#[trigger] s[j]).id != id by {
                    if j > 0 {
                        assert(s.drop_first()[j - 1] == s[j]);
                    }
                }
            },
            None => {
                assert forall|j: int| 0 <= j < s.len() implies (#[trigger] s[j]).id != id by {
                    if j > 0 {
                        assert(s.drop_first()[j - 1] == s[j]);
                    }
                }
            },
        }
    }
}

/// What a lookup resolves to on the sorted list `s` with the given active
/// workspace id: nothing on an empty list; the first or last position for
/// the ends; the cyclic successor or predecessor of the active workspace's
/// position otherwise, or a failure when no workspace carries the active
/// id.
pub open spec fn located(s: Seq<WorkspaceInfo>, position: Position, active_id: int) -> Result<
    int,
    WsError,
> {
    let n = s.len() as int;
    if n == 0 {
        Err(WsError::EmptyWorkspaceSet)
    } else {
        match position {
            Position::Start => Ok(0),
            Position::End => Ok(n - 1),
            Position::Next => match first_index_with_id(s, active_id) {
                Some(k) => Ok((k + 1) % n),
                None => Err(WsError::ActiveWorkspaceNotFound),
            },
            Position::Previous => match first_index_with_id(s, active_id) {
                Some(k) => Ok((k - 1 + n) % n),
                None => Err(WsError::ActiveWorkspaceNotFound),
            },
        }
    }
}

/// Finds the position of the first workspace whose id is `id`.
fn scan_for_id(workspaces: &Vec<WorkspaceInfo>, id: i64) -> (r: Option<usize>)
    ensures
        r is Some <==> first_index_with_id(workspaces@, id as int) is Some,
        r matches Some(i) ==> first_index_with_id(workspaces@, id as int) == Some(i as int),
{
    let mut i: usize = 0;
    while i < workspaces.len()
        invariant
            0 <= i <= workspaces@.len(),
            forall|j: int| 0 <= j < i ==> (#[trigger] workspaces@[j]).id != id,
        decreases workspaces@.len() - i,
    {
        if workspaces[i].id == id {
            proof {
                lemma_first_index_with_id(workspaces@, id as int);
                match first_index_with_id(workspaces@, id as int) {
                    Some(k) => {
                        if k < i as int {
                            assert(workspaces@[k].id == id);
                        } else if k > i as int {
                            assert(workspaces@[i as int].id != id);
                        }
                    },
                    None => {
                        assert(workspaces@[i as int].id != id);
                    },
                }
            }
            return Some(i);
        }
        i += 1;
    }
    proof {
        lemma_first_index_with_id(workspaces@, id as int);
    }
    None
}

/// Resolves a lookup to the position, in the sorted list, of the workspace
/// the position names.
pub fn find_workspace_index(workspaces: &Vec<WorkspaceInfo>, position: Position, active_id: i64)
    -> (r: Result<usize, WsError>)
    ensures
        match located(workspaces@, position, active_id as int) {
            Ok(i) => r matches Ok(j) && j as int == i,
            Err(e) => r == Err::<usize, WsError>(e),
        },
{
    let n = workspaces.len();
    if n == 0 {
        return Err(WsError::EmptyWorkspaceSet);
    }
    match position {
        Position::Start => Ok(0),
        Position::End => Ok(n - 1),
        Position::Next => {
            match scan_for_id(workspaces, active_id) {
                Some(k) => {
                    proof {
                        lemma_first_index_with_id(workspaces@, active_id as int);
                    }
                    Ok((k + 1) % n)
                },
                None => Err(WsError::ActiveWorkspaceNotFound),
            }
        },
        Position::Previous => {
            match scan_for_id(workspaces, active_id) {
                Some(k) => {
                    proof {
                        lemma_first_index_with_id(workspaces@, active_id as int);
                        let ki = k as int;
                        let ni = n as int;
                        if ki == 0 {
                            lemma_mod_add_multiples_vanish(ki - 1, ni);
                            lemma_small_mod((ni - 1) as nat, ni as nat);
                            assert((ki - 1 + ni) % ni == ni - 1);
                        } else {
                            lemma_small_mod((ki - 1) as nat, ni as nat);
                            assert((ki - 1 + ni) % ni == ki - 1) by {
                                lemma_mod_add_multiples_vanish(ki - 1, ni);
                            }
                        }
                    }
                    if k == 0 {
                        Ok(n - 1)
                    } else {
                        Ok(k - 1)
                    }
                },
                None => Err(WsError::ActiveWorkspaceNotFound),
            }
        },
    }
}

/// Resolves a lookup and renders its result as the output line
/// `name:<workspace-name>`.
pub fn find_workspace_line(workspaces: &Vec<WorkspaceInfo>, position: Position, active_id: i64)
    -> (r: Result<String, WsError>)
    ensures
        match located(workspaces@, position, active_id as int) {
            Ok(i) => r matches Ok(line) && line@ == "name:"@ + workspaces@[i].name@,
            Err(e) => r == Err::<String, WsError>(e),
        },
{
    match find_workspace_index(workspaces, position, active_id) {
        Ok(i) => {
            let mut line = String::from_str("name:");
            line.append(workspaces[i].name.as_str());
            Ok(line)
        },
        Err(e) => Err(e),
    }
}

/// Law: the locator is cyclic. On a list of length `n`, the successor of
/// position `k` is the next position, wrapping from the last to the
/// first; the predecessor is the previous one, wrapping from the first to
/// the last; and with a single workspace both are `k` itself.
pub proof fn lemma_locator_cyclic(n: int, k: int)
    requires
        1 <= n,
        0 <= k < n,
    ensures
        0 <= (k + 1) % n < n,
        0 <= (k - 1 + n) % n < n,
        (k + 1) % n == if k == n - 1 {
            0
        } else {
            k + 1
        },
        (k - 1 + n) % n == if k == 0 {
            n - 1
        } else {
            k - 1
        },
        n == 1 ==> (k + 1) % n == k && (k - 1 + n) % n == k,
{
    if k == n - 1 {
        lemma_mod_add_multiples_vanish(0, n);
        lemma_small_mod(0nat, n as nat);
    } else {
        lemma_small_mod((k + 1) as nat, n as nat);
    }
    if k == 0 {
        lemma_mod_add_multiples_vanish(k - 1, n);
        lemma_small_mod((n - 1) as nat, n as nat);
    } else {
        lemma_mod_add_multiples_vanish(k - 1, n);
        lemma_small_mod((k - 1) as nat, n as nat);
    }
}

} // verus!
