//! The insertion planner.
//!
//! Creating a dynamic workspace at a relative position works on the sorted
//! dynamic group of one monitor: resolve the position to a target index,
//! rename every workspace at or above that index one slot up, and create
//! the new workspace at the freed slot. The planner computes that command
//! sequence; the surrounding program issues it to the compositor in order,
//! renames first, create last.

use crate::codec::decoded;
use crate::codec::encode;
use crate::codec::encoded;
use crate::codec::lemma_codec_round_trip;
use crate::codec::decode;
use crate::workspace::find_dyn_workspaces;
use crate::workspace::is_dynamic;
use crate::workspace::sorted_by_name;
use crate::workspace::WorkspaceInfo;
use vstd::prelude::*;

verus! {

/// A relative position: against the dynamic group for creation, against
/// the full workspace list of the monitor for lookup. The two orderings
/// are distinct and must not be conflated.
#[derive(Clone, Copy, PartialEq, Eq, Structural, Debug)]
pub enum Position {
    /// Before every other workspace.
    Start,
    /// After every other workspace.
    End,
    /// Right after the current workspace.
    Next,
    /// Right before the current workspace.
    Previous,
}

/// One rename command of a plan: give the workspace with this id this new
/// name.
pub struct RenameStep {
    /// The compositor id of the workspace to rename.
    pub id: i64,
    /// Its new name.
    pub new_name: String,
}

/// An insertion plan: the renames to issue in order, then one create.
pub struct InsertionPlan {
    /// Renames of the existing dynamic workspaces, in ascending original
    /// index order.
    pub renames: Vec<RenameStep>,
    /// The name of the workspace to create once the renames are done.
    pub create_name: String,
}

/// The target index a position resolves to on a dynamic group of size `n`
/// with the given active workspace name: the start, one past the end, or
/// relative to the active workspace's own index when it is a decodable
/// member of the group.
pub open spec fn resolved_pos(
    position: Position,
    n: int,
    prefix: Seq<char>,
    active_name: Seq<char>,
) -> int {
    match position {
        Position::Start => 0,
        Position::End => n,
        Position::Next => match decoded(prefix, active_name) {
            Some(v) => v + 1,
            None => n,
        },
        Position::Previous => match decoded(prefix, active_name) {
            Some(v) => v,
            None => 0,
        },
    }
}

/// Where the workspace at sorted position `i` goes when the slot `pos` is
/// freed: positions below `pos` stay, the rest move one up.
pub open spec fn shifted_index(i: int, pos: int) -> int {
    if i < pos {
        i
    } else {
        i + 1
    }
}

/// Resolves a position to the target index for insertion into a dynamic
/// group of size `n`, given the monitor's active workspace name.
pub fn resolve_pos(position: Position, n: usize, prefix: &str, active_name: &str) -> (r: usize)
    requires
        position is Next && decoded(prefix@, active_name@) is Some ==> decoded(
            prefix@,
            active_name@,
        ).unwrap() < usize::MAX as int,
    ensures
        r as int == resolved_pos(position, n as int, prefix@, active_name@),
{
    match position {
        Position::Start => 0,
        Position::End => n,
        Position::Next => {
            match decode(prefix, active_name) {
                Some(v) => v + 1,
                None => n,
            }
        },
        Position::Previous => {
            match decode(prefix, active_name) {
                Some(v) => v,
                None => 0,
            }
        },
    }
}

/// Computes the insertion plan for a sorted dynamic group and a target
/// index: the workspace at sorted position `i` is renamed to the name of
/// index `i` when `i < pos` and of `i + 1` otherwise, in ascending order,
/// and the new workspace takes the name of index `pos`.
pub fn insertion_plan(prefix: &str, workspaces: &Vec<WorkspaceInfo>, pos: usize) -> (p:
    InsertionPlan)
    requires
        workspaces@.len() <= 99999,
        pos <= 99999,
    ensures
        p.renames@.len() == workspaces@.len(),
        forall|i: int|
            0 <= i < workspaces@.len() ==> (#[trigger] p.renames@[i]).id == workspaces@[i].id,
        forall|i: int|
            0 <= i < workspaces@.len() ==> (#[trigger] p.renames@[i]).new_name@ == encoded(
                prefix@,
                shifted_index(i, pos as int),
            ),
        p.create_name@ == encoded(prefix@, pos as int),
{
    let mut renames: Vec<RenameStep> = Vec::new();
    let mut i: usize = 0;
    while i < workspaces.len()
        invariant
            0 <= i <= workspaces@.len(),
            workspaces@.len() <= 99999,
            pos <= 99999,
            renames@.len() == i,
            forall|k: int| 0 <= k < i ==> (#[trigger] renames@[k]).id == workspaces@[k].id,
            forall|k: int|
                0 <= k < i ==> (#[trigger] renames@[k]).new_name@ == encoded(
                    prefix@,
                    shifted_index(k, pos as int),
                ),
        decreases workspaces@.len() - i,
    {
        let target: usize = if i < pos {
            i
        } else {
            i + 1
        };
        renames.push(RenameStep { id: workspaces[i].id, new_name: encode(prefix, target) });
        i += 1;
    }
    InsertionPlan { renames, create_name: encode(prefix, pos) }
}

/// The dynamic group of `all` for one monitor and prefix, as a sequence
/// predicate: what `plan_creation` extracts and plans over.
pub open spec fn dyn_group_of(
    all: Seq<WorkspaceInfo>,
    monitor: Seq<char>,
    prefix: Seq<char>,
) -> Seq<WorkspaceInfo> {
    all.filter(|w: WorkspaceInfo| is_dynamic(w, monitor, prefix))
}

/// Plans the whole creation path: extracts the sorted dynamic group of
/// the monitor, resolves the position against it, and computes the
/// renames and the create. Yields the group alongside the plan; yields
/// nothing when the group or the target index leaves the supported
/// five-digit range.
pub fn plan_creation(
    all: &Vec<WorkspaceInfo>,
    monitor: &str,
    prefix: &str,
    position: Position,
    active_name: &str,
) -> (r: Option<(Vec<WorkspaceInfo>, InsertionPlan)>)
    ensures
        r is Some <==> dyn_group_of(all@, monitor@, prefix@).len() <= 99999 && resolved_pos(
            position,
            dyn_group_of(all@, monitor@, prefix@).len() as int,
            prefix@,
            active_name@,
        ) <= 99999,
        r matches Some(g) ==> {
            let n = g.0@.len() as int;
            let pos = resolved_pos(position, n, prefix@, active_name@);
            &&& sorted_by_name(g.0@)
            &&& g.0@.to_multiset() == dyn_group_of(all@, monitor@, prefix@).to_multiset()
            &&& n == dyn_group_of(all@, monitor@, prefix@).len()
            &&& 0 <= pos <= 99999
            &&& g.1.renames@.len() == n
            &&& (forall|i: int| 0 <= i < n ==> (#[trigger] g.1.renames@[i]).id == g.0@[i].id)
            &&& (forall|i: int|
                0 <= i < n ==> (#[trigger] g.1.renames@[i]).new_name@ == encoded(
                    prefix@,
                    shifted_index(i, pos),
                ))
            &&& g.1.create_name@ == encoded(prefix@, pos)
        },
{
    let group = find_dyn_workspaces(all, monitor, prefix);
    let n = group.len();
    if n > 99999 {
        return None;
    }
    let pos_opt: Option<usize> = match position {
        Position::Start => Some(0),
        Position::End => Some(n),
        Position::Next => {
            match decode(prefix, active_name) {
                Some(v) => if v < 99999 {
                    Some(v + 1)
                } else {
                    None
                },
                None => Some(n),
            }
        },
        Position::Previous => {
            match decode(prefix, active_name) {
                Some(v) => if v <= 99999 {
                    Some(v)
                } else {
                    None
                },
                None => Some(0),
            }
        },
    };
    match pos_opt {
        Some(pos) => {
            let plan = insertion_plan(prefix, &group, pos);
            Some((group, plan))
        },
        None => None,
    }
}

/// Whether some original position lands on slot `k` once the slot `pos`
/// is freed in a group of size `n`.
pub open spec fn slot_filled(n: int, pos: int, k: int) -> bool {
    exists|i: int| 0 <= i < n && #[trigger] shifted_index(i, pos) == k
}

/// Law: the insertion plan keeps the group dense. For a group of size `n`
/// and a target in `[0, n]`, the shifted indices together with the freed
/// slot are exactly `{0, ..., n}`: the shift is injective, never hits the
/// freed slot, stays in range, and covers every other index.
pub proof fn lemma_insertion_preserves_density(n: int, pos: int)
    requires
        0 <= pos <= n,
    ensures
        forall|i: int, j: int|
            0 <= i < n && 0 <= j < n && i != j ==> shifted_index(i, pos) != shifted_index(j, pos),
        forall|i: int| 0 <= i < n ==> shifted_index(i, pos) != pos,
        forall|i: int| 0 <= i < n ==> 0 <= #[trigger] shifted_index(i, pos) <= n,
        forall|k: int| 0 <= k <= n && k != pos ==> #[trigger] slot_filled(n, pos, k),
{
    assert forall|k: int| 0 <= k <= n && k != pos implies #[trigger] slot_filled(n, pos, k) by {
        if k < pos {
            assert(shifted_index(k, pos) == k);
        } else {
            assert(shifted_index(k - 1, pos) == k);
        }
    }
}

/// The index a plan assigns to slot `i`: the shifted index of an existing
/// workspace, or the freed target for the final create.
pub open spec fn plan_slot(n: int, pos: int, i: int) -> int {
    if i < n {
        shifted_index(i, pos)
    } else {
        pos
    }
}

/// Whether some slot of a plan for a group of size `n` and target `pos`
/// is assigned the index `k`.
pub open spec fn plan_slot_assigned(n: int, pos: int, k: int) -> bool {
    exists|i: int| 0 <= i <= n && #[trigger] plan_slot(n, pos, i) == k
}

/// Law: after the plan's renames and create, the decoded indices of the
/// resulting names are exactly `{0, ..., n}`, with no duplicates. The
/// names are those the plan assigns: the shifted name for each of the `n`
/// existing workspaces, and the freed slot's name for the create.
pub proof fn lemma_plan_names_dense(prefix: Seq<char>, names: Seq<Seq<char>>, n: int, pos: int)
    requires
        0 <= pos <= n <= 99999,
        names.len() == n + 1,
        forall|i: int| 0 <= i < n ==> names[i] == encoded(prefix, shifted_index(i, pos)),
        names[n] == encoded(prefix, pos),
    ensures
        forall|i: int|
            0 <= i < names.len() ==> #[trigger] decoded(prefix, names[i]) == Some(
                plan_slot(n, pos, i),
            ),
        forall|i: int, j: int|
            0 <= i < j < names.len() ==> decoded(prefix, names[i]) != decoded(prefix, names[j]),
        forall|i: int| 0 <= i < names.len() ==> 0 <= #[trigger] plan_slot(n, pos, i) <= n,
        forall|k: int| 0 <= k <= n ==> #[trigger] plan_slot_assigned(n, pos, k),
{
    assert forall|i: int| 0 <= i < names.len() implies #[trigger] decoded(prefix, names[i])
        == Some(plan_slot(n, pos, i)) by {
        lemma_codec_round_trip(prefix, plan_slot(n, pos, i));
    }
    lemma_insertion_preserves_density(n, pos);
    assert forall|k: int| 0 <= k <= n implies #[trigger] plan_slot_assigned(n, pos, k) by {
        if k == pos {
            assert(plan_slot(n, pos, n) == k);
        } else {
            assert(slot_filled(n, pos, k));
            let i = choose|i: int| 0 <= i < n && #[trigger] shifted_index(i, pos) == k;
            assert(plan_slot(n, pos, i) == k);
        }
    }
}

/// Law: the insertion plan keeps relative order. Decoding the new names,
/// workspaces originally below the target keep their index and the rest
/// gain exactly one.
pub proof fn lemma_insertion_preserves_relative_order(prefix: Seq<char>, n: int, pos: int)
    requires
        0 <= pos <= n,
        n <= 99999,
        pos <= 99999,
    ensures
        forall|i: int|
            0 <= i < pos ==> decoded(prefix, encoded(prefix, #[trigger] shifted_index(i, pos)))
                == Some(i),
        forall|i: int|
            pos <= i < n ==> decoded(prefix, encoded(prefix, #[trigger] shifted_index(i, pos)))
                == Some(i + 1),
{
    assert forall|i: int| 0 <= i < pos implies decoded(
        prefix,
        encoded(prefix, #[trigger] shifted_index(i, pos)),
    ) == Some(i) by {
        lemma_codec_round_trip(prefix, i);
    }
    assert forall|i: int| pos <= i < n implies decoded(
        prefix,
        encoded(prefix, #[trigger] shifted_index(i, pos)),
    ) == Some(i + 1) by {
        lemma_codec_round_trip(prefix, i + 1);
    }
}

} // verus!
