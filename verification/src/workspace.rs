//! Workspace snapshots and the ordered views the planner and locator work
//! on: filtering a snapshot down to one monitor (and, for the dynamic
//! group, one prefix) and sorting it ascending by name.

use crate::codec::has_prefix;
use crate::order::lex_leq;
use crate::order::lemma_lex_leq_total;
use crate::order::lemma_lex_leq_trans;
use crate::order::str_leq;
use crate::order::str_starts_with;
use crate::order::str_eq;
use vstd::prelude::*;
use vstd::seq_lib::to_multiset_insert;
use vstd::seq_lib::to_multiset_build;

verus! {

/// A read-only view of one compositor workspace at query time. The
/// compositor owns these; they are fetched fresh for every computation.
/// The owning monitor is identified by its name, as the compositor
/// reports it.
pub struct WorkspaceInfo {
    /// The compositor-assigned numeric id, stable for the workspace's
    /// lifetime and otherwise opaque.
    pub id: i64,
    /// The name of the monitor the workspace is on.
    pub monitor: String,
    /// The workspace's name.
    pub name: String,
}

impl Clone for WorkspaceInfo {
    /// Copies the snapshot, field for field.
    fn clone(&self) -> (r: Self)
        ensures
            r == *self,
    {
        WorkspaceInfo { id: self.id, monitor: self.monitor.clone(), name: self.name.clone() }
    }
}

/// Whether `w` sits on the monitor with the given name.
pub open spec fn on_monitor(w: WorkspaceInfo, monitor: Seq<char>) -> bool {
    w.monitor@ == monitor
}

/// Whether `w` belongs to the dynamic group of the given monitor and
/// prefix.
pub open spec fn is_dynamic(w: WorkspaceInfo, monitor: Seq<char>, prefix: Seq<char>) -> bool {
    w.monitor@ == monitor && has_prefix(w.name@, prefix)
}

/// Whether the workspaces are sorted ascending by name.
pub open spec fn sorted_by_name(s: Seq<WorkspaceInfo>) -> bool {
    forall|i: int, j: int|
        0 <= i < j < s.len() ==> lex_leq(#[trigger] s[i].name@, #[trigger] s[j].name@)
}

/// Filtering one more element keeps the filtered front and appends the
/// element exactly when it satisfies the predicate.
proof fn lemma_filter_take_step(s: Seq<WorkspaceInfo>, i: int, pred: spec_fn(WorkspaceInfo) -> bool)
    requires
        0 <= i < s.len(),
    ensures
        s.take(i + 1).filter(pred) == if pred(s[i]) {
            s.take(i).filter(pred).push(s[i])
        } else {
            s.take(i).filter(pred)
        },
{
    reveal_with_fuel(Seq::<_>::filter, 2);
    let t = s.take(i + 1);
    assert(t.drop_last() =~= s.take(i));
    assert(t.last() == s[i]);
    assert(t.filter(pred) == if pred(t.last()) {
        t.drop_last().filter(pred).push(t.last())
    } else {
        t.drop_last().filter(pred)
    });
}

/// Keeps the workspaces of one monitor, in their given order.
pub fn monitor_workspaces(all: &Vec<WorkspaceInfo>, monitor: &str) -> (r: Vec<WorkspaceInfo>)
    ensures
        r@ == all@.filter(|w: WorkspaceInfo| on_monitor(w, monitor@)),
{
    let ghost pred = |w: WorkspaceInfo| on_monitor(w, monitor@);
    let mut r: Vec<WorkspaceInfo> = Vec::new();
    let mut i: usize = 0;
    while i < all.len()
        invariant
            0 <= i <= all@.len(),
            pred == (|w: WorkspaceInfo| on_monitor(w, monitor@)),
            r@ == all@.take(i as int).filter(pred),
        decreases all@.len() - i,
    {
        let w = &all[i];
        if str_eq(w.monitor.as_str(), monitor) {
            r.push(w.clone());
        }
        proof {
            lemma_filter_take_step(all@, i as int, pred);
        }
        i += 1;
    }
    proof {
        assert(all@.take(all@.len() as int) =~= all@);
    }
    r
}

/// Keeps the dynamic workspaces of one monitor and prefix, in their given
/// order.
pub fn dynamic_workspaces(all: &Vec<WorkspaceInfo>, monitor: &str, prefix: &str) -> (r: Vec<
    WorkspaceInfo,
>)
    ensures
        r@ == all@.filter(|w: WorkspaceInfo| is_dynamic(w, monitor@, prefix@)),
{
    let ghost pred = |w: WorkspaceInfo| is_dynamic(w, monitor@, prefix@);
    let mut r: Vec<WorkspaceInfo> = Vec::new();
    let mut i: usize = 0;
    while i < all.len()
        invariant
            0 <= i <= all@.len(),
            pred == (|w: WorkspaceInfo| is_dynamic(w, monitor@, prefix@)),
            r@ == all@.take(i as int).filter(pred),
        decreases all@.len() - i,
    {
        let w = &all[i];
        if str_eq(w.monitor.as_str(), monitor) && str_starts_with(w.name.as_str(), prefix) {
            r.push(w.clone());
        }
        proof {
            lemma_filter_take_step(all@, i as int, pred);
        }
        i += 1;
    }
    proof {
        assert(all@.take(all@.len() as int) =~= all@);
    }
    r
}

/// Sorts workspaces ascending by name. The result holds exactly the given
/// snapshots.
pub fn sort_by_name(v: &Vec<WorkspaceInfo>) -> (r: Vec<WorkspaceInfo>)
    ensures
        sorted_by_name(r@),
        r@.to_multiset() == v@.to_multiset(),
        r@.len() == v@.len(),
{
    let mut r: Vec<WorkspaceInfo> = Vec::new();
    let mut i: usize = 0;
    proof {
        broadcast use to_multiset_build;
        broadcast use to_multiset_insert;

        assert(v@.take(0) =~= Seq::<WorkspaceInfo>::empty());
    }
    while i < v.len()
        invariant
            0 <= i <= v@.len(),
            sorted_by_name(r@),
            r@.to_multiset() == v@.take(i as int).to_multiset(),
            r@.len() == i,
        decreases v@.len() - i,
    {
        let x = v[i].clone();
        // find the first place whose entry the new one must precede
        let mut p: usize = 0;
        while p < r.len() && str_leq(r[p].name.as_str(), x.name.as_str())
            invariant
                0 <= p <= r@.len(),
                x == v@[i as int],
                i < v@.len(),
                sorted_by_name(r@),
                forall|q: int| 0 <= q < p ==> lex_leq(#[trigger] r@[q].name@, x.name@),
            decreases r@.len() - p,
        {
            p += 1;
        }
        proof {
            if p < r@.len() {
                lemma_lex_leq_total(r@[p as int].name@, x.name@);
                assert(lex_leq(x.name@, r@[p as int].name@));
            }
            let after = r@.insert(p as int, x);
            assert forall|a: int, b: int| 0 <= a < b < after.len() implies lex_leq(
                #[trigger] after[a].name@,
                #[trigger] after[b].name@,
            ) by {
                r@.insert_ensures(p as int, x);
                if a < p && b < p {
                } else if a == p {
                    // the new entry precedes everything from position p on
                    assert(after[b] == r@[b - 1]);
                    if b - 1 == p {
                        assert(lex_leq(x.name@, r@[p as int].name@));
                    } else {
                        assert(lex_leq(r@[p as int].name@, r@[b - 1].name@));
                        lemma_lex_leq_trans(x.name@, r@[p as int].name@, r@[b - 1].name@);
                    }
                } else if b == p {
                    assert(after[a] == r@[a]);
                    assert(lex_leq(r@[a].name@, x.name@));
                } else if a < p && b > p {
                    assert(after[a] == r@[a]);
                    assert(after[b] == r@[b - 1]);
                } else if a > p {
                    assert(after[a] == r@[a - 1]);
                    assert(after[b] == r@[b - 1]);
                }
            }
            broadcast use to_multiset_build;
            broadcast use to_multiset_insert;

            assert(v@.take(i + 1) =~= v@.take(i as int).push(v@[i as int]));
            assert(v@.take(i as int).push(v@[i as int]).to_multiset() =~= v@.take(
                i as int,
            ).to_multiset().insert(v@[i as int]));
            assert(r@.insert(p as int, x).to_multiset() == r@.to_multiset().insert(x));
        }
        r.insert(p, x);
        i += 1;
    }
    proof {
        assert(v@.take(v@.len() as int) =~= v@);
    }
    r
}

/// Extracts the dynamic group of one monitor and prefix: exactly the
/// workspaces of that monitor whose name carries the prefix, sorted
/// ascending by name.
pub fn find_dyn_workspaces(all: &Vec<WorkspaceInfo>, monitor: &str, prefix: &str) -> (r: Vec<
    WorkspaceInfo,
>)
    ensures
        sorted_by_name(r@),
        r@.to_multiset() == all@.filter(
            |w: WorkspaceInfo| is_dynamic(w, monitor@, prefix@),
        ).to_multiset(),
        r@.len() == all@.filter(|w: WorkspaceInfo| is_dynamic(w, monitor@, prefix@)).len(),
{
    let picked = dynamic_workspaces(all, monitor, prefix);
    sort_by_name(&picked)
}

/// Extracts the full workspace list of one monitor, sorted ascending by
/// name.
pub fn find_monitor_workspaces(all: &Vec<WorkspaceInfo>, monitor: &str) -> (r: Vec<WorkspaceInfo>)
    ensures
        sorted_by_name(r@),
        r@.to_multiset() == all@.filter(|w: WorkspaceInfo| on_monitor(w, monitor@)).to_multiset(),
        r@.len() == all@.filter(|w: WorkspaceInfo| on_monitor(w, monitor@)).len(),
{
    let picked = monitor_workspaces(all, monitor);
    sort_by_name(&picked)
}

} // verus!
