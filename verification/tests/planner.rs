use dynamic_workspaces::plan::{insertion_plan, plan_creation, resolve_pos, Position};
use dynamic_workspaces::workspace::WorkspaceInfo;

fn ws(id: i64, name: &str) -> WorkspaceInfo {
    WorkspaceInfo { id, monitor: "DP-1".to_string(), name: name.to_string() }
}

fn group_of_three() -> Vec<WorkspaceInfo> {
    vec![ws(10, ":00000"), ws(11, ":00001"), ws(12, ":00002")]
}

#[test]
fn create_at_start_shifts_every_name_up() {
    let group = group_of_three();
    let pos = resolve_pos(Position::Start, group.len(), ":", ":00001");
    assert_eq!(pos, 0);
    let plan = insertion_plan(":", &group, pos);
    let renamed: Vec<(i64, &str)> =
        plan.renames.iter().map(|r| (r.id, r.new_name.as_str())).collect();
    assert_eq!(renamed, vec![(10, ":00001"), (11, ":00002"), (12, ":00003")]);
    assert_eq!(plan.create_name, ":00000");
}

#[test]
fn create_at_next_shifts_only_the_tail() {
    let group = group_of_three();
    let pos = resolve_pos(Position::Next, group.len(), ":", ":00001");
    assert_eq!(pos, 2);
    let plan = insertion_plan(":", &group, pos);
    let renamed: Vec<(i64, &str)> =
        plan.renames.iter().map(|r| (r.id, r.new_name.as_str())).collect();
    assert_eq!(renamed, vec![(10, ":00000"), (11, ":00001"), (12, ":00003")]);
    assert_eq!(plan.create_name, ":00002");
}

#[test]
fn create_at_end_on_empty_group_issues_no_renames() {
    let group: Vec<WorkspaceInfo> = Vec::new();
    let pos = resolve_pos(Position::End, group.len(), ":", "web");
    assert_eq!(pos, 0);
    let plan = insertion_plan(":", &group, pos);
    assert_eq!(plan.renames.len(), 0);
    assert_eq!(plan.create_name, ":00000");
}

#[test]
fn create_at_end_appends() {
    let group = group_of_three();
    let pos = resolve_pos(Position::End, group.len(), ":", "web");
    assert_eq!(pos, 3);
    let plan = insertion_plan(":", &group, pos);
    let renamed: Vec<(i64, &str)> =
        plan.renames.iter().map(|r| (r.id, r.new_name.as_str())).collect();
    assert_eq!(renamed, vec![(10, ":00000"), (11, ":00001"), (12, ":00002")]);
    assert_eq!(plan.create_name, ":00003");
}

#[test]
fn previous_targets_the_active_index() {
    let group = group_of_three();
    assert_eq!(resolve_pos(Position::Previous, group.len(), ":", ":00001"), 1);
    assert_eq!(resolve_pos(Position::Previous, group.len(), ":", "web"), 0);
}

#[test]
fn next_falls_back_to_the_end_for_foreign_active_names() {
    let group = group_of_three();
    assert_eq!(resolve_pos(Position::Next, group.len(), ":", "web"), 3);
    assert_eq!(resolve_pos(Position::Next, group.len(), ":", "2"), 3);
}

#[test]
fn the_whole_creation_path_in_one_call() {
    // an unsorted snapshot with a foreign workspace and a second monitor
    let all = vec![
        ws(12, ":00002"),
        WorkspaceInfo { id: 99, monitor: "DP-2".to_string(), name: ":00000".to_string() },
        ws(10, ":00000"),
        ws(3, "web"),
        ws(11, ":00001"),
    ];
    let (group, plan) =
        plan_creation(&all, "DP-1", ":", Position::Next, ":00001").expect("in range");
    let group_names: Vec<&str> = group.iter().map(|w| w.name.as_str()).collect();
    assert_eq!(group_names, vec![":00000", ":00001", ":00002"]);
    let renamed: Vec<(i64, &str)> =
        plan.renames.iter().map(|r| (r.id, r.new_name.as_str())).collect();
    assert_eq!(renamed, vec![(10, ":00000"), (11, ":00001"), (12, ":00003")]);
    assert_eq!(plan.create_name, ":00002");
}

#[test]
fn creation_refuses_targets_beyond_the_padded_range() {
    let all = vec![ws(10, ":00000")];
    assert!(plan_creation(&all, "DP-1", ":", Position::Next, ":99999").is_none());
    assert!(plan_creation(&all, "DP-1", ":", Position::Previous, ":100000").is_none());
    let ok = plan_creation(&all, "DP-1", ":", Position::Previous, ":99999");
    assert!(ok.is_some());
}

#[test]
fn a_target_above_the_group_leaves_every_name_alone() {
    // an active workspace whose index exceeds the group size still resolves
    let all = vec![ws(10, ":00000")];
    let (_, plan) = plan_creation(&all, "DP-1", ":", Position::Next, ":00005").expect("in range");
    let renamed: Vec<(i64, &str)> =
        plan.renames.iter().map(|r| (r.id, r.new_name.as_str())).collect();
    assert_eq!(renamed, vec![(10, ":00000")]);
    assert_eq!(plan.create_name, ":00006");
}

#[test]
fn insertion_keeps_indices_dense() {
    let group = group_of_three();
    for pos in 0..=group.len() {
        let plan = insertion_plan(":", &group, pos);
        let mut indices: Vec<usize> = plan
            .renames
            .iter()
            .map(|r| dynamic_workspaces::codec::decode(":", &r.new_name).unwrap())
            .collect();
        indices.push(dynamic_workspaces::codec::decode(":", &plan.create_name).unwrap());
        indices.sort_unstable();
        assert_eq!(indices, vec![0, 1, 2, 3]);
    }
}

#[test]
fn insertion_keeps_relative_order() {
    let group = group_of_three();
    let pos: usize = 1;
    let plan = insertion_plan(":", &group, pos);
    for (i, r) in plan.renames.iter().enumerate() {
        let idx = dynamic_workspaces::codec::decode(":", &r.new_name).unwrap();
        if i < pos {
            assert_eq!(idx, i);
        } else {
            assert_eq!(idx, i + 1);
        }
    }
}
