use dynamic_workspaces::error::WsError;
use dynamic_workspaces::monitor::{resolve_monitor, MonitorInfo};
use dynamic_workspaces::order::{str_eq, str_leq, str_starts_with};
use dynamic_workspaces::workspace::{dynamic_workspaces, find_dyn_workspaces,
    find_monitor_workspaces, monitor_workspaces, sort_by_name, WorkspaceInfo};

fn ws(id: i64, monitor: &str, name: &str) -> WorkspaceInfo {
    WorkspaceInfo { id, monitor: monitor.to_string(), name: name.to_string() }
}

fn names(list: &[WorkspaceInfo]) -> Vec<&str> {
    list.iter().map(|w| w.name.as_str()).collect()
}

#[test]
fn dynamic_workspaces_keeps_only_the_prefixed_ones_of_the_monitor() {
    let all = vec![
        ws(1, "DP-1", ":00001"),
        ws(2, "DP-2", ":00000"),
        ws(3, "DP-1", "web"),
        ws(4, "DP-1", ":00000"),
    ];
    let picked = dynamic_workspaces(&all, "DP-1", ":");
    assert_eq!(names(&picked), vec![":00001", ":00000"]);
}

#[test]
fn monitor_workspaces_keeps_every_name_of_the_monitor() {
    let all = vec![ws(1, "DP-1", ":00001"), ws(2, "DP-2", ":00000"), ws(3, "DP-1", "web")];
    let picked = monitor_workspaces(&all, "DP-1");
    assert_eq!(names(&picked), vec![":00001", "web"]);
}

#[test]
fn sorting_is_ascending_by_name() {
    let list = vec![ws(1, "DP-1", "web"), ws(2, "DP-1", "1"), ws(3, "DP-1", ":00002"),
        ws(4, "DP-1", "2"), ws(5, "DP-1", ":00000")];
    let sorted = sort_by_name(&list);
    assert_eq!(names(&sorted), vec!["1", "2", ":00000", ":00002", "web"]);
}

#[test]
fn sorting_dynamic_names_matches_numeric_order() {
    let list = vec![ws(1, "DP-1", ":00010"), ws(2, "DP-1", ":00002"), ws(3, "DP-1", ":00000")];
    let sorted = sort_by_name(&list);
    assert_eq!(names(&sorted), vec![":00000", ":00002", ":00010"]);
}

#[test]
fn extraction_filters_and_sorts_in_one_step() {
    let all = vec![
        ws(1, "DP-1", ":00002"),
        ws(2, "DP-2", ":00000"),
        ws(3, "DP-1", "web"),
        ws(4, "DP-1", ":00000"),
        ws(5, "DP-1", ":00001"),
    ];
    let group = find_dyn_workspaces(&all, "DP-1", ":");
    assert_eq!(names(&group), vec![":00000", ":00001", ":00002"]);
    let full = find_monitor_workspaces(&all, "DP-1");
    assert_eq!(names(&full), vec![":00000", ":00001", ":00002", "web"]);
}

#[test]
fn resolve_monitor_matches_exactly() {
    let monitors = vec![
        MonitorInfo {
            name: "DP-1".to_string(),
            active_workspace_id: 7,
            active_workspace_name: ":00001".to_string(),
        },
        MonitorInfo {
            name: "HDMI-A-1".to_string(),
            active_workspace_id: 9,
            active_workspace_name: "web".to_string(),
        },
    ];
    assert_eq!(resolve_monitor(&monitors, "HDMI-A-1"), Ok(1));
    assert_eq!(resolve_monitor(&monitors, "DP-1"), Ok(0));
    assert_eq!(resolve_monitor(&monitors, "dp-1"), Err(WsError::MonitorNotFound));
    assert_eq!(resolve_monitor(&monitors, "DP"), Err(WsError::MonitorNotFound));
}

#[test]
fn string_helpers_compare_by_characters() {
    assert!(str_leq("", "a"));
    assert!(str_leq("a", "a"));
    assert!(str_leq("a", "ab"));
    assert!(!str_leq("ab", "a"));
    assert!(str_leq(":00001", ":00002"));
    assert!(!str_leq("b", "a"));
    assert!(str_eq("same", "same"));
    assert!(!str_eq("same", "samey"));
    assert!(str_starts_with(":00001", ":"));
    assert!(str_starts_with("anything", ""));
    assert!(!str_starts_with("web", ":"));
}
