use dynamic_workspaces::error::WsError;
use dynamic_workspaces::locator::{find_workspace_index, find_workspace_line};
use dynamic_workspaces::plan::Position;
use dynamic_workspaces::workspace::WorkspaceInfo;

fn ws(id: i64, name: &str) -> WorkspaceInfo {
    WorkspaceInfo { id, monitor: "DP-1".to_string(), name: name.to_string() }
}

fn sorted_list() -> Vec<WorkspaceInfo> {
    vec![ws(5, "1"), ws(7, "2"), ws(9, ":00000")]
}

#[test]
fn previous_of_the_middle_prints_the_first() {
    let list = sorted_list();
    let line = find_workspace_line(&list, Position::Previous, 7).unwrap();
    assert_eq!(line, "name:1");
}

#[test]
fn start_and_end_pick_the_edges() {
    let list = sorted_list();
    assert_eq!(find_workspace_index(&list, Position::Start, 7), Ok(0));
    assert_eq!(find_workspace_index(&list, Position::End, 7), Ok(2));
    assert_eq!(find_workspace_line(&list, Position::End, 7).unwrap(), "name::00000");
}

#[test]
fn next_and_previous_wrap_around() {
    let list = sorted_list();
    assert_eq!(find_workspace_index(&list, Position::Next, 5), Ok(1));
    assert_eq!(find_workspace_index(&list, Position::Next, 9), Ok(0));
    assert_eq!(find_workspace_index(&list, Position::Previous, 5), Ok(2));
    assert_eq!(find_workspace_index(&list, Position::Previous, 9), Ok(1));
}

#[test]
fn a_single_workspace_is_its_own_neighbour() {
    let list = vec![ws(3, "only")];
    assert_eq!(find_workspace_index(&list, Position::Next, 3), Ok(0));
    assert_eq!(find_workspace_index(&list, Position::Previous, 3), Ok(0));
}

#[test]
fn an_empty_list_is_refused() {
    let list: Vec<WorkspaceInfo> = Vec::new();
    assert_eq!(find_workspace_index(&list, Position::Start, 1), Err(WsError::EmptyWorkspaceSet));
    assert_eq!(find_workspace_index(&list, Position::End, 1), Err(WsError::EmptyWorkspaceSet));
    assert_eq!(find_workspace_index(&list, Position::Next, 1), Err(WsError::EmptyWorkspaceSet));
}

#[test]
fn a_missing_active_id_is_reported() {
    let list = sorted_list();
    assert_eq!(
        find_workspace_index(&list, Position::Next, 42),
        Err(WsError::ActiveWorkspaceNotFound)
    );
    assert_eq!(
        find_workspace_index(&list, Position::Previous, 42),
        Err(WsError::ActiveWorkspaceNotFound)
    );
    // the edges need no active workspace
    assert_eq!(find_workspace_index(&list, Position::Start, 42), Ok(0));
}

#[test]
fn duplicate_ids_resolve_to_the_first() {
    let list = vec![ws(7, "a"), ws(7, "b"), ws(8, "c")];
    assert_eq!(find_workspace_index(&list, Position::Next, 7), Ok(1));
}

#[test]
fn error_messages_name_the_failure() {
    assert_eq!(WsError::MonitorNotFound.message(), "monitor not found");
    assert_eq!(WsError::ActiveWorkspaceNotFound.message(), "active workspace not found");
    assert_eq!(WsError::EmptyWorkspaceSet.message(), "no workspaces on the monitor");
}
