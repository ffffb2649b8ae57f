use workspace_rings::builder::{get_program_state, StateError};
use workspace_rings::command::Direction;
use workspace_rings::navigation::{move_window, switch};
use workspace_rings::snapshot::{NodeKind, TreeNode, WorkspaceEntry};
use workspace_rings::state::ProgramState;

fn node(name: Option<&str>, kind: NodeKind, window: Option<i32>, nodes: Vec<TreeNode>) -> TreeNode {
    TreeNode { name: name.map(String::from), kind, window, nodes }
}

fn window(id: i32) -> TreeNode {
    node(Some("a window"), NodeKind::Other, Some(id), vec![])
}

fn split(nodes: Vec<TreeNode>) -> TreeNode {
    node(None, NodeKind::Other, None, nodes)
}

fn workspace_node(name: &str, nodes: Vec<TreeNode>) -> TreeNode {
    node(Some(name), NodeKind::Workspace, None, nodes)
}

fn output_node(name: &str, workspaces: Vec<TreeNode>) -> TreeNode {
    node(
        Some(name),
        NodeKind::Other,
        None,
        vec![
            node(Some("topdock"), NodeKind::Other, None, vec![]),
            node(Some("content"), NodeKind::Other, None, workspaces),
            node(Some("bottomdock"), NodeKind::Other, None, vec![]),
        ],
    )
}

fn root(outputs: Vec<TreeNode>) -> TreeNode {
    node(Some("root"), NodeKind::Other, None, outputs)
}

fn entry(output: &str, num: u16, name: &str, visible: bool, focused: bool) -> WorkspaceEntry {
    WorkspaceEntry { output: String::from(output), num, name: String::from(name), visible, focused }
}

/// Two outputs. On "left": 1 (two windows, one of them nested), 2 (empty,
/// marked), 103 (one window, visible and focused). On "right": 3 (visible,
/// three windows).
fn sample() -> (Vec<WorkspaceEntry>, TreeNode) {
    let tree = root(vec![
        output_node(
            "left",
            vec![
                workspace_node("1", vec![window(11), split(vec![split(vec![window(12)])])]),
                workspace_node("2_act", vec![]),
                workspace_node("103", vec![split(vec![window(13)])]),
            ],
        ),
        output_node(
            "right",
            vec![workspace_node("3", vec![window(14), window(15), split(vec![window(16)])])],
        ),
    ]);
    let list = vec![
        entry("left", 1, "1", false, false),
        entry("right", 3, "3", true, false),
        entry("left", 103, "103", true, true),
        entry("left", 2, "2_act", false, false),
    ];
    (list, tree)
}

fn ring<'a>(
    state: &'a ProgramState,
    output: &str,
    ring_id: u16,
) -> &'a workspace_rings::state::WorkspaceRing {
    let output = state.outputs.iter().find(|o| o.name == output).unwrap();
    output.workspace_rings.iter().find(|r| r.ring_id == ring_id).unwrap()
}

#[test]
fn builds_rings_in_listing_order() {
    let (list, tree) = sample();
    let state = get_program_state(&list, &tree).unwrap();
    assert_eq!(state.outputs.len(), 2);
    let low = ring(&state, "left", 0);
    let ids: Vec<u16> = low.workspaces.iter().map(|w| w.id).collect();
    assert_eq!(ids, vec![1, 2]);
    assert_eq!(low.workspaces[1].name, "2_act");
    let high = ring(&state, "left", 1);
    let ids: Vec<u16> = high.workspaces.iter().map(|w| w.id).collect();
    assert_eq!(ids, vec![103]);
    let other = ring(&state, "right", 0);
    let ids: Vec<u16> = other.workspaces.iter().map(|w| w.id).collect();
    assert_eq!(ids, vec![3]);
}

#[test]
fn counts_windows_at_every_depth() {
    let (list, tree) = sample();
    let state = get_program_state(&list, &tree).unwrap();
    assert_eq!(ring(&state, "left", 0).workspaces[0].active_windows, 2);
    assert_eq!(ring(&state, "left", 0).workspaces[1].active_windows, 0);
    assert_eq!(ring(&state, "left", 1).workspaces[0].active_windows, 1);
    assert_eq!(ring(&state, "right", 0).workspaces[0].active_windows, 3);
}

#[test]
fn records_focus_and_next_free_numbers() {
    let (list, tree) = sample();
    let state = get_program_state(&list, &tree).unwrap();
    assert_eq!(state.current_output, "left");
    assert_eq!(state.next_ring_id, 2);
    assert!(state.has_focus());
    let left = state.outputs.iter().find(|o| o.name == "left").unwrap();
    assert_eq!(left.current_workspace_ring, 1);
    assert_eq!(ring(&state, "left", 0).next_id, 3);
    assert_eq!(ring(&state, "left", 1).next_id, 104);
    assert_eq!(ring(&state, "right", 0).next_id, 4);
}

#[test]
fn the_marker_in_a_name_makes_a_workspace_current() {
    let (list, tree) = sample();
    let state = get_program_state(&list, &tree).unwrap();
    assert_eq!(ring(&state, "left", 0).current_workspace, 1);
    assert_eq!(ring(&state, "left", 1).current_workspace, 0);
    assert_eq!(ring(&state, "right", 0).current_workspace, 0);
}

#[test]
fn the_last_visible_or_marked_workspace_wins() {
    let tree = root(vec![output_node(
        "A",
        vec![
            workspace_node("one", vec![]),
            workspace_node("two_act", vec![]),
            workspace_node("three", vec![]),
            workspace_node("four", vec![]),
        ],
    )]);
    let list = vec![
        entry("A", 1, "one", true, true),
        entry("A", 2, "two_act", false, false),
        entry("A", 3, "three", false, false),
    ];
    let state = get_program_state(&list, &tree).unwrap();
    assert_eq!(ring(&state, "A", 0).current_workspace, 1);
    let list = vec![
        entry("A", 2, "two_act", false, false),
        entry("A", 3, "three", false, false),
        entry("A", 1, "one", true, true),
        entry("A", 4, "four", false, false),
    ];
    let state = get_program_state(&list, &tree).unwrap();
    assert_eq!(ring(&state, "A", 0).current_workspace, 2);
}

#[test]
fn a_ring_without_visible_or_marked_workspace_keeps_position_zero() {
    let tree = root(vec![output_node(
        "A",
        vec![workspace_node("7", vec![]), workspace_node("8", vec![])],
    )]);
    let list = vec![entry("A", 7, "7", false, false), entry("A", 8, "8", false, false)];
    let state = get_program_state(&list, &tree).unwrap();
    assert_eq!(ring(&state, "A", 0).current_workspace, 0);
    assert_eq!(state.current_output, "");
    assert!(!state.has_focus());
}

#[test]
fn an_empty_list_gives_an_empty_state() {
    let state = get_program_state(&vec![], &root(vec![])).unwrap();
    assert!(state.outputs.is_empty());
    assert_eq!(state.current_output, "");
    assert_eq!(state.next_ring_id, 0);
    assert!(!state.has_focus());
}

#[test]
fn a_workspace_missing_from_the_tree_is_an_error() {
    let (mut list, tree) = sample();
    list.insert(2, entry("left", 9, "9", false, false));
    list.push(entry("left", 10, "10", false, false));
    match get_program_state(&list, &tree) {
        Err(error) => assert_eq!(error, StateError::WorkspaceNotFound(2)),
        Ok(_) => panic!("the list names a workspace that the tree lacks"),
    }
}

#[test]
fn a_workspace_is_sought_on_its_own_output_only() {
    let (mut list, tree) = sample();
    list[1] = entry("left", 3, "3", true, false);
    match get_program_state(&list, &tree) {
        Err(error) => assert_eq!(error, StateError::WorkspaceNotFound(1)),
        Ok(_) => panic!("workspace 3 is on the other output"),
    }
    let (mut list, tree) = sample();
    list[0] = entry("middle", 1, "1", false, false);
    match get_program_state(&list, &tree) {
        Err(error) => assert_eq!(error, StateError::WorkspaceNotFound(0)),
        Ok(_) => panic!("the tree has no such output"),
    }
}

#[test]
fn every_workspace_is_in_exactly_one_ring_of_its_band() {
    let (list, tree) = sample();
    let state = get_program_state(&list, &tree).unwrap();
    for listed in list.iter() {
        let mut seen = 0;
        for output in state.outputs.iter() {
            for ring in output.workspace_rings.iter() {
                for workspace in ring.workspaces.iter() {
                    assert_eq!(ring.ring_id, workspace.id / 100);
                    if workspace.id == listed.num {
                        seen += 1;
                        assert_eq!(output.name, listed.output);
                        assert_eq!(workspace.name, listed.name);
                    }
                }
            }
        }
        assert_eq!(seen, 1);
    }
}

#[test]
fn next_free_numbers_lie_above_all_numbers_seen() {
    let (list, tree) = sample();
    let state = get_program_state(&list, &tree).unwrap();
    for output in state.outputs.iter() {
        let mut ring_ids: Vec<u16> = output.workspace_rings.iter().map(|r| r.ring_id).collect();
        ring_ids.sort();
        ring_ids.dedup();
        assert_eq!(ring_ids.len(), output.workspace_rings.len());
        for ring in output.workspace_rings.iter() {
            assert!(!ring.workspaces.is_empty());
            assert!(ring.current_workspace < ring.workspaces.len());
            assert!((ring.ring_id as u32) < state.next_ring_id);
            let largest = ring.workspaces.iter().map(|w| w.id as u32).max().unwrap();
            assert_eq!(ring.next_id, largest + 1);
        }
    }
}

#[test]
fn the_last_focused_workspace_takes_the_focus() {
    let (mut list, tree) = sample();
    list[1].focused = true;
    let state = get_program_state(&list, &tree).unwrap();
    assert_eq!(state.current_output, "left");
    let mut list = list;
    list.swap(1, 2);
    let state = get_program_state(&list, &tree).unwrap();
    assert_eq!(state.current_output, "right");
    let right = state.outputs.iter().find(|o| o.name == "right").unwrap();
    assert_eq!(right.current_workspace_ring, 0);
}

#[test]
fn navigation_on_a_built_state() {
    let (list, tree) = sample();
    let state = get_program_state(&list, &tree).unwrap();
    // The focus is on 103, alone in ring 1 of "left", with one window.
    assert_eq!(switch(Direction::Left, &state), vec!["workspace 104".to_string()]);
    assert_eq!(switch(Direction::Right, &state), vec!["workspace 104".to_string()]);
    assert_eq!(
        move_window(Direction::Right, &state),
        vec!["move container to workspace 103".to_string(), "workspace 103".to_string()]
    );
    // Ring 0 of "left" holds workspace 2 current, by its marker.
    assert_eq!(switch(Direction::Up, &state), vec!["workspace 2".to_string()]);
    assert_eq!(switch(Direction::Down, &state), vec!["workspace 200".to_string()]);
    assert_eq!(
        move_window(Direction::Down, &state),
        vec!["move container to workspace 2".to_string(), "workspace 2".to_string()]
    );
}
