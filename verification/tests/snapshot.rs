use workspace_rings::snapshot::{
    count_windows_from_tree, find_workspace_below, get_workspace_from_tree, NodeKind, TreeNode,
    WorkspaceEntry,
};
use workspace_rings::text::is_marked;

fn node(name: Option<&str>, kind: NodeKind, window: Option<i32>, nodes: Vec<TreeNode>) -> TreeNode {
    TreeNode { name: name.map(String::from), kind, window, nodes }
}

fn leaf(id: i32) -> TreeNode {
    node(None, NodeKind::Other, Some(id), vec![])
}

fn listed(output: &str, name: &str) -> WorkspaceEntry {
    WorkspaceEntry {
        output: String::from(output),
        num: 1,
        name: String::from(name),
        visible: false,
        focused: false,
    }
}

#[test]
fn a_node_without_children_has_no_windows() {
    assert_eq!(count_windows_from_tree(&node(None, NodeKind::Workspace, None, vec![])), Some(0));
    // The node's own window is not below it.
    assert_eq!(count_windows_from_tree(&leaf(1)), Some(0));
}

#[test]
fn windows_are_counted_at_every_depth() {
    let tree = node(
        Some("ws"),
        NodeKind::Workspace,
        None,
        vec![
            leaf(1),
            node(None, NodeKind::Other, None, vec![leaf(2), leaf(3)]),
            node(
                None,
                NodeKind::Other,
                None,
                vec![node(None, NodeKind::Other, None, vec![node(
                    None,
                    NodeKind::Other,
                    None,
                    vec![leaf(4)],
                )])],
            ),
            node(None, NodeKind::Other, None, vec![]),
        ],
    );
    assert_eq!(count_windows_from_tree(&tree), Some(4));
}

#[test]
fn a_window_that_holds_windows_counts_with_them() {
    let tree = node(
        None,
        NodeKind::Other,
        None,
        vec![node(None, NodeKind::Other, Some(1), vec![leaf(2), leaf(3)])],
    );
    assert_eq!(count_windows_from_tree(&tree), Some(3));
}

#[test]
fn finds_the_workspace_below_its_output() {
    let tree = node(
        Some("root"),
        NodeKind::Other,
        None,
        vec![
            node(
                Some("A"),
                NodeKind::Other,
                None,
                vec![node(
                    Some("content"),
                    NodeKind::Other,
                    None,
                    vec![
                        node(Some("1"), NodeKind::Workspace, None, vec![leaf(1)]),
                        node(Some("2"), NodeKind::Workspace, None, vec![leaf(2), leaf(3)]),
                    ],
                )],
            ),
            node(
                Some("B"),
                NodeKind::Other,
                None,
                vec![node(
                    Some("content"),
                    NodeKind::Other,
                    None,
                    vec![node(Some("2"), NodeKind::Workspace, None, vec![])],
                )],
            ),
        ],
    );
    let found = get_workspace_from_tree(&listed("A", "2"), &tree).unwrap();
    assert_eq!(found.nodes.len(), 2);
    let found = get_workspace_from_tree(&listed("B", "2"), &tree).unwrap();
    assert_eq!(found.nodes.len(), 0);
    assert!(get_workspace_from_tree(&listed("B", "1"), &tree).is_none());
    assert!(get_workspace_from_tree(&listed("C", "1"), &tree).is_none());
    assert!(get_workspace_from_tree(&listed("root", "1"), &tree).is_none());
}

#[test]
fn only_workspace_containers_are_found() {
    let tree = node(
        None,
        NodeKind::Other,
        None,
        vec![node(
            Some("A"),
            NodeKind::Other,
            None,
            vec![
                node(Some("1"), NodeKind::Other, None, vec![leaf(1)]),
                node(None, NodeKind::Workspace, None, vec![]),
                node(
                    Some("content"),
                    NodeKind::Other,
                    None,
                    vec![node(Some("1"), NodeKind::Workspace, None, vec![leaf(2), leaf(3)])],
                ),
            ],
        )],
    );
    let found = get_workspace_from_tree(&listed("A", "1"), &tree).unwrap();
    assert_eq!(found.kind, NodeKind::Workspace);
    assert_eq!(found.nodes.len(), 2);
    // The output itself is no candidate, even as a workspace container of that name.
    let tree = node(
        None,
        NodeKind::Other,
        None,
        vec![node(Some("A"), NodeKind::Workspace, None, vec![])],
    );
    assert!(get_workspace_from_tree(&listed("A", "A"), &tree).is_none());
}

#[test]
fn the_first_match_in_depth_first_order_is_found() {
    let tree = node(
        None,
        NodeKind::Other,
        None,
        vec![
            node(Some("A"), NodeKind::Other, None, vec![node(
                Some("x"),
                NodeKind::Other,
                None,
                vec![node(None, NodeKind::Other, None, vec![node(
                    Some("1"),
                    NodeKind::Workspace,
                    Some(10),
                    vec![],
                )])],
            ), node(Some("1"), NodeKind::Workspace, Some(20), vec![])]),
            node(Some("A"), NodeKind::Other, None, vec![node(
                Some("1"),
                NodeKind::Workspace,
                Some(30),
                vec![],
            ), node(Some("2"), NodeKind::Workspace, Some(40), vec![])]),
        ],
    );
    assert_eq!(get_workspace_from_tree(&listed("A", "1"), &tree).unwrap().window, Some(10));
    // A second branch of the same name is searched where the first has no match.
    assert_eq!(get_workspace_from_tree(&listed("A", "2"), &tree).unwrap().window, Some(40));
    let name = String::from("1");
    assert_eq!(find_workspace_below(&tree.nodes[1], &name).unwrap().window, Some(30));
    assert!(find_workspace_below(&tree.nodes[1].nodes[0], &name).is_none());
}

#[test]
fn the_marker_is_found_anywhere_in_a_name() {
    assert!(is_marked(&String::from("_act")));
    assert!(is_marked(&String::from("3_act")));
    assert!(is_marked(&String::from("_active")));
    assert!(is_marked(&String::from("3: web_act now")));
    assert!(is_marked(&String::from("__act")));
    assert!(is_marked(&String::from("_ac_act")));
    assert!(is_marked(&String::from("_a_ac_act")));
    assert!(is_marked(&String::from("\u{e9}\u{4e16}_act\u{1f600}")));
}

#[test]
fn a_name_without_the_marker_is_not_marked() {
    assert!(!is_marked(&String::from("")));
    assert!(!is_marked(&String::from("_ac")));
    assert!(!is_marked(&String::from("act")));
    assert!(!is_marked(&String::from("_Act")));
    assert!(!is_marked(&String::from("_a ct")));
    assert!(!is_marked(&String::from("tca_")));
    assert!(!is_marked(&String::from("3: web")));
    assert!(!is_marked(&String::from("_ac\u{e9}t")));
}
