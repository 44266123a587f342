use egui_xyflow::canvas::{
    any_animated, anchor_change, anchors_draggable, box_selection_changes, connection_exists,
    deselect_all_changes, edge_click_changes, edge_from_connection, edge_infos, edge_removals,
    node_click_changes, node_removals, select_all_changes, selected_ids_in_edges,
    selected_ids_in_nodes, start_connection, try_resolve_connection, update_connection_state,
    AllowAllConnections, ConnectionValidator,
};
use egui_xyflow::state::changes::{apply_edge_changes, apply_node_changes};
use egui_xyflow::state::lookup::NodeLookup;
use egui_xyflow::types::changes::{EdgeChange, NodeChange};
use egui_xyflow::types::connection::{Connection, ConnectionState};
use egui_xyflow::types::edge::{AnchorEndpoint, Edge, EdgeAnchor, EdgeType};
use egui_xyflow::types::handle::{Handle, HandleType};
use egui_xyflow::types::ids::{EdgeId, NodeId};
use egui_xyflow::types::node::{Node, NodeHandleBounds};
use egui_xyflow::types::position::{Point, Position};

fn plain(id: &str) -> Node<(), f32> {
    Node::builder(id).build()
}

fn lookup_of(nodes: &Vec<Node<(), f32>>) -> NodeLookup<(), f32> {
    NodeLookup::from_nodes(nodes, (0..nodes.len()).map(|_| NodeHandleBounds::new()).collect())
}

#[test]
fn click_without_shift_selects_only_clicked() {
    let mut nodes = vec![plain("a"), plain("b"), plain("c")];
    nodes[0].selected = true;
    let lk = lookup_of(&nodes);
    let changes = node_click_changes(&lk, &NodeId::new("b"), false);
    assert_eq!(changes.len(), 3);
    apply_node_changes(&changes, &mut nodes);
    assert_eq!(nodes.iter().map(|n| n.selected).collect::<Vec<_>>(), vec![false, true, false]);
}

#[test]
fn click_with_shift_toggles() {
    let mut nodes = vec![plain("a"), plain("b")];
    nodes[0].selected = true;
    let lk = lookup_of(&nodes);
    let changes = node_click_changes(&lk, &NodeId::new("a"), true);
    assert_eq!(changes.len(), 1);
    apply_node_changes(&changes, &mut nodes);
    assert!(!nodes[0].selected && !nodes[1].selected);
    let changes = node_click_changes(&lk, &NodeId::new("b"), true);
    apply_node_changes(&changes, &mut nodes);
    assert!(nodes[1].selected);
}

#[test]
fn edge_click_selects_and_toggles() {
    let mut edges: Vec<Edge<(), f32>> = vec![Edge::new("e1", "a", "b"), Edge::new("e2", "b", "c")];
    edges[0].selected = true;
    let ch = edge_click_changes(&edges, &EdgeId::new("e2"), false);
    apply_edge_changes(&ch, &mut edges);
    assert!(!edges[0].selected && edges[1].selected);
    let ch = edge_click_changes(&edges, &EdgeId::new("e1"), true);
    apply_edge_changes(&ch, &mut edges);
    assert!(edges[0].selected && edges[1].selected);
    let ch = edge_click_changes(&edges, &EdgeId::new("e1"), true);
    apply_edge_changes(&ch, &mut edges);
    assert!(!edges[0].selected && edges[1].selected);
}

fn handle(node: &str, t: HandleType, id: Option<&str>, position: Position) -> Handle<f32> {
    Handle {
        id: id.map(|s| s.to_string()),
        node_id: node.to_string(),
        x: 0.0,
        y: 0.0,
        position,
        handle_type: t,
        width: 8.0,
        height: 8.0,
    }
}

#[test]
fn connection_drag_from_source_handle() {
    let from = handle("a", HandleType::Source, Some("out"), Position::Right);
    let mut st = start_connection(from, Point { x: 1.0, y: 2.0 });
    match &st {
        ConnectionState::InProgress { to_position, to_node_id, is_valid, .. } => {
            assert_eq!(*to_position, Position::Left);
            assert!(to_node_id.is_none());
            assert!(is_valid.is_none());
        }
        ConnectionState::Idle => panic!("drag should be in progress"),
    }
    assert!(try_resolve_connection(&st).is_none());
    let target = handle("b", HandleType::Target, None, Position::Top);
    update_connection_state(&mut st, Some(Point { x: 5.0, y: 5.0 }), Some(&target));
    let conn = try_resolve_connection(&st).unwrap();
    assert_eq!(conn.source.as_str(), "a");
    assert_eq!(conn.target.as_str(), "b");
    assert_eq!(conn.source_handle.as_deref(), Some("out"));
    assert_eq!(conn.target_handle, None);
    update_connection_state(&mut st, Some(Point { x: 6.0, y: 6.0 }), None);
    match &st {
        ConnectionState::InProgress { to, to_position, .. } => {
            assert_eq!(*to, Point { x: 6.0, y: 6.0 });
            assert_eq!(*to_position, Position::Left);
        }
        ConnectionState::Idle => panic!("drag should be in progress"),
    }
    assert!(try_resolve_connection(&st).is_none());
}

#[test]
fn connection_drag_from_target_handle_is_reversed() {
    let from = handle("b", HandleType::Target, Some("in"), Position::Left);
    let mut st = start_connection(from, Point { x: 0.0, y: 0.0 });
    let other = handle("a", HandleType::Source, Some("out"), Position::Right);
    update_connection_state(&mut st, None, Some(&other));
    assert!(try_resolve_connection(&st).is_none());
    update_connection_state(&mut st, Some(Point { x: 1.0, y: 1.0 }), Some(&other));
    let conn = try_resolve_connection(&st).unwrap();
    assert_eq!(conn.source.as_str(), "a");
    assert_eq!(conn.target.as_str(), "b");
    assert_eq!(conn.source_handle.as_deref(), Some("out"));
    assert_eq!(conn.target_handle.as_deref(), Some("in"));
    let mut idle: ConnectionState<f32> = ConnectionState::default();
    update_connection_state(&mut idle, Some(Point { x: 1.0, y: 1.0 }), Some(&other));
    assert!(matches!(idle, ConnectionState::Idle));
}

#[test]
fn new_edge_from_connection_and_duplicates() {
    let conn = Connection {
        source: NodeId::new("a"),
        target: NodeId::new("b"),
        source_handle: None,
        target_handle: Some("in".to_string()),
    };
    let e: Edge<(), f32> = edge_from_connection(&conn, EdgeType::Step);
    assert_eq!(e.id.as_str(), "ea-b");
    assert_eq!(e.edge_type, Some(EdgeType::Step));
    assert_eq!(e.interaction_width, 20.0);
    assert_eq!(e.target_handle.as_deref(), Some("in"));
    let edges = vec![e];
    assert!(connection_exists(&edges, &conn));
    let other = Connection { target_handle: None, ..conn.clone() };
    assert!(!connection_exists(&edges, &other));
    let infos = edge_infos(&edges);
    assert_eq!(infos.len(), 1);
    assert_eq!(infos[0].target_handle, Some("in"));
    assert!(AllowAllConnections.is_valid_connection(&other, &infos));
}

#[test]
fn background_click_deselects_everything() {
    let mut nodes = vec![plain("a"), plain("b")];
    nodes[1].selected = true;
    let lk = lookup_of(&nodes);
    let mut edges: Vec<Edge<(), f32>> = vec![Edge::new("e1", "a", "b"), Edge::new("e2", "b", "a")];
    edges[1].selected = true;
    let (nc, ec) = deselect_all_changes(&lk, &edges);
    assert_eq!(nc.len(), 2);
    assert_eq!(ec.len(), 1);
    apply_node_changes(&nc, &mut nodes);
    apply_edge_changes(&ec, &mut edges);
    assert!(nodes.iter().all(|n| !n.selected));
    assert!(edges.iter().all(|e| !e.selected));
}

#[test]
fn box_selection() {
    let mut nodes = vec![plain("a"), plain("b"), plain("c")];
    nodes[0].selected = true;
    let lk = lookup_of(&nodes);
    let inside = vec![NodeId::new("b")];
    let mut replaced = nodes.clone();
    apply_node_changes(&box_selection_changes(&lk, &inside, false), &mut replaced);
    assert_eq!(replaced.iter().map(|n| n.selected).collect::<Vec<_>>(), vec![false, true, false]);
    let mut added = nodes.clone();
    apply_node_changes(&box_selection_changes(&lk, &inside, true), &mut added);
    assert_eq!(added.iter().map(|n| n.selected).collect::<Vec<_>>(), vec![true, true, false]);
}

#[test]
fn delete_key_removes_selected_deletable() {
    let mut nodes = vec![plain("a"), plain("b"), plain("c")];
    nodes[0].selected = true;
    nodes[1].selected = true;
    nodes[1].deletable = Some(false);
    let removals = node_removals(&nodes, true);
    assert_eq!(removals.len(), 1);
    apply_node_changes(&removals, &mut nodes);
    let left: Vec<&str> = nodes.iter().map(|n| n.id.as_str()).collect();
    assert_eq!(left, vec!["b", "c"]);
    let mut edges: Vec<Edge<(), f32>> = vec![Edge::new("e1", "a", "b"), Edge::new("e2", "b", "c")];
    edges[0].selected = true;
    let er = edge_removals(&edges);
    apply_edge_changes(&er, &mut edges);
    assert_eq!(edges.len(), 1);
    assert_eq!(edges[0].id.as_str(), "e2");
}

#[test]
fn select_all_skips_hidden_and_unselectable() {
    let mut nodes = vec![plain("a"), plain("b"), plain("c")];
    nodes[1].hidden = true;
    nodes[2].selectable = Some(false);
    let ch = select_all_changes(&nodes, true);
    assert_eq!(ch.len(), 1);
    apply_node_changes(&ch, &mut nodes);
    assert_eq!(selected_ids_in_nodes(&nodes), vec![NodeId::new("a")]);
}

#[test]
fn edge_flags() {
    let mut edges: Vec<Edge<(), f32>> = vec![Edge::new("e1", "a", "b"), Edge::new("e2", "b", "c")];
    assert!(!any_animated(&edges));
    edges[1].animated = true;
    edges[1].selected = true;
    assert!(any_animated(&edges));
    assert_eq!(selected_ids_in_edges(&edges), vec![EdgeId::new("e2")]);
    assert!(anchors_draggable(&edges[0], true));
    assert!(!anchors_draggable(&edges[0].clone().anchors_draggable(false), true));
    let a = EdgeAnchor { side: Position::Bottom, t: 0.5_f32 };
    let ch: EdgeChange<(), f32> = anchor_change(&EdgeId::new("e2"), AnchorEndpoint::Target, a);
    apply_edge_changes(&[ch], &mut edges);
    assert_eq!(edges[1].target_anchor, Some(a));
    assert_eq!(edges[1].source_anchor, None);
    let _unused: Vec<NodeChange<(), f32>> = Vec::new();
}
