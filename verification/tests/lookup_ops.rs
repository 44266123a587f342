use egui_xyflow::state::changes::apply_node_changes;
use egui_xyflow::state::lookup::{
    connected_edges, find_handle, has_source_handle, has_target_handle, incoming_node_ids,
    is_node_selected, is_node_visible, outgoing_node_ids, sorted_by_z, visible_ids, NodeLookup,
};
use egui_xyflow::types::changes::NodeChange;
use egui_xyflow::types::edge::Edge;
use egui_xyflow::types::handle::{Handle, HandleType};
use egui_xyflow::types::ids::NodeId;
use egui_xyflow::types::node::{InternalNode, Node, NodeHandleBounds, NodeInternals};
use egui_xyflow::types::position::{Dimensions, Point, Position};

fn plain(id: &str) -> Node<(), f32> {
    Node::builder(id).build()
}

fn bounds_for(n: usize) -> Vec<NodeHandleBounds<f32>> {
    (0..n).map(|_| NodeHandleBounds::new()).collect()
}

#[test]
fn insert_replaces_in_place_and_appends_new() {
    let mut lk: NodeLookup<(), f32> = NodeLookup::new();
    for id in ["a", "b"] {
        let node = plain(id);
        let position_absolute = node.position;
        lk.insert(InternalNode {
            node,
            internals: NodeInternals { position_absolute, z: 0, handle_bounds: NodeHandleBounds::new() },
        });
    }
    let mut again = plain("a");
    again.selected = true;
    lk.insert(InternalNode {
        node: again,
        internals: NodeInternals { position_absolute: Point { x: 1.0, y: 1.0 }, z: 3, handle_bounds: NodeHandleBounds::new() },
    });
    assert_eq!(lk.len(), 2);
    assert_eq!(lk.entry(0).node.id.as_str(), "a");
    assert_eq!(lk.entry(0).internals.z, 3);
    assert!(is_node_selected(&lk, &NodeId::new("a")));
    assert!(lk.contains_key(&NodeId::new("b")));
    lk.clear();
    assert_eq!(lk.len(), 0);
}

#[test]
fn from_nodes_uses_z_index_and_last_duplicate() {
    let mut a = plain("a");
    a.z_index = Some(4);
    a.position = Point { x: 2.0, y: 3.0 };
    let b = plain("b");
    let mut a2 = plain("a");
    a2.hidden = true;
    let nodes = vec![a, b, a2];
    let lk = NodeLookup::from_nodes(&nodes, bounds_for(3));
    assert_eq!(lk.len(), 2);
    assert_eq!(lk.entry(0).node.id.as_str(), "a");
    assert!(lk.entry(0).node.hidden);
    assert_eq!(lk.entry(0).internals.z, 0);
    assert!(!is_node_visible(&lk, &NodeId::new("a")));
    assert!(is_node_visible(&lk, &NodeId::new("b")));
    assert!(!is_node_visible(&lk, &NodeId::new("zz")));
    let single = NodeLookup::from_nodes(&vec![nodes[0].clone()], bounds_for(1));
    assert_eq!(single.entry(0).internals.z, 4);
    assert_eq!(single.entry(0).internals.position_absolute, Point { x: 2.0, y: 3.0 });
}

#[test]
fn resolve_parents_raises_children_and_reports_offsets() {
    let mut parent = plain("p");
    parent.z_index = Some(5);
    parent.position = Point { x: 10.0, y: 20.0 };
    let mut child = plain("c");
    child.parent_id = Some(NodeId::new("p"));
    let mut orphan = plain("o");
    orphan.parent_id = Some(NodeId::new("missing"));
    let mut high = plain("h");
    high.parent_id = Some(NodeId::new("p"));
    high.z_index = Some(9);
    let nodes = vec![parent, child, orphan, high];
    let mut lk = NodeLookup::from_nodes(&nodes, bounds_for(4));
    assert!(lk.can_resolve_parents(&nodes));
    let offsets = lk.resolve_parents(&nodes);
    assert_eq!(offsets.len(), 2);
    assert_eq!(offsets[0].child.as_str(), "c");
    assert_eq!(offsets[0].parent_position, Point { x: 10.0, y: 20.0 });
    assert_eq!(offsets[1].child.as_str(), "h");
    assert_eq!(lk.get(&NodeId::new("c")).unwrap().internals.z, 6);
    assert_eq!(lk.get(&NodeId::new("h")).unwrap().internals.z, 9);
    assert_eq!(lk.get(&NodeId::new("o")).unwrap().internals.z, 0);
    lk.set_position_absolute(&NodeId::new("c"), Point { x: 11.0, y: 21.0 });
    assert_eq!(lk.get(&NodeId::new("c")).unwrap().internals.position_absolute, Point { x: 11.0, y: 21.0 });
}

#[test]
fn parents_at_max_z_cannot_be_resolved() {
    let mut parent = plain("p");
    parent.z_index = Some(i32::MAX);
    let mut child = plain("c");
    child.parent_id = Some(NodeId::new("p"));
    let nodes = vec![parent, child];
    let lk = NodeLookup::from_nodes(&nodes, bounds_for(2));
    assert!(!lk.can_resolve_parents(&nodes));
}

#[test]
fn incremental_updates_follow_node_changes() {
    let mut nodes = vec![plain("a"), plain("b")];
    let mut lk = NodeLookup::from_nodes(&nodes, bounds_for(2));
    let changes = vec![
        NodeChange::Position { id: NodeId::new("a"), position: Some(Point { x: 4.0, y: 5.0 }), dragging: Some(true) },
        NodeChange::Dimensions { id: NodeId::new("b"), dimensions: Some(Dimensions::new(9.0, 8.0)) },
        NodeChange::Select { id: NodeId::new("b"), selected: true },
        NodeChange::Dimensions { id: NodeId::new("missing"), dimensions: None },
    ];
    apply_node_changes(&changes, &mut nodes);
    let r = lk.apply_incremental_updates(&changes);
    assert!(r.needs_parent_update);
    assert_eq!(r.resized, vec![NodeId::new("b")]);
    let a = lk.get(&NodeId::new("a")).unwrap();
    assert_eq!(a.internals.position_absolute, Point { x: 4.0, y: 5.0 });
    assert_eq!(a.node.position, nodes[0].position);
    assert!(a.node.dragging);
    let b = lk.get(&NodeId::new("b")).unwrap();
    assert_eq!(b.node.width, Some(9.0));
    assert!(b.node.selected && nodes[1].selected);
    let none = lk.apply_incremental_updates(&[NodeChange::Position { id: NodeId::new("a"), position: None, dragging: Some(false) }]);
    assert!(!none.needs_parent_update);
    assert!(none.resized.is_empty());
}

#[test]
fn graph_traversal() {
    let nodes = vec![plain("a"), plain("b"), plain("c")];
    let lk = NodeLookup::from_nodes(&nodes, bounds_for(3));
    let edges: Vec<Edge<(), f32>> = vec![
        Edge::new("e1", "a", "b"),
        Edge::new("e2", "a", "c"),
        Edge::new("e3", "a", "ghost"),
        Edge::new("e4", "c", "a"),
        Edge::new("e5", "b", "c"),
    ];
    let out: Vec<&str> = outgoing_node_ids(&NodeId::new("a"), &lk, &edges).iter().map(|id| id.as_str()).collect();
    assert_eq!(out, vec!["b", "c"]);
    let inc: Vec<&str> = incoming_node_ids(&NodeId::new("c"), &lk, &edges).iter().map(|id| id.as_str()).collect();
    assert_eq!(inc, vec!["a", "b"]);
    let conn: Vec<&str> = connected_edges(&NodeId::new("a"), &edges).iter().map(|e| e.id.as_str()).collect();
    assert_eq!(conn, vec!["e1", "e2", "e3", "e4"]);
}

fn handle(id: Option<&str>, node: &str, t: HandleType) -> Handle<f32> {
    Handle {
        id: id.map(|s| s.to_string()),
        node_id: node.to_string(),
        x: 0.0,
        y: 0.0,
        position: Position::Right,
        handle_type: t,
        width: 8.0,
        height: 8.0,
    }
}

#[test]
fn handle_queries() {
    let nodes = vec![plain("a"), plain("b")];
    let mut hb = NodeHandleBounds::new();
    hb.source.push(handle(None, "a", HandleType::Source));
    hb.source.push(handle(Some("out2"), "a", HandleType::Source));
    let mut lk = NodeLookup::from_nodes(&nodes, bounds_for(2));
    lk.set_handle_bounds(&NodeId::new("a"), hb);
    assert!(has_source_handle(&lk, &NodeId::new("a")));
    assert!(!has_target_handle(&lk, &NodeId::new("a")));
    assert!(!has_source_handle(&lk, &NodeId::new("b")));
    assert_eq!(find_handle(&lk, &NodeId::new("a"), HandleType::Source, None).unwrap().id, None);
    assert_eq!(
        find_handle(&lk, &NodeId::new("a"), HandleType::Source, Some("out2")).unwrap().id.as_deref(),
        Some("out2")
    );
    assert!(find_handle(&lk, &NodeId::new("a"), HandleType::Source, Some("nope")).is_none());
    assert!(find_handle(&lk, &NodeId::new("a"), HandleType::Target, None).is_none());
    assert!(find_handle(&lk, &NodeId::new("zz"), HandleType::Source, None).is_none());
}

#[test]
fn sorted_by_z_keeps_lookup_order_for_ties() {
    let mut nodes = vec![plain("c"), plain("a"), plain("b"), plain("d")];
    nodes[0].z_index = Some(1);
    nodes[3].z_index = Some(-1);
    let lk = NodeLookup::from_nodes(&nodes, bounds_for(4));
    let order: Vec<String> = sorted_by_z(&lk).into_iter().map(|id| id.0).collect();
    assert_eq!(order, vec!["d", "a", "b", "c"]);
}

#[test]
fn cached_order_survives_moves_and_selection() {
    let mut nodes = vec![plain("p"), plain("q"), plain("r")];
    nodes[0].z_index = Some(2);
    nodes[1].parent_id = Some(NodeId::new("p"));
    let mut lk = NodeLookup::from_nodes(&nodes, bounds_for(3));
    assert!(lk.can_resolve_parents(&nodes));
    lk.resolve_parents(&nodes);
    let cached = sorted_by_z(&lk);
    let changes: Vec<NodeChange<(), f32>> = vec![
        NodeChange::Position { id: NodeId::new("q"), position: Some(Point { x: 9.0, y: 9.0 }), dragging: Some(true) },
        NodeChange::Select { id: NodeId::new("r"), selected: true },
        NodeChange::Dimensions { id: NodeId::new("p"), dimensions: Some(Dimensions { width: 5.0, height: 6.0 }) },
    ];
    apply_node_changes(&changes, &mut nodes);
    let update = lk.apply_incremental_updates(&changes);
    assert!(update.needs_parent_update);
    lk.resolve_parents(&nodes);
    assert_eq!(sorted_by_z(&lk), cached);
    let order: Vec<String> = cached.into_iter().map(|id| id.0).collect();
    assert_eq!(order, vec!["r", "p", "q"]);
}

#[test]
fn setting_internals_keeps_nodes() {
    let mut a = plain("a");
    a.selected = true;
    let nodes = vec![a, plain("b")];
    let mut lk = NodeLookup::from_nodes(&nodes, bounds_for(2));
    lk.set_position_absolute(&NodeId::new("b"), Point { x: 7.0, y: 8.0 });
    let mut hb = NodeHandleBounds::new();
    hb.source.push(handle(Some("h"), "a", HandleType::Source));
    lk.set_handle_bounds(&NodeId::new("a"), hb);
    lk.set_position_absolute(&NodeId::new("zz"), Point { x: 1.0, y: 1.0 });
    assert_eq!(lk.len(), 2);
    assert!(lk.entry(0).node.selected);
    assert_eq!(lk.entry(0).internals.handle_bounds.source.len(), 1);
    assert_eq!(lk.entry(1).node.position, nodes[1].position);
    assert_eq!(lk.entry(1).internals.position_absolute, Point { x: 7.0, y: 8.0 });
}

#[test]
fn single_level_children_end_above_parents() {
    let mut nodes = vec![plain("c1"), plain("p"), plain("c2")];
    nodes[0].parent_id = Some(NodeId::new("p"));
    nodes[0].z_index = Some(9);
    nodes[1].z_index = Some(4);
    nodes[2].parent_id = Some(NodeId::new("p"));
    let mut lk = NodeLookup::from_nodes(&nodes, bounds_for(3));
    lk.resolve_parents(&nodes);
    assert_eq!(lk.entry(0).internals.z, 9);
    assert_eq!(lk.entry(1).internals.z, 4);
    assert_eq!(lk.entry(2).internals.z, 5);
}

#[test]
fn nested_parents_resolve_one_level_per_pass() {
    // gp <- parent <- child: the child is raised against the parent's
    // z-order before the parent itself was raised.
    let mut nodes = vec![plain("child"), plain("parent"), plain("gp")];
    nodes[0].parent_id = Some(NodeId::new("parent"));
    nodes[1].parent_id = Some(NodeId::new("gp"));
    let mut lk = NodeLookup::from_nodes(&nodes, bounds_for(3));
    lk.resolve_parents(&nodes);
    assert_eq!(lk.entry(0).internals.z, 1);
    assert_eq!(lk.entry(1).internals.z, 1);
    assert_eq!(lk.entry(2).internals.z, 0);
    lk.resolve_parents(&nodes);
    assert_eq!(lk.entry(0).internals.z, 2);
}

#[test]
fn visible_ids_skip_hidden_and_absent() {
    let mut nodes = vec![plain("a"), plain("b"), plain("c")];
    nodes[1].hidden = true;
    let lk = NodeLookup::from_nodes(&nodes, bounds_for(3));
    let ids = vec![NodeId::new("c"), NodeId::new("x"), NodeId::new("b"), NodeId::new("a")];
    let visible = visible_ids(&lk, &ids);
    let shown: Vec<&str> = visible.iter().map(|i| i.as_str()).collect();
    assert_eq!(shown, vec!["c", "a"]);
}
