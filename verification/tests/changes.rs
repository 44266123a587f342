use egui_xyflow::state::changes::{apply_edge_changes, apply_node_changes, has_structural_node_change};
use egui_xyflow::types::changes::{EdgeChange, NodeChange};
use egui_xyflow::types::edge::{Color, Edge, EdgeAnchor, EdgeStyle};
use egui_xyflow::types::ids::{EdgeId, NodeId};
use egui_xyflow::types::node::Node;
use egui_xyflow::types::position::{Dimensions, Point, Position};

fn node(id: &str) -> Node<String, f32> {
    Node::builder_with_data(id, format!("data-{id}")).build()
}

fn ids(nodes: &[Node<String, f32>]) -> Vec<String> {
    nodes.iter().map(|n| n.id.to_string()).collect()
}

#[test]
fn position_change_moves_first_node_with_id() {
    let mut nodes = vec![node("a"), node("b"), node("a")];
    let changes = vec![NodeChange::Position {
        id: NodeId::new("a"),
        position: Some(Point { x: 5.0, y: 7.0 }),
        dragging: Some(true),
    }];
    apply_node_changes(&changes, &mut nodes);
    assert_eq!(nodes[0].position, Point { x: 5.0, y: 7.0 });
    assert!(nodes[0].dragging);
    assert_eq!(nodes[2].position, Point { x: 0.0, y: 0.0 });
    assert!(!nodes[2].dragging);
}

#[test]
fn position_change_without_position_keeps_it() {
    let mut nodes = vec![node("a")];
    nodes[0].position = Point { x: 3.0, y: 4.0 };
    apply_node_changes(
        &[NodeChange::Position { id: NodeId::new("a"), position: None, dragging: Some(true) }],
        &mut nodes,
    );
    assert_eq!(nodes[0].position, Point { x: 3.0, y: 4.0 });
    assert!(nodes[0].dragging);
}

#[test]
fn dimensions_change_sets_measured_and_size() {
    let mut nodes = vec![node("a")];
    apply_node_changes(
        &[NodeChange::Dimensions { id: NodeId::new("a"), dimensions: Some(Dimensions::new(30.0, 20.0)) }],
        &mut nodes,
    );
    assert_eq!(nodes[0].measured, Some(Dimensions { width: 30.0, height: 20.0 }));
    assert_eq!(nodes[0].width, Some(30.0));
    assert_eq!(nodes[0].height, Some(20.0));
    apply_node_changes(&[NodeChange::Dimensions { id: NodeId::new("a"), dimensions: None }], &mut nodes);
    assert_eq!(nodes[0].measured, None);
    assert_eq!(nodes[0].width, Some(30.0));
}

#[test]
fn select_change_on_missing_id_does_nothing() {
    let mut nodes = vec![node("a"), node("b")];
    apply_node_changes(&[NodeChange::Select { id: NodeId::new("z"), selected: true }], &mut nodes);
    assert!(nodes.iter().all(|n| !n.selected));
    apply_node_changes(&[NodeChange::Select { id: NodeId::new("b"), selected: true }], &mut nodes);
    assert!(!nodes[0].selected && nodes[1].selected);
}

#[test]
fn remove_takes_out_every_node_with_id() {
    let mut nodes = vec![node("a"), node("b"), node("a"), node("c")];
    apply_node_changes(&[NodeChange::Remove { id: NodeId::new("a") }], &mut nodes);
    assert_eq!(ids(&nodes), vec!["b", "c"]);
}

#[test]
fn add_clamps_index_and_appends() {
    let mut nodes = vec![node("a"), node("b")];
    apply_node_changes(
        &[
            NodeChange::Add { node: node("x"), index: Some(1) },
            NodeChange::Add { node: node("y"), index: Some(99) },
            NodeChange::Add { node: node("z"), index: None },
        ],
        &mut nodes,
    );
    assert_eq!(ids(&nodes), vec!["a", "x", "b", "y", "z"]);
    assert_eq!(nodes[1].data, "data-x");
}

#[test]
fn replace_swaps_whole_node_in_place() {
    let mut nodes = vec![node("a"), node("b")];
    let mut repl = node("q");
    repl.selected = true;
    apply_node_changes(&[NodeChange::Replace { id: NodeId::new("b"), node: repl }], &mut nodes);
    assert_eq!(ids(&nodes), vec!["a", "q"]);
    assert!(nodes[1].selected);
    apply_node_changes(&[NodeChange::Replace { id: NodeId::new("zz"), node: node("w") }], &mut nodes);
    assert_eq!(ids(&nodes), vec!["a", "q"]);
}

#[test]
fn changes_compose_in_order() {
    let a = vec![NodeChange::Add { node: node("x"), index: None }];
    let b = vec![NodeChange::Select { id: NodeId::new("x"), selected: true }];
    let mut once = vec![node("a")];
    let mut both: Vec<NodeChange<String, f32>> = a.clone();
    both.extend(b.clone());
    apply_node_changes(&both, &mut once);
    let mut twice = vec![node("a")];
    apply_node_changes(&a, &mut twice);
    apply_node_changes(&b, &mut twice);
    assert_eq!(ids(&once), ids(&twice));
    assert_eq!(
        once.iter().map(|n| n.selected).collect::<Vec<_>>(),
        twice.iter().map(|n| n.selected).collect::<Vec<_>>()
    );
    assert!(once[1].selected);
}

#[test]
fn non_structural_changes_keep_ids() {
    let mut nodes = vec![node("a"), node("b")];
    let changes = vec![
        NodeChange::Select { id: NodeId::new("b"), selected: true },
        NodeChange::Position { id: NodeId::new("a"), position: Some(Point { x: 1.0, y: 1.0 }), dragging: None },
        NodeChange::Dimensions { id: NodeId::new("b"), dimensions: Some(Dimensions::new(2.0, 2.0)) },
    ];
    assert!(!has_structural_node_change(&changes));
    apply_node_changes(&changes, &mut nodes);
    assert_eq!(ids(&nodes), vec!["a", "b"]);
    assert!(has_structural_node_change(&[NodeChange::<String, f32>::Remove { id: NodeId::new("a") }]));
}

fn edge(id: &str, s: &str, t: &str) -> Edge<u32, f32> {
    Edge::new(id, s, t)
}

#[test]
fn edge_changes_select_anchor_style_remove() {
    let mut edges = vec![edge("e1", "a", "b"), edge("e2", "b", "c"), edge("e1", "x", "y")];
    let anchor = EdgeAnchor { side: Position::Top, t: 0.25_f32 };
    let style = EdgeStyle { color: Some(Color::from_rgb(1, 2, 3)), ..EdgeStyle::default() };
    apply_edge_changes(
        &[
            EdgeChange::Select { id: EdgeId::new("e2"), selected: true },
            EdgeChange::Anchor { id: EdgeId::new("e2"), source_anchor: Some(Some(anchor)), target_anchor: None },
            EdgeChange::Style { id: EdgeId::new("e2"), style: Some(style) },
        ],
        &mut edges,
    );
    assert!(edges[1].selected);
    assert_eq!(edges[1].source_anchor, Some(anchor));
    assert_eq!(edges[1].target_anchor, None);
    assert_eq!(edges[1].style, Some(style));
    apply_edge_changes(
        &[EdgeChange::Anchor { id: EdgeId::new("e2"), source_anchor: Some(None), target_anchor: None }],
        &mut edges,
    );
    assert_eq!(edges[1].source_anchor, None);
    apply_edge_changes(&[EdgeChange::Remove { id: EdgeId::new("e1") }], &mut edges);
    assert_eq!(edges.len(), 1);
    assert_eq!(edges[0].id.as_str(), "e2");
}

#[test]
fn edge_add_and_replace() {
    let mut edges = vec![edge("e1", "a", "b")];
    let mut with_data = edge("e2", "b", "c");
    with_data.data = Some(7);
    apply_edge_changes(
        &[
            EdgeChange::Add { edge: with_data, index: Some(0) },
            EdgeChange::Replace { id: EdgeId::new("e1"), edge: edge("e9", "q", "r") },
        ],
        &mut edges,
    );
    assert_eq!(edges[0].id.as_str(), "e2");
    assert_eq!(edges[0].data, Some(7));
    assert_eq!(edges[1].id.as_str(), "e9");
}

#[test]
fn add_then_remove_restores_nodes_and_edges() {
    let before = vec![node("a"), node("b")];
    let mut nodes = before.clone();
    let changes = vec![
        NodeChange::Add { node: node("n"), index: Some(1) },
        NodeChange::Remove { id: NodeId::new("n") },
    ];
    apply_node_changes(&changes, &mut nodes);
    assert_eq!(ids(&nodes), ids(&before));

    let edges0 = vec![edge("e1", "a", "b")];
    let mut edges = edges0.clone();
    let changes = vec![
        EdgeChange::Add { edge: edge("e2", "b", "a"), index: None },
        EdgeChange::Remove { id: EdgeId::new("e2") },
    ];
    apply_edge_changes(&changes, &mut edges);
    assert_eq!(edges.len(), 1);
    assert_eq!(edges[0].id, edges0[0].id);
}

#[test]
fn untouched_nodes_stay_as_they_were() {
    let before = vec![node("a"), node("b"), node("c")];
    let mut nodes = before.clone();
    let changes = vec![
        NodeChange::Remove { id: NodeId::new("b") },
        NodeChange::Select { id: NodeId::new("zz"), selected: true },
        NodeChange::Select { id: NodeId::new("c"), selected: true },
    ];
    apply_node_changes(&changes, &mut nodes);
    assert_eq!(ids(&nodes), vec!["a".to_string(), "c".to_string()]);
    assert_eq!(nodes[0].data, before[0].data);
    assert_eq!(nodes[1].data, before[2].data);
    assert!(!nodes[0].selected && nodes[1].selected);
}

#[test]
fn replace_of_absent_id_and_runs_compose() {
    let before = vec![node("a"), node("b")];
    let mut nodes = before.clone();
    apply_node_changes(&[NodeChange::Replace { id: NodeId::new("zz"), node: node("q") }], &mut nodes);
    assert_eq!(ids(&nodes), ids(&before));

    let c1 = vec![NodeChange::Add { node: node("n"), index: Some(1) }];
    let c2 = vec![
        NodeChange::Replace { id: NodeId::new("b"), node: node("r") },
        NodeChange::Select { id: NodeId::new("a"), selected: true },
    ];
    let mut once = before.clone();
    apply_node_changes(&[c1.clone(), c2.clone()].concat(), &mut once);
    let mut twice = before.clone();
    apply_node_changes(&c1, &mut twice);
    apply_node_changes(&c2, &mut twice);
    assert_eq!(ids(&once), vec!["a".to_string(), "n".to_string(), "r".to_string()]);
    assert_eq!(ids(&once), ids(&twice));
    assert_eq!(once[0].data, before[0].data);
    assert_eq!(twice[0].data, before[0].data);
    assert!(once[0].selected && twice[0].selected);
}
