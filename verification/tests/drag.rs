use egui_xyflow::drag::{node_click_step, node_drag_step, node_draggable, resize_handle_node, resize_step};
use egui_xyflow::canvas::{node_removals, select_all_changes};
use egui_xyflow::state::changes::apply_node_changes;
use egui_xyflow::state::lookup::NodeLookup;
use egui_xyflow::types::changes::NodeChange;
use egui_xyflow::types::ids::{EdgeId, NodeId};
use egui_xyflow::types::node::{Node, NodeHandleBounds};
use egui_xyflow::types::position::{Dimensions, Point};

fn plain(id: &str) -> Node<(), f32> {
    Node::builder(id).build()
}

fn lookup_of(nodes: &Vec<Node<(), f32>>) -> NodeLookup<(), f32> {
    NodeLookup::from_nodes(nodes, (0..nodes.len()).map(|_| NodeHandleBounds::new()).collect())
}

#[test]
fn click_respects_selectability() {
    let mut nodes = vec![plain("a"), plain("b")];
    nodes[1].selectable = Some(true);
    let lk = lookup_of(&nodes);
    assert!(node_click_step(&lk, &NodeId::new("a"), false, false).is_empty());
    assert_eq!(node_click_step(&lk, &NodeId::new("b"), false, false).len(), 2);
    assert_eq!(node_click_step(&lk, &NodeId::new("a"), true, true).len(), 1);
    nodes[0].selectable = Some(false);
    let lk = lookup_of(&nodes);
    assert!(node_click_step(&lk, &NodeId::new("a"), false, true).is_empty());
}

#[test]
fn select_all_and_delete_follow_global_settings() {
    let mut nodes = vec![plain("a"), plain("b"), plain("c")];
    nodes[1].selectable = Some(true);
    assert_eq!(select_all_changes(&nodes, false).len(), 1);
    assert_eq!(select_all_changes(&nodes, true).len(), 3);
    for n in nodes.iter_mut() {
        n.selected = true;
    }
    nodes[2].deletable = Some(true);
    let removals = node_removals(&nodes, false);
    assert_eq!(removals.len(), 1);
    apply_node_changes(&removals, &mut nodes);
    assert_eq!(nodes.len(), 2);
    assert_eq!(node_removals(&nodes, true).len(), 2);
}

#[test]
fn dragging_a_selected_node_moves_the_selection() {
    let mut nodes = vec![plain("a"), plain("b"), plain("c"), plain("d")];
    nodes[0].selected = true;
    nodes[1].selected = true;
    nodes[2].selected = true;
    nodes[2].draggable = Some(false);
    let lk = lookup_of(&nodes);
    let moved = vec![
        (NodeId::new("b"), Point { x: 5.0, y: 6.0 }),
        (NodeId::new("a"), Point { x: 1.0, y: 2.0 }),
    ];
    let step = node_drag_step(&lk, Some(&NodeId::new("b")), &moved, true, false, true);
    assert_eq!(step.started, vec![NodeId::new("a"), NodeId::new("b")]);
    assert!(step.stopped.is_empty());
    apply_node_changes(&step.changes, &mut nodes);
    assert_eq!(nodes[0].position, Point { x: 1.0, y: 2.0 });
    assert_eq!(nodes[1].position, Point { x: 5.0, y: 6.0 });
    assert!(nodes[0].dragging && nodes[1].dragging && !nodes[2].dragging);

    let lk = lookup_of(&nodes);
    let step = node_drag_step(&lk, None, &[], false, true, true);
    assert_eq!(step.stopped, vec![NodeId::new("a"), NodeId::new("b")]);
    apply_node_changes(&step.changes, &mut nodes);
    assert!(nodes.iter().all(|n| !n.dragging));
    assert_eq!(nodes[1].position, Point { x: 5.0, y: 6.0 });
}

#[test]
fn dragging_an_unselected_node_moves_it_alone() {
    let mut nodes = vec![plain("a"), plain("b")];
    nodes[0].selected = true;
    let lk = lookup_of(&nodes);
    let moved = vec![(NodeId::new("b"), Point { x: 3.0, y: 3.0 })];
    let step = node_drag_step(&lk, Some(&NodeId::new("b")), &moved, false, false, true);
    assert!(step.started.is_empty());
    assert_eq!(step.changes.len(), 1);
    apply_node_changes(&step.changes, &mut nodes);
    assert_eq!(nodes[1].position, Point { x: 3.0, y: 3.0 });
    assert_eq!(nodes[0].position, Point { x: 0.0, y: 0.0 });
    let none = node_drag_step(&lk, Some(&NodeId::new("zz")), &moved, true, false, true);
    assert!(none.changes.is_empty() && none.started.is_empty());
}

#[test]
fn resize_takes_priority_over_drag() {
    let mut nodes = vec![plain("a"), plain("b")];
    assert!(resize_handle_node(&lookup_of(&nodes)).is_none());
    nodes[1].selected = true;
    assert_eq!(resize_handle_node(&lookup_of(&nodes)), Some(NodeId::new("b")));
    nodes[0].selected = true;
    assert!(resize_handle_node(&lookup_of(&nodes)).is_none());

    let frame: Vec<NodeChange<(), f32>> = vec![
        NodeChange::Position { id: NodeId::new("b"), position: Some(Point { x: 1.0, y: 1.0 }), dragging: Some(true) },
        NodeChange::Select { id: NodeId::new("b"), selected: true },
        NodeChange::Position { id: NodeId::new("a"), position: None, dragging: Some(true) },
    ];
    let resize = vec![NodeChange::Dimensions { id: NodeId::new("b"), dimensions: Some(Dimensions { width: 9.0, height: 4.0 }) }];
    let r = resize_step(frame.clone(), &NodeId::new("b"), true, resize.clone());
    assert_eq!(r.len(), 3);
    assert!(matches!(&r[0], NodeChange::Select { .. }));
    assert!(matches!(&r[1], NodeChange::Position { id, .. } if id.as_str() == "a"));
    assert!(matches!(&r[2], NodeChange::Dimensions { .. }));
    assert_eq!(resize_step(frame, &NodeId::new("b"), false, resize).len(), 4);
}

#[test]
fn ids_convert_from_strings() {
    let a: NodeId = "n1".into();
    let b = NodeId::from(String::from("n1"));
    assert_eq!(a, b);
    let e: EdgeId = EdgeId::from("e1");
    assert_eq!(e.as_str(), "e1");
}

#[test]
fn draggable_flag_falls_back_to_default() {
    let mut n = plain("a");
    assert!(node_draggable(&n, true));
    assert!(!node_draggable(&n, false));
    n.draggable = Some(false);
    assert!(!node_draggable(&n, true));
    n.draggable = Some(true);
    assert!(node_draggable(&n, false));
}
