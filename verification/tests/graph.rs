use egui_xyflow::state::graph::{apply_graph_node_changes, rebuild_lookup, ZOrderCache};
use egui_xyflow::types::changes::NodeChange;
use egui_xyflow::types::ids::NodeId;
use egui_xyflow::types::node::{Node, NodeHandleBounds};
use egui_xyflow::types::position::{Dimensions, Point};

fn plain(id: &str) -> Node<u32, f32> {
    Node::builder_with_data(id, 7).build()
}

fn no_handles(_: &Node<u32, f32>) -> NodeHandleBounds<f32> {
    NodeHandleBounds::new()
}

#[test]
fn rebuild_resolves_parents() {
    let mut nodes = vec![plain("p"), plain("c")];
    nodes[0].z_index = Some(3);
    nodes[1].parent_id = Some(NodeId::new("p"));
    let (lk, offsets) = rebuild_lookup(&nodes, &no_handles);
    let offsets = offsets.unwrap();
    assert_eq!(offsets.len(), 1);
    assert_eq!(offsets[0].child, NodeId::new("c"));
    assert_eq!(lk.entry(1).internals.z, 4);

    nodes[0].z_index = Some(i32::MAX);
    let (lk, offsets) = rebuild_lookup(&nodes, &no_handles);
    assert!(offsets.is_none());
    assert_eq!(lk.entry(1).internals.z, 0);
}

#[test]
fn graph_changes_keep_lookup_in_step() {
    let mut nodes = vec![plain("a"), plain("b")];
    let (mut lk, _) = rebuild_lookup(&nodes, &no_handles);
    let counted = |n: &Node<u32, f32>| {
        let mut b = NodeHandleBounds::new();
        if n.width == Some(50.0) {
            b.source.push(egui_xyflow::types::handle::Handle {
                id: None,
                node_id: n.id.0.clone(),
                x: 0.0,
                y: 0.0,
                position: egui_xyflow::types::position::Position::Right,
                handle_type: egui_xyflow::types::handle::HandleType::Source,
                width: 1.0,
                height: 1.0,
            });
        }
        b
    };
    let moves = vec![
        NodeChange::Position { id: NodeId::new("b"), position: Some(Point { x: 4.0, y: 5.0 }), dragging: None },
        NodeChange::Dimensions { id: NodeId::new("a"), dimensions: Some(Dimensions { width: 50.0, height: 9.0 }) },
    ];
    let mut z_order = ZOrderCache::new();
    let up = apply_graph_node_changes(&mut nodes, &mut lk, &moves, &counted, &mut z_order);
    assert!(!up.structural);
    assert!(up.offsets.unwrap().is_empty());
    assert_eq!(lk.entry(1).node.position, Point { x: 4.0, y: 5.0 });
    assert_eq!(lk.entry(1).internals.position_absolute, Point { x: 4.0, y: 5.0 });
    assert_eq!(lk.entry(0).internals.handle_bounds.source.len(), 1);
    assert_eq!(nodes[0].width, Some(50.0));

    let adds = vec![NodeChange::Add { node: plain("c"), index: Some(0) }, NodeChange::Remove { id: NodeId::new("a") }];
    let up = apply_graph_node_changes(&mut nodes, &mut lk, &adds, &counted, &mut z_order);
    assert!(up.structural);
    let ids: Vec<&str> = nodes.iter().map(|n| n.id.as_str()).collect();
    assert_eq!(ids, vec!["c", "b"]);
    assert_eq!(lk.len(), 2);
    assert_eq!(lk.entry(0).node.id.as_str(), "c");
    assert_eq!(lk.entry(1).node.data, 7);
}

#[test]
fn z_order_reused_until_structural_change() {
    let mut nodes = vec![plain("a"), plain("b")];
    nodes[0].z_index = Some(5);
    let (mut lk, _) = rebuild_lookup(&nodes, &no_handles);
    let mut z_order = ZOrderCache::new();
    let first: Vec<String> = z_order.sorted_ids(&lk).iter().map(|i| i.as_str().to_string()).collect();
    assert_eq!(first, vec!["b", "a"]);

    // A selection leaves the held order in place.
    let select = vec![NodeChange::Select { id: NodeId::new("b"), selected: true }];
    let up = apply_graph_node_changes(&mut nodes, &mut lk, &select, &no_handles, &mut z_order);
    assert!(!up.structural);
    let again: Vec<String> = z_order.sorted_ids(&lk).iter().map(|i| i.as_str().to_string()).collect();
    assert_eq!(again, first);

    // Adding a node drops it, and the next call sorts afresh.
    let mut c = plain("c");
    c.z_index = Some(9);
    let add = vec![NodeChange::Add { node: c, index: None }];
    let up = apply_graph_node_changes(&mut nodes, &mut lk, &add, &no_handles, &mut z_order);
    assert!(up.structural);
    let fresh: Vec<String> = z_order.sorted_ids(&lk).iter().map(|i| i.as_str().to_string()).collect();
    assert_eq!(fresh, vec!["b", "a", "c"]);

    z_order.invalidate();
    let after: Vec<String> = z_order.sorted_ids(&lk).iter().map(|i| i.as_str().to_string()).collect();
    assert_eq!(after, fresh);
}
