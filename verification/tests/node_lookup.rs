use egui_xyflow::state::lookup::{
    get_node_position, selected_node_ids, sorted_by_z, visible_node_ids, NodeLookup,
};
use egui_xyflow::types::ids::NodeId;
use egui_xyflow::types::node::{InternalNode, Node, NodeHandleBounds, NodeInternals};
use egui_xyflow::types::position::Point;

fn make_lookup() -> NodeLookup<(), f32> {
    let mut m = NodeLookup::new();
    for (id_str, x, y, z, selected, hidden) in [
        ("a", 0.0_f32, 0.0_f32, 0_i32, false, false),
        ("b", 100.0, 0.0, 1, true, false),
        ("c", 200.0, 0.0, 0, false, true),
    ] {
        let mut node: Node<(), f32> = Node::builder(id_str).build();
        node.selected = selected;
        node.hidden = hidden;
        node.width = Some(100.0);
        node.height = Some(40.0);
        m.insert(InternalNode {
            node,
            internals: NodeInternals {
                position_absolute: Point { x, y },
                z,
                handle_bounds: NodeHandleBounds::new(),
            },
        });
    }
    m
}

#[test]
fn test_get_node_position() {
    let lk = make_lookup();
    assert_eq!(
        get_node_position(&lk, &NodeId::new("a")),
        Some(Point { x: 0.0, y: 0.0 })
    );
    assert_eq!(get_node_position(&lk, &NodeId::new("z")), None);
}

#[test]
fn test_visible_node_ids() {
    let lk = make_lookup();
    let visible = visible_node_ids(&lk);
    assert!(visible.contains(&NodeId::new("a")));
    assert!(visible.contains(&NodeId::new("b")));
    assert!(
        !visible.contains(&NodeId::new("c")),
        "hidden node should be excluded"
    );
}

#[test]
fn test_selected_node_ids() {
    let lk = make_lookup();
    let sel = selected_node_ids(&lk);
    assert_eq!(sel, vec![NodeId::new("b")]);
}

#[test]
fn test_sorted_by_z() {
    let lk = make_lookup();
    let sorted = sorted_by_z(&lk);
    // "a" (z=0) and "c" (z=0) come before "b" (z=1)
    let pos_b = sorted.iter().position(|id| id.as_str() == "b").unwrap();
    let pos_a = sorted.iter().position(|id| id.as_str() == "a").unwrap();
    assert!(pos_a < pos_b);
}
