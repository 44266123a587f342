use egui_xyflow::render::{connection_line_color, edge_stroke_color, handle_fill_color, minimap_node_color};
use egui_xyflow::state::handle_layout::{handle_slots, place_handles, HandleSlot};
use egui_xyflow::types::edge::{Color, Edge, EdgeStyle, EdgeType, MarkerType};
use egui_xyflow::types::handle::{HandleType, NodeHandle};
use egui_xyflow::types::ids::{EdgeId, NodeId};
use egui_xyflow::types::node::{InternalNode, Node, NodeHandleBounds, NodeInternals};
use egui_xyflow::types::position::{Dimensions, Point, Position};
use egui_xyflow::types::viewport::{Transform, Viewport};

#[test]
fn opposite_sides() {
    let all = [Position::Top, Position::Right, Position::Bottom, Position::Left, Position::Center, Position::Closest];
    for p in all {
        assert_eq!(p.opposite().opposite(), p);
        assert_eq!(p.opposite().is_horizontal(), p.is_horizontal());
        assert!(!(p.is_horizontal() && p.is_vertical()));
    }
    assert_eq!(Position::Top.opposite(), Position::Bottom);
    assert_eq!(Position::Left.opposite(), Position::Right);
    assert_eq!(Position::Center.opposite(), Position::Center);
    assert!(Position::Left.is_horizontal() && Position::Top.is_vertical());
    assert!(!Position::Closest.is_horizontal() && !Position::Closest.is_vertical());
}

#[test]
fn ids_round_trip() {
    let id = NodeId::new("node-1");
    assert_eq!(id.as_str(), "node-1");
    assert_eq!(id.to_string(), "node-1");
    assert_eq!(NodeId::from_string("x".to_string()), NodeId::new("x"));
    assert_ne!(EdgeId::new("a"), EdgeId::new("b"));
}

#[test]
fn node_builder_defaults_and_setters() {
    let n: Node<String, f32> = Node::builder("n1")
        .position(Point { x: 100.0, y: 50.0 })
        .data("Input".to_string())
        .handle(NodeHandle::source(Position::Right))
        .handle(NodeHandle::target(Position::Left).with_id("in".to_string()))
        .z_index(3)
        .hidden(true)
        .parent("group")
        .size(120.0, 60.0)
        .build();
    assert_eq!(n.id.as_str(), "n1");
    assert_eq!(n.position, Point { x: 100.0, y: 50.0 });
    assert_eq!(n.data, "Input");
    assert_eq!(n.handles.len(), 2);
    assert_eq!(n.handles[0].handle_type, HandleType::Source);
    assert_eq!(n.handles[0].x, 0.0);
    assert_eq!(n.handles[1].id.as_deref(), Some("in"));
    assert_eq!(n.z_index, Some(3));
    assert!(n.hidden && !n.selected);
    assert_eq!(n.parent_id, Some(NodeId::new("group")));
    assert_eq!((n.width, n.height), (Some(120.0), Some(60.0)));
    let d: Node<u8, f32> = Node::builder_with_data("d", 9).build();
    assert_eq!(d.data, 9);
    assert_eq!(d.position, Point { x: 0.0, y: 0.0 });
    assert!(d.handles.is_empty() && d.parent_id.is_none() && d.measured.is_none());
}

#[test]
fn internal_node_size_falls_back() {
    let mut n: Node<(), f32> = Node::builder("a").build();
    let mk = |n: Node<(), f32>| InternalNode {
        node: n,
        internals: NodeInternals { position_absolute: Point { x: 0.0, y: 0.0 }, z: 0, handle_bounds: NodeHandleBounds::new() },
    };
    let i = mk(n.clone());
    assert_eq!((i.width(), i.height()), (150.0, 40.0));
    n.measured = Some(Dimensions::new(70.0, 30.0));
    let i = mk(n.clone());
    assert_eq!((i.width(), i.height()), (70.0, 30.0));
    n.width = Some(10.0);
    let i = mk(n);
    assert_eq!((i.width(), i.height()), (10.0, 30.0));
}

#[test]
fn edge_builder() {
    let e: Edge<(), f32> = Edge::new("e1", "a", "b");
    assert_eq!(e.interaction_width, 20.0);
    assert!(e.edge_type.is_none() && e.style.is_none() && e.label.is_none());
    let c = Color::from_rgb(59, 130, 246);
    let e = e
        .edge_type(EdgeType::SmoothStep)
        .animated(true)
        .marker_end_arrow()
        .color(c)
        .stroke_width(3.0)
        .glow(Color::from_rgba_premultiplied(1, 2, 3, 60), 12.0)
        .label("hello".to_string());
    assert_eq!(e.edge_type, Some(EdgeType::SmoothStep));
    assert!(e.animated);
    assert_eq!(e.marker_end.unwrap().marker_type, MarkerType::ArrowClosed);
    let st = e.style.unwrap();
    assert_eq!(st.color, Some(c));
    assert_eq!(st.stroke_width, Some(3.0));
    assert_eq!(st.glow.unwrap().width, 12.0);
    assert_eq!(e.label.as_deref(), Some("hello"));
    assert_eq!(EdgeType::default(), EdgeType::Bezier);
    let b: Edge<(), f32> = Edge::builder("x", "p", "q").selected_color(c);
    assert_eq!(b.style.unwrap().selected_color, Some(c));
    assert_eq!(b.style.unwrap().color, None);
}

#[test]
fn viewport_and_transform() {
    let v: Viewport<f32> = Viewport::default();
    assert_eq!((v.x, v.y, v.zoom), (0.0, 0.0, 1.0));
    let t = Viewport::new(5.0_f32, 6.0, 2.0).to_transform();
    assert_eq!(t, Transform { x: 5.0, y: 6.0, scale: 2.0 });
    let d: Transform<f32> = Transform::default();
    assert_eq!(d.scale, 1.0);
}

#[test]
fn handle_slots_spread_per_side() {
    let hs: Vec<NodeHandle<f32>> = vec![
        NodeHandle::source(Position::Right),
        NodeHandle::target(Position::Left),
        NodeHandle::source(Position::Right),
        NodeHandle::source(Position::Bottom),
        NodeHandle::source(Position::Right),
    ];
    let src = handle_slots(&hs, HandleType::Source);
    assert_eq!(
        src,
        vec![
            HandleSlot { handle_index: 0, count: 3, index: 0 },
            HandleSlot { handle_index: 2, count: 3, index: 1 },
            HandleSlot { handle_index: 3, count: 1, index: 0 },
            HandleSlot { handle_index: 4, count: 3, index: 2 },
        ]
    );
    let tgt = handle_slots(&hs, HandleType::Target);
    assert_eq!(tgt, vec![HandleSlot { handle_index: 1, count: 1, index: 0 }]);
}

#[test]
fn renderer_colours() {
    let hc = Color::from_rgb(200, 100, 50);
    let hover = Color::from_rgb(1, 1, 1);
    assert_eq!(handle_fill_color(true, false, hc, hover), hover);
    assert_eq!(handle_fill_color(false, true, hc, hover), hc);
    let faded = handle_fill_color(false, false, hc, hover);
    assert_eq!(faded.a, 128);
    assert!(faded.r < 200);
    assert_eq!(
        [faded.r, faded.g, faded.b, faded.a],
        egui::Color32::from_rgba_unmultiplied(200, 100, 50, 128).to_array()
    );
    let style = Some(EdgeStyle::<f32> { color: Some(hc), ..EdgeStyle::default() });
    let (ec, es) = (Color::from_rgb(9, 9, 9), Color::from_rgb(8, 8, 8));
    assert_eq!(edge_stroke_color(false, &style, ec, es), hc);
    assert_eq!(edge_stroke_color(true, &style, ec, es), es);
    assert_eq!(edge_stroke_color::<f32>(false, &None, ec, es), ec);
    assert_eq!(connection_line_color(Some(true), ec), Color::from_rgb(34, 197, 94));
    assert_eq!(connection_line_color(Some(false), ec), Color::from_rgb(239, 68, 68));
    assert_eq!(connection_line_color(None, ec), ec);
    assert_eq!(minimap_node_color(false, ec), Color::from_rgb(180, 180, 200));
    assert_eq!(minimap_node_color(true, ec), ec);
}

#[test]
fn placed_handles_carry_ids_sides_and_offsets() {
    let node: Node<(), f32> = Node::builder("n")
        .handle(NodeHandle::source(Position::Right).with_id("o1".to_string()))
        .handle(NodeHandle::target(Position::Left))
        .handle(NodeHandle::source(Position::Bottom))
        .build();
    let hs = place_handles(&node, HandleType::Source, &[(1.0, 2.0), (3.0, 4.0)], 8.0);
    assert_eq!(hs.len(), 2);
    assert_eq!(hs[0].id.as_deref(), Some("o1"));
    assert_eq!(hs[0].node_id, "n");
    assert_eq!((hs[0].x, hs[0].y), (1.0, 2.0));
    assert_eq!(hs[1].position, Position::Bottom);
    assert_eq!(hs[1].handle_type, HandleType::Source);
    assert_eq!((hs[1].width, hs[1].height), (8.0, 8.0));
}
