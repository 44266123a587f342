use egui_xyflow::canvas::{
    add_connection_edge, pick_anchor_drag, release_connection, start_connection,
    update_connection_state, AllowAllConnections, ConnectionValidator,
};
use egui_xyflow::selection::{
    background_blocked, pan_zoom_allowed, selection_drag_active, selection_step, PointerActivity, SelectionInput,
    SelectionStep,
};
use egui_xyflow::types::connection::{Connection, ConnectionState, EdgeInfo};
use egui_xyflow::types::edge::{AnchorEndpoint, Edge, EdgeType};
use egui_xyflow::types::handle::{Handle, HandleType};
use egui_xyflow::types::ids::NodeId;
use egui_xyflow::types::position::{Point, Position};

struct RefuseAll;

impl ConnectionValidator for RefuseAll {
    fn is_valid_connection(&self, _: &Connection, _: &[EdgeInfo<'_>]) -> bool {
        false
    }
}

/// Refuses a second edge into the same target node.
struct SingleFanIn;

impl ConnectionValidator for SingleFanIn {
    fn is_valid_connection(&self, c: &Connection, existing: &[EdgeInfo<'_>]) -> bool {
        !existing.iter().any(|e| *e.target == c.target)
    }
}

fn handle(node: &str, t: HandleType, id: Option<&str>) -> Handle<f32> {
    Handle {
        id: id.map(|s| s.to_string()),
        node_id: node.to_string(),
        x: 0.0,
        y: 0.0,
        position: Position::Right,
        handle_type: t,
        width: 8.0,
        height: 8.0,
    }
}

fn dragged_to(from: &str, to: &str) -> ConnectionState<f32> {
    let mut st = start_connection(handle(from, HandleType::Source, None), Point { x: 0.0, y: 0.0 });
    let target = handle(to, HandleType::Target, Some("in"));
    update_connection_state(&mut st, Some(Point { x: 3.0, y: 4.0 }), Some(&target));
    st
}

#[test]
fn release_adds_edge_once() {
    let mut edges: Vec<Edge<(), f32>> = Vec::new();
    let mut st = dragged_to("a", "b");
    let rel = release_connection(&mut st, &mut edges, &AllowAllConnections, EdgeType::Bezier);
    let (ended, made) = (rel.ended, rel.made);
    assert_eq!(rel.allowed, Some(true));
    assert!(ended);
    assert!(matches!(st, ConnectionState::Idle));
    let conn = made.unwrap();
    assert_eq!(conn.source, NodeId::new("a"));
    assert_eq!(edges.len(), 1);
    assert_eq!(edges[0].id.as_str(), "ea-b");
    assert_eq!(edges[0].target_handle.as_deref(), Some("in"));
    assert_eq!(edges[0].edge_type, Some(EdgeType::Bezier));

    let mut again = dragged_to("a", "b");
    let rel = release_connection(&mut again, &mut edges, &AllowAllConnections, EdgeType::Bezier);
    let (ended, made) = (rel.ended, rel.made);
    assert_eq!(rel.allowed, Some(true));
    assert!(ended);
    assert!(made.is_none());
    assert_eq!(edges.len(), 1);
}

#[test]
fn release_respects_validator() {
    let mut edges: Vec<Edge<(), f32>> = Vec::new();
    let mut st = dragged_to("a", "b");
    let rel = release_connection(&mut st, &mut edges, &RefuseAll, EdgeType::Straight);
    assert_eq!(rel.allowed, Some(false));
    let (ended, made) = (rel.ended, rel.made);
    assert!(ended && made.is_none() && edges.is_empty());
    assert!(matches!(st, ConnectionState::Idle));

    let mut st = dragged_to("a", "b");
    assert!(release_connection(&mut st, &mut edges, &SingleFanIn, EdgeType::Straight).made.is_some());
    let mut st = dragged_to("c", "b");
    assert!(release_connection(&mut st, &mut edges, &SingleFanIn, EdgeType::Straight).made.is_none());
    assert_eq!(edges.len(), 1);
}

#[test]
fn release_without_drag_or_target() {
    let mut edges: Vec<Edge<(), f32>> = Vec::new();
    let mut idle: ConnectionState<f32> = ConnectionState::Idle;
    let rel = release_connection(&mut idle, &mut edges, &AllowAllConnections, EdgeType::Step);
    assert_eq!(rel.allowed, None);
    let (ended, made) = (rel.ended, rel.made);
    assert!(!ended && made.is_none());
    let mut open = start_connection(handle("a", HandleType::Source, None), Point { x: 0.0, y: 0.0 });
    let rel = release_connection(&mut open, &mut edges, &AllowAllConnections, EdgeType::Step);
    assert_eq!(rel.allowed, None);
    let (ended, made) = (rel.ended, rel.made);
    assert!(ended && made.is_none() && edges.is_empty());
    assert!(matches!(open, ConnectionState::Idle));
}

#[test]
fn connection_edge_only_when_allowed_and_new() {
    let conn = Connection {
        source: NodeId::new("x"),
        target: NodeId::new("y"),
        source_handle: Some("o".to_string()),
        target_handle: None,
    };
    let mut edges: Vec<Edge<(), f32>> = vec![Edge::new("keep", "p", "q")];
    assert!(!add_connection_edge(&mut edges, &conn, false, EdgeType::Bezier));
    assert_eq!(edges.len(), 1);
    assert!(add_connection_edge(&mut edges, &conn, true, EdgeType::SmoothStep));
    assert_eq!(edges.len(), 2);
    assert_eq!(edges[0].id.as_str(), "keep");
    assert_eq!(edges[1].id.as_str(), "ex-y");
    assert_eq!(edges[1].source_handle.as_deref(), Some("o"));
    assert_eq!(edges[1].interaction_width, 20.0);
    assert!(!add_connection_edge(&mut edges, &conn, true, EdgeType::SmoothStep));
    assert_eq!(edges.len(), 2);
}

#[test]
fn anchor_drag_picks_first_grabbable_end() {
    let mut edges: Vec<Edge<(), f32>> = vec![
        Edge::new("e1", "a", "b"),
        Edge::new("e2", "b", "c"),
        Edge::new("e3", "c", "d"),
    ];
    edges[0].hidden = true;
    let hovers = [(true, false), (false, true), (true, true)];
    let d = pick_anchor_drag(&edges, true, &hovers).unwrap();
    assert_eq!(d.edge_id.as_str(), "e2");
    assert_eq!(d.endpoint, AnchorEndpoint::Target);
    assert_eq!(d.node_id, NodeId::new("c"));

    edges[1].anchors_draggable = Some(false);
    let d = pick_anchor_drag(&edges, true, &hovers).unwrap();
    assert_eq!(d.edge_id.as_str(), "e3");
    assert_eq!(d.endpoint, AnchorEndpoint::Source);
    assert_eq!(d.node_id, NodeId::new("c"));

    assert!(pick_anchor_drag(&edges, false, &hovers).is_none());
    assert!(pick_anchor_drag(&edges, true, &hovers[..2]).is_none());
}

fn quiet() -> SelectionInput {
    SelectionInput {
        blocked: false,
        clicked: false,
        pan_on_drag: false,
        shift: false,
        drag_started: false,
        pointer_in_canvas: true,
        dragged: false,
        pointer_known: true,
        drag_stopped: false,
        box_large: false,
    }
}

#[test]
fn selection_box_lifecycle() {
    let start = SelectionInput { drag_started: true, ..quiet() };
    assert_eq!(selection_step(false, start), SelectionStep::Start { deselect: true });
    let start_shift = SelectionInput { shift: true, ..start };
    assert_eq!(selection_step(false, start_shift), SelectionStep::Start { deselect: false });
    let outside = SelectionInput { pointer_in_canvas: false, ..start };
    assert_eq!(selection_step(false, outside), SelectionStep::Keep);
    let drag = SelectionInput { dragged: true, ..quiet() };
    assert_eq!(selection_step(true, drag), SelectionStep::Update);
    assert_eq!(selection_step(false, drag), SelectionStep::Keep);
    let stop = SelectionInput { drag_stopped: true, box_large: true, ..quiet() };
    assert_eq!(selection_step(true, stop), SelectionStep::Finish { apply: true, shift: false });
    let tiny = SelectionInput { box_large: false, ..stop };
    assert_eq!(selection_step(true, tiny), SelectionStep::Finish { apply: false, shift: false });
    assert_eq!(selection_step(false, quiet()), SelectionStep::Keep);
}

#[test]
fn selection_box_blocked_click_and_pan() {
    let blocked = SelectionInput { blocked: true, clicked: true, drag_started: true, ..quiet() };
    assert_eq!(selection_step(true, blocked), SelectionStep::Cancel);
    let click = SelectionInput { clicked: true, drag_stopped: true, ..quiet() };
    assert_eq!(selection_step(true, click), SelectionStep::DeselectAll);
    let pan = SelectionInput { pan_on_drag: true, drag_started: true, ..quiet() };
    assert_eq!(selection_step(false, pan), SelectionStep::Keep);
    let pan_shift = SelectionInput { shift: true, ..pan };
    assert_eq!(selection_step(false, pan_shift), SelectionStep::Start { deselect: false });
    let pan_dragging = SelectionInput { pan_on_drag: true, dragged: true, ..quiet() };
    assert_eq!(selection_step(true, pan_dragging), SelectionStep::Update);
}

fn idle_pointer() -> PointerActivity {
    PointerActivity {
        over_node: false,
        node_dragging: false,
        connecting: false,
        resizing: false,
        edge_clicked: false,
        anchor_dragging: false,
    }
}

#[test]
fn background_gating() {
    let idle = idle_pointer();
    assert!(!background_blocked(idle));
    assert!(pan_zoom_allowed(idle));

    let hovering = PointerActivity { over_node: true, ..idle };
    assert!(background_blocked(hovering));
    assert!(pan_zoom_allowed(hovering));

    let edge = PointerActivity { edge_clicked: true, ..idle };
    assert!(background_blocked(edge));
    assert!(pan_zoom_allowed(edge));

    for busy in [
        PointerActivity { node_dragging: true, ..idle },
        PointerActivity { connecting: true, ..idle },
        PointerActivity { resizing: true, ..idle },
        PointerActivity { anchor_dragging: true, ..idle },
    ] {
        assert!(background_blocked(busy));
        assert!(!pan_zoom_allowed(busy));
    }
}

#[test]
fn shift_drag_selects_when_dragging_pans() {
    assert!(!selection_drag_active(false, true, false, false));
    assert!(selection_drag_active(false, true, true, false));
    assert!(!selection_drag_active(false, true, true, true));
    assert!(!selection_drag_active(false, false, true, false));
    assert!(selection_drag_active(true, false, false, true));
}
