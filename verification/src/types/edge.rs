//! Edge types: [`Edge`], markers, anchors, and styling.

use vstd::prelude::*;

use super::handle::is_scalar_of;
use super::ids::{EdgeId, NodeId};
use super::position::Position;

verus! {

/// An RGBA colour with premultiplied alpha, one byte per channel.
#[derive(Debug, Clone, Copy, PartialEq, Eq, Structural, Hash)]
pub struct Color {
    /// Red channel (premultiplied).
    pub r: u8,
    /// Green channel (premultiplied).
    pub g: u8,
    /// Blue channel (premultiplied).
    pub b: u8,
    /// Alpha channel.
    pub a: u8,
}

impl Color {
    /// An opaque colour.
    pub fn from_rgb(r: u8, g: u8, b: u8) -> (c: Color)
        ensures
            c == (Color { r, g, b, a: 255 }),
    {
        Color { r, g, b, a: 255 }
    }

    /// A colour from premultiplied channels, taken as they are.
    pub fn from_rgba_premultiplied(r: u8, g: u8, b: u8, a: u8) -> (c: Color)
        ensures
            c == (Color { r, g, b, a }),
    {
        Color { r, g, b, a }
    }
}

/// Per-edge visual style overrides. When set on an [`Edge`], these take
/// priority over the global edge colour / stroke settings.
#[derive(Debug, Clone, Copy, PartialEq)]
pub struct EdgeStyle<S> {
    /// Override edge colour (when not selected).
    pub color: Option<Color>,
    /// Override edge colour when selected.
    pub selected_color: Option<Color>,
    /// Override stroke width (before the 2x selected multiplier).
    pub stroke_width: Option<S>,
    /// When `Some`, a glow effect is drawn behind the edge.
    pub glow: Option<EdgeGlow<S>>,
}

impl<S> Default for EdgeStyle<S> {
    fn default() -> (s: Self)
        ensures
            s.color is None,
            s.selected_color is None,
            s.stroke_width is None,
            s.glow is None,
    {
        EdgeStyle { color: None, selected_color: None, stroke_width: None, glow: None }
    }
}

/// The style with no override set.
pub open spec fn empty_style<S>() -> EdgeStyle<S> {
    EdgeStyle { color: None, selected_color: None, stroke_width: None, glow: None }
}

/// Configuration for an edge glow effect — a wider, semi-transparent stroke
/// painted underneath the main edge stroke.
#[derive(Debug, Clone, Copy, PartialEq)]
pub struct EdgeGlow<S> {
    /// Colour of the glow.
    pub color: Color,
    /// Total width of the glow stroke.
    pub width: S,
}

impl<S> EdgeGlow<S> {
    /// Create a new glow configuration.
    pub fn new(color: Color, width: S) -> (g: Self)
        ensures
            g.color == color,
            g.width == width,
    {
        EdgeGlow { color, width }
    }
}

/// A user-defined edge endpoint position on a node's border.
#[derive(Debug, Clone, Copy, PartialEq)]
pub struct EdgeAnchor<S> {
    /// Which side of the node the endpoint is on (Top/Right/Bottom/Left only).
    pub side: Position,
    /// Normalised position along that side, in `0..=1`.
    pub t: S,
}

/// Which endpoint of an edge an anchor drag is acting on.
#[derive(Debug, Clone, Copy, PartialEq, Eq, Structural)]
pub enum AnchorEndpoint {
    /// The source end.
    Source,
    /// The target end.
    Target,
}

/// The path algorithm used to draw an edge.
#[derive(Debug, Clone, Copy, PartialEq, Eq, Structural, Hash)]
pub enum EdgeType {
    /// A single straight line segment.
    Straight,
    /// A cubic bezier curve (default).
    Bezier,
    /// An orthogonal path with rounded corners.
    SmoothStep,
    /// A simplified bezier with fewer control points.
    SimpleBezier,
    /// An orthogonal path with sharp 90-degree corners.
    Step,
}

impl Default for EdgeType {
    fn default() -> (t: Self)
        ensures
            t == EdgeType::Bezier,
    {
        EdgeType::Bezier
    }
}

/// The shape of an arrow marker at an edge endpoint.
#[derive(Debug, Clone, Copy, PartialEq, Eq, Structural)]
pub enum MarkerType {
    /// Open arrow head (two lines).
    Arrow,
    /// Closed (filled) arrow head.
    ArrowClosed,
}

/// Arrow marker configuration for an edge endpoint.
#[derive(Debug, Clone, Copy)]
pub struct EdgeMarker<S> {
    /// Arrow head shape.
    pub marker_type: MarkerType,
    /// Override colour; `None` uses the edge colour.
    pub color: Option<Color>,
    /// Override depth of the head.
    pub width: Option<S>,
    /// Override breadth of the head.
    pub height: Option<S>,
    /// Override stroke width for open arrows.
    pub stroke_width: Option<S>,
}

/// An edge connecting two nodes, with user data `D` and coordinates `S`.
#[derive(Debug)]
pub struct Edge<D, S> {
    /// Unique identifier within the graph.
    pub id: EdgeId,
    /// Node the edge leaves.
    pub source: NodeId,
    /// Node the edge enters.
    pub target: NodeId,
    /// Specific source handle, when the source node has several.
    pub source_handle: Option<String>,
    /// Specific target handle, when the target node has several.
    pub target_handle: Option<String>,
    /// Path algorithm; `None` uses the global default.
    pub edge_type: Option<EdgeType>,
    /// Dash animation along the edge.
    pub animated: bool,
    /// When `true` the edge is neither drawn nor hit-tested.
    pub hidden: bool,
    /// Per-edge deletion override.
    pub deletable: Option<bool>,
    /// Per-edge selection override.
    pub selectable: Option<bool>,
    /// Arbitrary user payload.
    pub data: Option<D>,
    /// Selection state.
    pub selected: bool,
    /// Arrow at the source end.
    pub marker_start: Option<EdgeMarker<S>>,
    /// Arrow at the target end.
    pub marker_end: Option<EdgeMarker<S>>,
    /// Explicit render order.
    pub z_index: Option<i32>,
    /// Width of the band around the path that counts as a click on the edge.
    pub interaction_width: S,
    /// User-defined source endpoint anchor; overrides the handle position.
    pub source_anchor: Option<EdgeAnchor<S>>,
    /// User-defined target endpoint anchor; overrides the handle position.
    pub target_anchor: Option<EdgeAnchor<S>>,
    /// Per-edge override for anchor dragging; `None` uses the global setting.
    pub anchors_draggable: Option<bool>,
    /// Per-edge visual style overrides (colour, stroke width, glow).
    pub style: Option<EdgeStyle<S>>,
    /// Optional text label drawn at the edge's label position.
    pub label: Option<String>,
}

/// `b` is a clone of `a`: every field is equal, except the user data, which
/// is whatever `D::clone` made of `a`'s data.
pub open spec fn edge_clone_of<D: Clone, S>(a: Edge<D, S>, b: Edge<D, S>) -> bool {
    &&& b == (Edge { data: b.data, ..a })
    &&& match (a.data, b.data) {
        (Some(x), Some(y)) => cloned(x, y),
        (None, None) => true,
        _ => false,
    }
}

impl<D: Clone, S: Copy> Clone for Edge<D, S> {
    fn clone(&self) -> (r: Self)
        ensures
            edge_clone_of(*self, r),
    {
        Edge {
            id: self.id.clone(),
            source: self.source.clone(),
            target: self.target.clone(),
            source_handle: super::handle::clone_opt_string(&self.source_handle),
            target_handle: super::handle::clone_opt_string(&self.target_handle),
            edge_type: self.edge_type,
            animated: self.animated,
            hidden: self.hidden,
            deletable: self.deletable,
            selectable: self.selectable,
            data: match &self.data {
                Some(d) => Some(d.clone()),
                None => None,
            },
            selected: self.selected,
            marker_start: self.marker_start,
            marker_end: self.marker_end,
            z_index: self.z_index,
            interaction_width: self.interaction_width,
            source_anchor: self.source_anchor,
            target_anchor: self.target_anchor,
            anchors_draggable: self.anchors_draggable,
            style: self.style,
            label: super::handle::clone_opt_string(&self.label),
        }
    }
}

/// The edge that [`Edge::new`] makes: the given ids, an interaction width of
/// 20, and every other option unset.
pub open spec fn default_edge<D, S: From<u8>>(
    id: Seq<char>,
    source: Seq<char>,
    target: Seq<char>,
    e: Edge<D, S>,
) -> bool {
    &&& e.id@ == id
    &&& e.source@ == source
    &&& e.target@ == target
    &&& e.source_handle is None
    &&& e.target_handle is None
    &&& e.edge_type is None
    &&& !e.animated
    &&& !e.hidden
    &&& e.deletable is None
    &&& e.selectable is None
    &&& e.data is None
    &&& !e.selected
    &&& e.marker_start is None
    &&& e.marker_end is None
    &&& e.z_index is None
    &&& is_scalar_of(e.interaction_width, 20)
    &&& e.source_anchor is None
    &&& e.target_anchor is None
    &&& e.anchors_draggable is None
    &&& e.style is None
    &&& e.label is None
}

impl<D, S: From<u8>> Edge<D, S> {
    /// Create a new edge connecting two nodes.
    pub fn new(id: &str, source: &str, target: &str) -> (e: Self)
        ensures
            default_edge(id@, source@, target@, e),
    {
        Edge {
            id: EdgeId::new(id),
            source: NodeId::new(source),
            target: NodeId::new(target),
            source_handle: None,
            target_handle: None,
            edge_type: None,
            animated: false,
            hidden: false,
            deletable: None,
            selectable: None,
            data: None,
            selected: false,
            marker_start: None,
            marker_end: None,
            z_index: None,
            interaction_width: S::from(20u8),
            source_anchor: None,
            target_anchor: None,
            anchors_draggable: None,
            style: None,
            label: None,
        }
    }

    /// Alias for [`Edge::new`] mirroring `Node::builder` naming.
    pub fn builder(id: &str, source: &str, target: &str) -> (e: Self)
        ensures
            default_edge(id@, source@, target@, e),
    {
        Self::new(id, source, target)
    }
}

/// The style of `e`, or the empty style when it has none (what the style
/// setters start from).
pub open spec fn style_or_empty<D, S>(e: Edge<D, S>) -> EdgeStyle<S> {
    match e.style {
        Some(s) => s,
        None => empty_style(),
    }
}

impl<D, S: Copy> Edge<D, S> {
    /// The style to patch: the present one, or an empty one.
    fn take_style(&mut self) -> (s: EdgeStyle<S>)
        ensures
            s == style_or_empty(*old(self)),
            *final(self) == *old(self),
    {
        match self.style.take() {
            Some(s) => {
                self.style = Some(s);
                s
            },
            None => EdgeStyle { color: None, selected_color: None, stroke_width: None, glow: None },
        }
    }

    /// Set the path algorithm for this edge.
    pub fn edge_type(self, t: EdgeType) -> (e: Self)
        ensures
            e == (Edge { edge_type: Some(t), ..self }),
    {
        let mut e = self;
        e.edge_type = Some(t);
        e
    }

    /// Enable or disable dash animation on this edge.
    pub fn animated(self, animated: bool) -> (e: Self)
        ensures
            e == (Edge { animated: animated, ..self }),
    {
        let mut e = self;
        e.animated = animated;
        e
    }

    /// Add a closed arrow marker at the target end.
    pub fn marker_end_arrow(self) -> (e: Self)
        ensures
            e == (Edge {
                marker_end: Some(
                    EdgeMarker {
                        marker_type: MarkerType::ArrowClosed,
                        color: None,
                        width: None,
                        height: None,
                        stroke_width: None,
                    },
                ),
                ..self
            }),
    {
        let mut e = self;
        e.marker_end =
            Some(
            EdgeMarker {
                marker_type: MarkerType::ArrowClosed,
                color: None,
                width: None,
                height: None,
                stroke_width: None,
            },
        );
        e
    }

    /// Set a custom source endpoint anchor position.
    pub fn source_anchor(self, anchor: EdgeAnchor<S>) -> (e: Self)
        ensures
            e == (Edge { source_anchor: Some(anchor), ..self }),
    {
        let mut e = self;
        e.source_anchor = Some(anchor);
        e
    }

    /// Set a custom target endpoint anchor position.
    pub fn target_anchor(self, anchor: EdgeAnchor<S>) -> (e: Self)
        ensures
            e == (Edge { target_anchor: Some(anchor), ..self }),
    {
        let mut e = self;
        e.target_anchor = Some(anchor);
        e
    }

    /// Override the global anchor-dragging setting for this edge.
    pub fn anchors_draggable(self, draggable: bool) -> (e: Self)
        ensures
            e == (Edge { anchors_draggable: Some(draggable), ..self }),
    {
        let mut e = self;
        e.anchors_draggable = Some(draggable);
        e
    }

    /// Set a per-edge visual style override.
    pub fn style(self, style: EdgeStyle<S>) -> (e: Self)
        ensures
            e == (Edge { style: Some(style), ..self }),
    {
        let mut e = self;
        e.style = Some(style);
        e
    }

    /// Set the edge colour (when not selected).
    pub fn color(self, color: Color) -> (e: Self)
        ensures
            e == (Edge {
                style: Some(EdgeStyle { color: Some(color), ..style_or_empty(self) }),
                ..self
            }),
    {
        let mut e = self;
        let mut s = e.take_style();
        s.color = Some(color);
        e.style = Some(s);
        e
    }

    /// Set the edge colour when selected.
    pub fn selected_color(self, color: Color) -> (e: Self)
        ensures
            e == (Edge {
                style: Some(EdgeStyle { selected_color: Some(color), ..style_or_empty(self) }),
                ..self
            }),
    {
        let mut e = self;
        let mut s = e.take_style();
        s.selected_color = Some(color);
        e.style = Some(s);
        e
    }

    /// Set the edge stroke width.
    pub fn stroke_width(self, width: S) -> (e: Self)
        ensures
            e == (Edge {
                style: Some(EdgeStyle { stroke_width: Some(width), ..style_or_empty(self) }),
                ..self
            }),
    {
        let mut e = self;
        let mut s = e.take_style();
        s.stroke_width = Some(width);
        e.style = Some(s);
        e
    }

    /// Add a glow effect behind the edge.
    pub fn glow(self, color: Color, width: S) -> (e: Self)
        ensures
            e == (Edge {
                style: Some(
                    EdgeStyle { glow: Some(EdgeGlow { color, width }), ..style_or_empty(self) },
                ),
                ..self
            }),
    {
        let mut e = self;
        let mut s = e.take_style();
        s.glow = Some(EdgeGlow::new(color, width));
        e.style = Some(s);
        e
    }

    /// Set a text label drawn at the edge's midpoint.
    pub fn label(self, text: String) -> (e: Self)
        ensures
            e == (Edge { label: Some(text), ..self }),
    {
        let mut e = self;
        e.label = Some(text);
        e
    }
}

/// Resolved positions for rendering an edge.
#[derive(Debug, Clone, Copy)]
pub struct EdgePosition<S> {
    /// Source endpoint, horizontal.
    pub source_x: S,
    /// Source endpoint, vertical.
    pub source_y: S,
    /// Target endpoint, horizontal.
    pub target_x: S,
    /// Target endpoint, vertical.
    pub target_y: S,
    /// Side of the source node the edge leaves from.
    pub source_pos: Position,
    /// Side of the target node the edge arrives at.
    pub target_pos: Position,
}

} // verus!
