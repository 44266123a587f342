//! Node types: [`Node`], [`NodeBuilder`], and internal representations.

use vstd::prelude::*;

use super::handle::{is_scalar_of, Handle, NodeHandle};
use super::ids::NodeId;
use super::position::{CoordinateExtent, Dimensions, Point, Position};

verus! {

/// Constraint on how far a node can be dragged.
#[derive(Debug, Clone, Copy)]
pub enum NodeExtent<S> {
    /// Constrain to the parent node's bounding box.
    Parent,
    /// Constrain to an explicit coordinate rectangle.
    Coordinates(CoordinateExtent<S>),
}

/// A node in the graph, with user data `D` and coordinates of type `S`.
#[derive(Debug)]
pub struct Node<D, S> {
    /// Unique identifier within the graph.
    pub id: NodeId,
    /// Position in flow space, relative to the parent when `parent_id` is set.
    pub position: Point<S>,
    /// Arbitrary user payload attached to this node.
    pub data: D,
    /// Custom node type key.
    pub node_type: Option<String>,
    /// Default side from which outgoing edges leave.
    pub source_position: Option<Position>,
    /// Default side at which incoming edges arrive.
    pub target_position: Option<Position>,
    /// When `true`, the node and its handles/edges skip rendering and hit-testing.
    pub hidden: bool,
    /// Selection state, maintained by `NodeChange::Select`.
    pub selected: bool,
    /// `true` while the user is actively dragging the node.
    pub dragging: bool,
    /// Per-node drag override; `None` inherits the global setting (the
    /// `draggable_default` of [`crate::drag::node_drag_step`]).
    pub draggable: Option<bool>,
    /// Per-node selection override; `None` inherits the global setting (the
    /// `selectable_default` of [`crate::drag::node_click_step`] and
    /// [`crate::canvas::select_all_changes`]).
    pub selectable: Option<bool>,
    /// Per-node connection override; `None` inherits the global setting (the
    /// `connectable_default` of [`crate::drag::shows_handles`]).
    pub connectable: Option<bool>,
    /// Per-node deletion override; `None` inherits the global setting (the
    /// `deletable_default` of [`crate::canvas::node_removals`]).
    pub deletable: Option<bool>,
    /// Explicit width in flow-space pixels. When `None`, `measured` is used.
    pub width: Option<S>,
    /// Explicit height in flow-space pixels. When `None`, `measured` is used.
    pub height: Option<S>,
    /// Optional parent node; this node's `position` becomes relative to the parent.
    pub parent_id: Option<NodeId>,
    /// Explicit render order. Higher values draw on top.
    pub z_index: Option<i32>,
    /// Constrains how far the node can be dragged.
    pub extent: Option<NodeExtent<S>>,
    /// When `true`, the parent's bounds grow to keep this child visible.
    pub expand_parent: bool,
    /// Normalised origin offset `[x, y]` in `0..=1`.
    pub origin: Option<[S; 2]>,
    /// Connection handles attached to this node.
    pub handles: Vec<NodeHandle<S>>,
    /// Dimensions measured during rendering.
    pub measured: Option<Dimensions<S>>,
}

/// `b` is a clone of `a`: every field is equal (the handle lists element by
/// element), except the user data, which is whatever `D::clone` made of
/// `a`'s data.
pub open spec fn node_clone_of<D: Clone, S>(a: Node<D, S>, b: Node<D, S>) -> bool {
    &&& b == (Node { data: b.data, handles: b.handles, ..a })
    &&& b.handles@ == a.handles@
    &&& cloned(a.data, b.data)
}

/// A copy of an optional node id.
pub fn clone_opt_node_id(s: &Option<NodeId>) -> (r: Option<NodeId>)
    ensures
        r == *s,
{
    match s {
        Some(v) => Some(v.clone()),
        None => None,
    }
}

/// A copy of a list of handles.
pub fn clone_node_handles<S: Copy>(v: &Vec<NodeHandle<S>>) -> (r: Vec<NodeHandle<S>>)
    ensures
        r@ == v@,
{
    let mut r: Vec<NodeHandle<S>> = Vec::new();
    let mut i: usize = 0;
    while i < v.len()
        invariant
            i <= v.len(),
            r@ == v@.take(i as int),
        decreases v.len() - i,
    {
        r.push(v[i].clone());
        i = i + 1;
    }
    r
}

/// A copy of a list of resolved handles.
pub fn clone_handles<S: Copy>(v: &Vec<Handle<S>>) -> (r: Vec<Handle<S>>)
    ensures
        r@ == v@,
{
    let mut r: Vec<Handle<S>> = Vec::new();
    let mut i: usize = 0;
    while i < v.len()
        invariant
            i <= v.len(),
            r@ == v@.take(i as int),
        decreases v.len() - i,
    {
        r.push(v[i].clone());
        i = i + 1;
    }
    r
}

impl<D: Clone, S: Copy> Clone for Node<D, S> {
    fn clone(&self) -> (r: Self)
        ensures
            node_clone_of(*self, r),
    {
        let r = Node {
            id: self.id.clone(),
            position: self.position,
            data: self.data.clone(),
            node_type: super::handle::clone_opt_string(&self.node_type),
            source_position: self.source_position,
            target_position: self.target_position,
            hidden: self.hidden,
            selected: self.selected,
            dragging: self.dragging,
            draggable: self.draggable,
            selectable: self.selectable,
            connectable: self.connectable,
            deletable: self.deletable,
            width: self.width,
            height: self.height,
            parent_id: clone_opt_node_id(&self.parent_id),
            z_index: self.z_index,
            extent: self.extent,
            expand_parent: self.expand_parent,
            origin: self.origin,
            handles: clone_node_handles(&self.handles),
            measured: self.measured,
        };
        r
    }
}

/// The node that `Node::builder` and `NodeBuilder::with_data` start from:
/// id `id`, data `data`, at the origin, with every option unset.
pub open spec fn default_node<D, S: From<u8>>(id: Seq<char>, data: D, n: Node<D, S>) -> bool {
    &&& n.id@ == id
    &&& is_scalar_of(n.position.x, 0)
    &&& is_scalar_of(n.position.y, 0)
    &&& n.data == data
    &&& n.node_type is None
    &&& n.source_position is None
    &&& n.target_position is None
    &&& !n.hidden
    &&& !n.selected
    &&& !n.dragging
    &&& n.draggable is None
    &&& n.selectable is None
    &&& n.connectable is None
    &&& n.deletable is None
    &&& n.width is None
    &&& n.height is None
    &&& n.parent_id is None
    &&& n.z_index is None
    &&& n.extent is None
    &&& !n.expand_parent
    &&& n.origin is None
    &&& n.handles@.len() == 0
    &&& n.measured is None
}

impl<D: Default, S: Copy + From<u8>> Node<D, S> {
    /// Create a [`NodeBuilder`] whose data starts as `D::default()`.
    pub fn builder(id: &str) -> (b: NodeBuilder<D, S>)
        ensures
            default_node(id@, b.spec_node().data, b.spec_node()),
            call_ensures(D::default, (), b.spec_node().data),
    {
        NodeBuilder::new(id)
    }
}

impl<D, S: Copy + From<u8>> Node<D, S> {
    /// Create a [`NodeBuilder`] with explicit data, without requiring `D: Default`.
    pub fn builder_with_data(id: &str, data: D) -> (b: NodeBuilder<D, S>)
        ensures
            default_node(id@, data, b.spec_node()),
    {
        NodeBuilder::with_data(id, data)
    }
}

/// Builder for constructing [`Node`] instances with a fluent API.
pub struct NodeBuilder<D, S> {
    node: Node<D, S>,
}

impl<D, S> NodeBuilder<D, S> {
    /// The node that [`NodeBuilder::build`] returns.
    pub closed spec fn spec_node(self) -> Node<D, S> {
        self.node
    }
}

impl<D: Default, S: Copy + From<u8>> NodeBuilder<D, S> {
    /// Create a new builder with the given node ID and default data.
    pub fn new(id: &str) -> (b: Self)
        ensures
            default_node(id@, b.spec_node().data, b.spec_node()),
            call_ensures(D::default, (), b.spec_node().data),
    {
        Self::with_data(id, D::default())
    }
}

impl<D, S: Copy + From<u8>> NodeBuilder<D, S> {
    /// Create a new builder with explicit data (no `Default` bound required).
    pub fn with_data(id: &str, data: D) -> (b: Self)
        ensures
            default_node(id@, data, b.spec_node()),
    {
        NodeBuilder {
            node: Node {
                id: NodeId::new(id),
                position: Point { x: S::from(0u8), y: S::from(0u8) },
                data,
                node_type: None,
                source_position: None,
                target_position: None,
                hidden: false,
                selected: false,
                dragging: false,
                draggable: None,
                selectable: None,
                connectable: None,
                deletable: None,
                width: None,
                height: None,
                parent_id: None,
                z_index: None,
                extent: None,
                expand_parent: false,
                origin: None,
                handles: Vec::new(),
                measured: None,
            },
        }
    }
}

impl<D, S> NodeBuilder<D, S> {
    /// Set the node's initial position in flow space.
    pub fn position(self, pos: Point<S>) -> (b: Self)
        ensures
            b.spec_node() == (Node { position: pos, ..self.spec_node() }),
    {
        let mut b = self;
        b.node.position = pos;
        b
    }

    /// Set the user data attached to this node.
    pub fn data(self, data: D) -> (b: Self)
        ensures
            b.spec_node() == (Node { data: data, ..self.spec_node() }),
    {
        let mut b = self;
        b.node.data = data;
        b
    }

    /// Add a connection handle to this node.
    pub fn handle(self, handle: NodeHandle<S>) -> (b: Self)
        ensures
            b.spec_node() == (Node { handles: b.spec_node().handles, ..self.spec_node() }),
            b.spec_node().handles@ == self.spec_node().handles@.push(handle),
    {
        let mut b = self;
        b.node.handles.push(handle);
        b
    }

    /// Set the explicit z-index for rendering order.
    pub fn z_index(self, z: i32) -> (b: Self)
        ensures
            b.spec_node() == (Node { z_index: Some(z), ..self.spec_node() }),
    {
        let mut b = self;
        b.node.z_index = Some(z);
        b
    }

    /// Set whether the node is hidden.
    pub fn hidden(self, hidden: bool) -> (b: Self)
        ensures
            b.spec_node() == (Node { hidden: hidden, ..self.spec_node() }),
    {
        let mut b = self;
        b.node.hidden = hidden;
        b
    }

    /// Set the parent node ID for nested node groups.
    pub fn parent(self, parent_id: &str) -> (b: Self)
        ensures
            b.spec_node() == (Node { parent_id: b.spec_node().parent_id, ..self.spec_node() }),
            b.spec_node().parent_id is Some,
            b.spec_node().parent_id->0@ == parent_id@,
    {
        let mut b = self;
        b.node.parent_id = Some(NodeId::new(parent_id));
        b
    }

    /// Set the explicit width and height of this node.
    pub fn size(self, width: S, height: S) -> (b: Self)
        ensures
            b.spec_node() == (Node { width: Some(width), height: Some(height), ..self.spec_node() }),
    {
        let mut b = self;
        b.node.width = Some(width);
        b.node.height = Some(height);
        b
    }

    /// Consume the builder and return the constructed [`Node`].
    pub fn build(self) -> (n: Node<D, S>)
        ensures
            n == self.spec_node(),
    {
        self.node
    }
}

/// Resolved handle positions for a node, split by source and target.
#[derive(Debug)]
pub struct NodeHandleBounds<S> {
    /// Source (output) handles.
    pub source: Vec<Handle<S>>,
    /// Target (input) handles.
    pub target: Vec<Handle<S>>,
}

impl<S> NodeHandleBounds<S> {
    /// No handles at all.
    pub fn new() -> (b: Self)
        ensures
            b.source@.len() == 0,
            b.target@.len() == 0,
    {
        NodeHandleBounds { source: Vec::new(), target: Vec::new() }
    }
}

impl<S: Copy> Clone for NodeHandleBounds<S> {
    fn clone(&self) -> (r: Self)
        ensures
            r.source@ == self.source@,
            r.target@ == self.target@,
    {
        NodeHandleBounds { source: clone_handles(&self.source), target: clone_handles(&self.target) }
    }
}

/// Internal computed state for a node (absolute position, z-order, handles).
#[derive(Debug)]
pub struct NodeInternals<S> {
    /// Absolute position in flow space (after parent offsets).
    pub position_absolute: Point<S>,
    /// Resolved z-index for rendering order.
    pub z: i32,
    /// Resolved handle geometry.
    pub handle_bounds: NodeHandleBounds<S>,
}

/// A node paired with its computed internal state.
#[derive(Debug)]
pub struct InternalNode<D, S> {
    /// The user-facing node data.
    pub node: Node<D, S>,
    /// Computed internal state.
    pub internals: NodeInternals<S>,
}

/// The width a node is drawn with: its explicit width, else its measured
/// width, else `default`.
pub open spec fn effective_width<D, S>(n: Node<D, S>, default: S) -> S {
    match n.width {
        Some(w) => w,
        None => match n.measured {
            Some(d) => d.width,
            None => default,
        },
    }
}

/// The height a node is drawn with: its explicit height, else its measured
/// height, else `default`.
pub open spec fn effective_height<D, S>(n: Node<D, S>, default: S) -> S {
    match n.height {
        Some(h) => h,
        None => match n.measured {
            Some(d) => d.height,
            None => default,
        },
    }
}

impl<D, S: Copy + From<u8>> InternalNode<D, S> {
    /// Return the effective width (explicit or measured or 150).
    pub fn width(&self) -> (w: S)
        ensures
            (self.node.width is Some || self.node.measured is Some) ==> w == effective_width(
                self.node,
                w,
            ),
            (self.node.width is None && self.node.measured is None) ==> is_scalar_of(w, 150),
    {
        match self.node.width {
            Some(w) => w,
            None => match self.node.measured {
                Some(d) => d.width,
                None => S::from(150u8),
            },
        }
    }

    /// Return the effective height (explicit or measured or 40).
    pub fn height(&self) -> (h: S)
        ensures
            (self.node.height is Some || self.node.measured is Some) ==> h == effective_height(
                self.node,
                h,
            ),
            (self.node.height is None && self.node.measured is None) ==> is_scalar_of(h, 40),
    {
        match self.node.height {
            Some(h) => h,
            None => match self.node.measured {
                Some(d) => d.height,
                None => S::from(40u8),
            },
        }
    }
}

} // verus!
