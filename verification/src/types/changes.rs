//! Change enums for declarative graph mutations.
//!
//! [`NodeChange`] and [`EdgeChange`] represent atomic operations applied via
//! [`crate::state::changes::apply_node_changes`] and
//! [`crate::state::changes::apply_edge_changes`].

use vstd::prelude::*;

use super::edge::{edge_clone_of, Edge, EdgeAnchor, EdgeStyle};
use super::ids::{EdgeId, NodeId};
use super::node::{node_clone_of, Node};
use super::position::{Dimensions, Point};

verus! {

/// A mutation to apply to a node.
#[derive(Debug)]
pub enum NodeChange<D, S> {
    /// Update position and/or dragging state.
    Position {
        /// Node to update.
        id: NodeId,
        /// New flow-space position; `None` leaves it unchanged.
        position: Option<Point<S>>,
        /// New dragging flag; `None` leaves it unchanged.
        dragging: Option<bool>,
    },
    /// Update measured dimensions.
    Dimensions {
        /// Node to update.
        id: NodeId,
        /// Dimensions reported by the renderer; `None` clears the measurement.
        dimensions: Option<Dimensions<S>>,
    },
    /// Change selection state.
    Select {
        /// Node to update.
        id: NodeId,
        /// New selection state.
        selected: bool,
    },
    /// Remove the node from the graph.
    Remove {
        /// Node to remove.
        id: NodeId,
    },
    /// Insert a new node, optionally at a specific index.
    Add {
        /// Node to insert.
        node: Node<D, S>,
        /// Index in the node list; `None` appends.
        index: Option<usize>,
    },
    /// Replace a node entirely.
    Replace {
        /// Id of the node to replace.
        id: NodeId,
        /// Replacement node; its own id need not match `id`.
        node: Node<D, S>,
    },
}

/// A mutation to apply to an edge.
#[derive(Debug)]
pub enum EdgeChange<D, S> {
    /// Change selection state.
    Select {
        /// Edge to update.
        id: EdgeId,
        /// New selection state.
        selected: bool,
    },
    /// Remove the edge from the graph.
    Remove {
        /// Edge to remove.
        id: EdgeId,
    },
    /// Insert a new edge, optionally at a specific index.
    Add {
        /// Edge to insert.
        edge: Edge<D, S>,
        /// Index in the edge list; `None` appends.
        index: Option<usize>,
    },
    /// Replace an edge entirely.
    Replace {
        /// Id of the edge to replace.
        id: EdgeId,
        /// Replacement edge; its own id need not match `id`.
        edge: Edge<D, S>,
    },
    /// Update edge endpoint anchors. `Some(Some(..))` sets an anchor,
    /// `Some(None)` clears it, `None` leaves it unchanged.
    Anchor {
        /// Edge to update.
        id: EdgeId,
        /// Source anchor patch (outer `None` = leave alone, inner `None` = clear).
        source_anchor: Option<Option<EdgeAnchor<S>>>,
        /// Target anchor patch (outer `None` = leave alone, inner `None` = clear).
        target_anchor: Option<Option<EdgeAnchor<S>>>,
    },
    /// Update per-edge visual style. `Some(..)` sets a style, `None` clears
    /// it back to the global defaults.
    Style {
        /// Edge to update.
        id: EdgeId,
        /// Replacement style; `None` clears the per-edge override.
        style: Option<EdgeStyle<S>>,
    },
}

/// `b` is a clone of `a`: equal, except that a node it carries is a clone.
pub open spec fn node_change_clone_of<D: Clone, S>(a: NodeChange<D, S>, b: NodeChange<D, S>) -> bool {
    match (a, b) {
        (NodeChange::Add { node: n1, index: i1 }, NodeChange::Add { node: n2, index: i2 }) => i1 == i2
            && node_clone_of(n1, n2),
        (NodeChange::Replace { id: d1, node: n1 }, NodeChange::Replace { id: d2, node: n2 }) => d1
            == d2 && node_clone_of(n1, n2),
        (NodeChange::Add { .. }, _) => false,
        (NodeChange::Replace { .. }, _) => false,
        _ => a == b,
    }
}

impl<D: Clone, S: Copy> Clone for NodeChange<D, S> {
    fn clone(&self) -> (r: Self)
        ensures
            node_change_clone_of(*self, r),
    {
        match self {
            NodeChange::Position { id, position, dragging } => NodeChange::Position {
                id: id.clone(),
                position: *position,
                dragging: *dragging,
            },
            NodeChange::Dimensions { id, dimensions } => NodeChange::Dimensions {
                id: id.clone(),
                dimensions: *dimensions,
            },
            NodeChange::Select { id, selected } => NodeChange::Select {
                id: id.clone(),
                selected: *selected,
            },
            NodeChange::Remove { id } => NodeChange::Remove { id: id.clone() },
            NodeChange::Add { node, index } => NodeChange::Add { node: node.clone(), index: *index },
            NodeChange::Replace { id, node } => NodeChange::Replace {
                id: id.clone(),
                node: node.clone(),
            },
        }
    }
}

/// `b` is a clone of `a`: equal, except that an edge it carries is a clone.
pub open spec fn edge_change_clone_of<D: Clone, S>(a: EdgeChange<D, S>, b: EdgeChange<D, S>) -> bool {
    match (a, b) {
        (EdgeChange::Add { edge: e1, index: i1 }, EdgeChange::Add { edge: e2, index: i2 }) => i1 == i2
            && edge_clone_of(e1, e2),
        (EdgeChange::Replace { id: d1, edge: e1 }, EdgeChange::Replace { id: d2, edge: e2 }) => d1
            == d2 && edge_clone_of(e1, e2),
        (EdgeChange::Add { .. }, _) => false,
        (EdgeChange::Replace { .. }, _) => false,
        _ => a == b,
    }
}

impl<D: Clone, S: Copy> Clone for EdgeChange<D, S> {
    fn clone(&self) -> (r: Self)
        ensures
            edge_change_clone_of(*self, r),
    {
        match self {
            EdgeChange::Select { id, selected } => EdgeChange::Select {
                id: id.clone(),
                selected: *selected,
            },
            EdgeChange::Remove { id } => EdgeChange::Remove { id: id.clone() },
            EdgeChange::Add { edge, index } => EdgeChange::Add { edge: edge.clone(), index: *index },
            EdgeChange::Replace { id, edge } => EdgeChange::Replace {
                id: id.clone(),
                edge: edge.clone(),
            },
            EdgeChange::Anchor { id, source_anchor, target_anchor } => EdgeChange::Anchor {
                id: id.clone(),
                source_anchor: *source_anchor,
                target_anchor: *target_anchor,
            },
            EdgeChange::Style { id, style } => EdgeChange::Style { id: id.clone(), style: *style },
        }
    }
}

} // verus!
