//! Connection types for in-progress and completed handle-to-handle connections.

use vstd::prelude::*;

use super::handle::{clone_opt_string, Handle};
use super::ids::NodeId;
use super::position::{Point, Position};

verus! {

/// A completed connection between two node handles.
#[derive(Debug)]
pub struct Connection {
    /// Node where the connection originated (the source handle's node).
    pub source: NodeId,
    /// Node where the connection ended (the target handle's node).
    pub target: NodeId,
    /// Id of the specific source handle, if the source node has several.
    pub source_handle: Option<String>,
    /// Id of the specific target handle, if the target node has several.
    pub target_handle: Option<String>,
}

impl Clone for Connection {
    fn clone(&self) -> (r: Self)
        ensures
            r == *self,
    {
        Connection {
            source: self.source.clone(),
            target: self.target.clone(),
            source_handle: clone_opt_string(&self.source_handle),
            target_handle: clone_opt_string(&self.target_handle),
        }
    }
}

/// Type-erased summary of an existing edge, passed to a connection validator
/// so it can inspect the current graph.
#[derive(Debug, Clone, Copy)]
pub struct EdgeInfo<'a> {
    /// Source node of the existing edge.
    pub source: &'a NodeId,
    /// Target node of the existing edge.
    pub target: &'a NodeId,
    /// Source handle id, if any.
    pub source_handle: Option<&'a str>,
    /// Target handle id, if any.
    pub target_handle: Option<&'a str>,
}

/// Whether connections require an exact handle target.
#[derive(Debug, Clone, Copy, PartialEq, Eq, Structural)]
pub enum ConnectionMode {
    /// Connections must land on a compatible handle.
    Strict,
    /// Connections can attach to any point on a node.
    Loose,
}

impl Default for ConnectionMode {
    fn default() -> (m: Self)
        ensures
            m == ConnectionMode::Strict,
    {
        ConnectionMode::Strict
    }
}

/// State of an in-progress connection drag.
#[derive(Debug)]
pub enum ConnectionState<S> {
    /// No connection is being drawn.
    Idle,
    /// A connection drag is active.
    InProgress {
        /// Validation result, if one was made; `None` means none was made.
        is_valid: Option<bool>,
        /// Flow-space position the drag started from (center of the source handle).
        from: Point<S>,
        /// The handle the drag originated from.
        from_handle: Handle<S>,
        /// Which side of the node the drag originates on.
        from_position: Position,
        /// Id of the node the drag originated from.
        from_node_id: NodeId,
        /// Current flow-space position of the drag end.
        to: Point<S>,
        /// The handle currently being hovered, if any.
        to_handle: Box<Option<Handle<S>>>,
        /// Side of the hovered node the connection would attach to.
        to_position: Position,
        /// Id of the hovered node, if the cursor is over one.
        to_node_id: Option<NodeId>,
    },
}

impl<S> Default for ConnectionState<S> {
    fn default() -> (s: Self)
        ensures
            s is Idle,
    {
        ConnectionState::Idle
    }
}

} // verus!
