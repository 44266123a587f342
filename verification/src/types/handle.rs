//! Handle types for node connection points.
//!
//! [`NodeHandle`] is the user-facing type placed on nodes; [`Handle`] is the
//! resolved version with offsets computed by the canvas.

use vstd::prelude::*;

use super::position::Position;

verus! {

/// Whether a handle is a source (output) or target (input) for connections.
#[derive(Debug, Clone, Copy, PartialEq, Eq, Structural, Hash)]
pub enum HandleType {
    /// Output handle — connections start here.
    Source,
    /// Input handle — connections end here.
    Target,
}

/// The value `S::from(n)`: how a small whole-number constant (0, 1, 20,
/// 150, ...) is written in the coordinate type `S`.
pub open spec fn is_scalar_of<S: From<u8>>(v: S, n: u8) -> bool {
    call_ensures(S::from, (n,), v)
}

/// A resolved handle with its offset within a node.
#[derive(Debug, PartialEq)]
pub struct Handle<S> {
    /// Optional handle identifier; distinguishes multiple handles of the same
    /// [`HandleType`] on a node.
    pub id: Option<String>,
    /// Id of the node that owns this handle.
    pub node_id: String,
    /// X offset of the handle's top-left corner relative to the node origin.
    pub x: S,
    /// Y offset of the handle's top-left corner relative to the node origin.
    pub y: S,
    /// Which side of the node the handle sits on.
    pub position: Position,
    /// Whether this handle is a source or target.
    pub handle_type: HandleType,
    /// Handle hit-area width in flow-space pixels.
    pub width: S,
    /// Handle hit-area height in flow-space pixels.
    pub height: S,
}

/// A copy of an optional string with the same contents.
pub fn clone_opt_string(s: &Option<String>) -> (r: Option<String>)
    ensures
        r == *s,
{
    match s {
        Some(v) => Some(v.clone()),
        None => None,
    }
}

impl<S: Copy> Clone for Handle<S> {
    fn clone(&self) -> (r: Self)
        ensures
            r == *self,
    {
        Handle {
            id: clone_opt_string(&self.id),
            node_id: self.node_id.clone(),
            x: self.x,
            y: self.y,
            position: self.position,
            handle_type: self.handle_type,
            width: self.width,
            height: self.height,
        }
    }
}

/// User-specified handle on a node (before measurement).
#[derive(Debug, PartialEq)]
pub struct NodeHandle<S> {
    /// Optional handle identifier; required when a node has multiple handles
    /// of the same [`HandleType`] so edges can target a specific one.
    pub id: Option<String>,
    /// Whether this handle accepts outgoing or incoming connections.
    pub handle_type: HandleType,
    /// Which side of the node this handle is placed on.
    pub position: Position,
    /// Manual X offset relative to the node origin (zero by default).
    pub x: S,
    /// Manual Y offset relative to the node origin (zero by default).
    pub y: S,
    /// Override for the handle's hit-area width.
    pub width: Option<S>,
    /// Override for the handle's hit-area height.
    pub height: Option<S>,
}

impl<S: Copy> Clone for NodeHandle<S> {
    fn clone(&self) -> (r: Self)
        ensures
            r == *self,
    {
        NodeHandle {
            id: clone_opt_string(&self.id),
            handle_type: self.handle_type,
            position: self.position,
            x: self.x,
            y: self.y,
            width: self.width,
            height: self.height,
        }
    }
}

impl<S: Copy + From<u8>> NodeHandle<S> {
    /// Create a source (output) handle at the given position.
    pub fn source(position: Position) -> (h: Self)
        ensures
            h.id is None,
            h.handle_type == HandleType::Source,
            h.position == position,
            is_scalar_of(h.x, 0),
            is_scalar_of(h.y, 0),
            h.width is None,
            h.height is None,
    {
        NodeHandle {
            id: None,
            handle_type: HandleType::Source,
            position,
            x: S::from(0u8),
            y: S::from(0u8),
            width: None,
            height: None,
        }
    }

    /// Create a target (input) handle at the given position.
    pub fn target(position: Position) -> (h: Self)
        ensures
            h.id is None,
            h.handle_type == HandleType::Target,
            h.position == position,
            is_scalar_of(h.x, 0),
            is_scalar_of(h.y, 0),
            h.width is None,
            h.height is None,
    {
        NodeHandle {
            id: None,
            handle_type: HandleType::Target,
            position,
            x: S::from(0u8),
            y: S::from(0u8),
            width: None,
            height: None,
        }
    }
}

impl<S> NodeHandle<S> {
    /// Assign an identifier to this handle for multi-handle nodes.
    pub fn with_id(self, id: String) -> (h: Self)
        ensures
            h == (NodeHandle { id: Some(id), ..self }),
    {
        NodeHandle { id: Some(id), ..self }
    }
}

} // verus!
