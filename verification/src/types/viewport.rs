//! Viewport state and related enums for pan/zoom control.

use vstd::prelude::*;

use super::handle::is_scalar_of;

verus! {

/// Viewport transform: translation (x, y) and scale.
#[derive(Debug, Clone, Copy, PartialEq)]
pub struct Transform<S> {
    /// Horizontal translation, in screen pixels.
    pub x: S,
    /// Vertical translation, in screen pixels.
    pub y: S,
    /// Zoom factor; 1 is identity.
    pub scale: S,
}

impl<S: From<u8>> Default for Transform<S> {
    fn default() -> (t: Self)
        ensures
            is_scalar_of(t.x, 0),
            is_scalar_of(t.y, 0),
            is_scalar_of(t.scale, 1),
    {
        Transform { x: S::from(0u8), y: S::from(0u8), scale: S::from(1u8) }
    }
}

/// The current viewport state: pan offset and zoom level.
#[derive(Debug, Clone, Copy, PartialEq)]
pub struct Viewport<S> {
    /// Horizontal pan offset in screen pixels.
    pub x: S,
    /// Vertical pan offset in screen pixels.
    pub y: S,
    /// Zoom factor (1 = 100%).
    pub zoom: S,
}

impl<S: From<u8>> Default for Viewport<S> {
    fn default() -> (v: Self)
        ensures
            is_scalar_of(v.x, 0),
            is_scalar_of(v.y, 0),
            is_scalar_of(v.zoom, 1),
    {
        Viewport { x: S::from(0u8), y: S::from(0u8), zoom: S::from(1u8) }
    }
}

impl<S: Copy> Viewport<S> {
    /// Create a new viewport with explicit pan and zoom values.
    pub fn new(x: S, y: S, zoom: S) -> (v: Self)
        ensures
            v.x == x,
            v.y == y,
            v.zoom == zoom,
    {
        Viewport { x, y, zoom }
    }

    /// Convert to the [`Transform`] used by the rendering pipeline.
    pub fn to_transform(&self) -> (t: Transform<S>)
        ensures
            t.x == self.x,
            t.y == self.y,
            t.scale == self.zoom,
    {
        Transform { x: self.x, y: self.y, scale: self.zoom }
    }
}

/// Controls which axis panning responds to when panning on scroll.
#[derive(Debug, Clone, Copy, PartialEq, Eq, Structural)]
pub enum PanOnScrollMode {
    /// Pan freely in both axes.
    Free,
    /// Pan only vertically.
    Vertical,
    /// Pan only horizontally.
    Horizontal,
}

/// How much of a node must be inside the selection rectangle to be selected.
#[derive(Debug, Clone, Copy, PartialEq, Eq, Structural)]
pub enum SelectionMode {
    /// Select if any part of the node overlaps the rectangle.
    Partial,
    /// Select only if the entire node is inside the rectangle.
    Full,
}

} // verus!
