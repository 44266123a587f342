//! Positioning primitives: [`Position`], points and dimensions.

use vstd::prelude::*;

verus! {

/// Handle/edge positioning relative to a node.
#[derive(Debug, Clone, Copy, PartialEq, Eq, Structural, Hash)]
pub enum Position {
    /// Top edge of the node.
    Top,
    /// Right edge of the node.
    Right,
    /// Bottom edge of the node.
    Bottom,
    /// Left edge of the node.
    Left,
    /// Edges connect to the center of the node.
    Center,
    /// Edge endpoint automatically tracks the closest border side to the
    /// other connected node.
    Closest,
}

/// The side across from `p` (Top<->Bottom, Left<->Right); `Center` and
/// `Closest` are their own opposites.
pub open spec fn spec_opposite(p: Position) -> Position {
    match p {
        Position::Top => Position::Bottom,
        Position::Bottom => Position::Top,
        Position::Left => Position::Right,
        Position::Right => Position::Left,
        Position::Center => Position::Center,
        Position::Closest => Position::Closest,
    }
}

/// `p` is the left or right side.
pub open spec fn spec_is_horizontal(p: Position) -> bool {
    p == Position::Left || p == Position::Right
}

/// `p` is the top or bottom side.
pub open spec fn spec_is_vertical(p: Position) -> bool {
    p == Position::Top || p == Position::Bottom
}

impl Position {
    /// Return the opposite side (Top<->Bottom, Left<->Right).
    pub fn opposite(self) -> (r: Position)
        ensures
            r == spec_opposite(self),
    {
        match self {
            Position::Top => Position::Bottom,
            Position::Bottom => Position::Top,
            Position::Left => Position::Right,
            Position::Right => Position::Left,
            Position::Center => Position::Center,
            Position::Closest => Position::Closest,
        }
    }

    /// Return `true` for `Left` or `Right`.
    pub fn is_horizontal(self) -> (r: bool)
        ensures
            r == spec_is_horizontal(self),
    {
        matches!(self, Position::Left | Position::Right)
    }

    /// Return `true` for `Top` or `Bottom`.
    pub fn is_vertical(self) -> (r: bool)
        ensures
            r == spec_is_vertical(self),
    {
        matches!(self, Position::Top | Position::Bottom)
    }
}

/// Taking the opposite side twice gives back the side you started from.
pub proof fn lemma_opposite_involutive(p: Position)
    ensures
        spec_opposite(spec_opposite(p)) == p,
{
}

/// The opposite side lies on the same axis: horizontal sides stay horizontal
/// and vertical sides stay vertical.
pub proof fn lemma_opposite_keeps_axis(p: Position)
    ensures
        spec_is_horizontal(spec_opposite(p)) == spec_is_horizontal(p),
        spec_is_vertical(spec_opposite(p)) == spec_is_vertical(p),
{
}

/// No side is both horizontal and vertical, and only `Center` and `Closest`
/// are neither; those two are the only sides that are their own opposite.
pub proof fn lemma_axes_partition(p: Position)
    ensures
        !(spec_is_horizontal(p) && spec_is_vertical(p)),
        (!spec_is_horizontal(p) && !spec_is_vertical(p)) <==> (p == Position::Center || p
            == Position::Closest),
        (spec_opposite(p) == p) <==> (p == Position::Center || p == Position::Closest),
{
}

} // verus!

verus! {

/// A point in flow or screen space; the coordinate type `S` is carried,
/// never computed on, by this crate (the canvas uses `f32`).
#[derive(Debug, Clone, Copy, PartialEq)]
pub struct Point<S> {
    /// Horizontal coordinate.
    pub x: S,
    /// Vertical coordinate.
    pub y: S,
}

impl<S: Copy> Point<S> {
    /// Create a point from its two coordinates.
    pub fn new(x: S, y: S) -> (p: Self)
        ensures
            p.x == x,
            p.y == y,
    {
        Point { x, y }
    }
}

/// Dimensions of a node or element.
#[derive(Debug, Clone, Copy, PartialEq)]
pub struct Dimensions<S> {
    /// Width in flow-space units (pixels at scale 1).
    pub width: S,
    /// Height in flow-space units (pixels at scale 1).
    pub height: S,
}

impl<S: Copy> Dimensions<S> {
    /// Create new dimensions.
    pub fn new(width: S, height: S) -> (d: Self)
        ensures
            d.width == width,
            d.height == height,
    {
        Dimensions { width, height }
    }
}

} // verus!

verus! {

/// Coordinate extent defining min/max bounds.
#[derive(Debug, Clone, Copy, PartialEq)]
pub struct CoordinateExtent<S> {
    /// Top-left corner of the extent, in flow space.
    pub min: Point<S>,
    /// Bottom-right corner of the extent, in flow space.
    pub max: Point<S>,
}

impl<S: Copy> CoordinateExtent<S> {
    /// Create a new extent from the top-left and bottom-right corners.
    pub fn new(min: Point<S>, max: Point<S>) -> (e: Self)
        ensures
            e.min == min,
            e.max == max,
    {
        CoordinateExtent { min, max }
    }
}

} // verus!
