//! The selection box on the canvas background: what each frame's pointer
//! activity does to it. The changes it leads to are made by
//! [`crate::canvas::deselect_all_changes`] and
//! [`crate::canvas::box_selection_changes`].

use vstd::prelude::*;

verus! {

/// What the canvas background saw this frame, as far as the selection box
/// is concerned.
#[derive(Debug, Clone, Copy, PartialEq, Eq, Structural)]
pub struct SelectionInput {
    /// The pointer is busy elsewhere: over a node, dragging a node, drawing
    /// a connection, resizing, clicking an edge or dragging an edge anchor.
    pub blocked: bool,
    /// The background was clicked.
    pub clicked: bool,
    /// Dragging the background pans; a selection drag then needs shift.
    pub pan_on_drag: bool,
    /// Shift is held.
    pub shift: bool,
    /// A primary-button drag started on the background.
    pub drag_started: bool,
    /// The pointer is known and inside the canvas.
    pub pointer_in_canvas: bool,
    /// A primary-button drag continued on the background.
    pub dragged: bool,
    /// The pointer position is known.
    pub pointer_known: bool,
    /// A drag on the background ended.
    pub drag_stopped: bool,
    /// A selection box is showing and is wider or taller than 4 pixels.
    pub box_large: bool,
}

/// What else the pointer is doing this frame, off the background.
#[derive(Debug, Clone, Copy, PartialEq, Eq, Structural)]
pub struct PointerActivity {
    /// The pointer is over a node.
    pub over_node: bool,
    /// A node is being dragged.
    pub node_dragging: bool,
    /// A connection is being drawn.
    pub connecting: bool,
    /// A node is being resized.
    pub resizing: bool,
    /// An edge was clicked.
    pub edge_clicked: bool,
    /// An edge anchor is being dragged.
    pub anchor_dragging: bool,
}

/// The background takes no selection input while the pointer does any of
/// these things.
pub fn background_blocked(a: PointerActivity) -> (r: bool)
    ensures
        r == (a.over_node || a.node_dragging || a.connecting || a.resizing || a.edge_clicked
            || a.anchor_dragging),
{
    a.over_node || a.node_dragging || a.connecting || a.resizing || a.edge_clicked || a.anchor_dragging
}

/// The background pans and zooms only while no node is dragged, no
/// connection drawn, no node resized and no edge anchor dragged (hovering a
/// node or clicking an edge does not stop it).
pub fn pan_zoom_allowed(a: PointerActivity) -> (r: bool)
    ensures
        r == !(a.node_dragging || a.connecting || a.resizing || a.anchor_dragging),
{
    !(a.node_dragging || a.connecting || a.resizing || a.anchor_dragging)
}

/// A drag on the background selects rather than pans when a selection drag
/// is under way, or when dragging pans (`pan_on_drag`) and shift is held
/// off any node.
pub fn selection_drag_active(selection_started: bool, pan_on_drag: bool, shift: bool, over_node: bool) -> (r:
    bool)
    ensures
        r == (selection_started || (pan_on_drag && shift && !over_node)),
{
    selection_started || (pan_on_drag && shift && !over_node)
}

/// What the selection box does this frame.
#[derive(Debug, Clone, Copy, PartialEq, Eq, Structural)]
pub enum SelectionStep {
    /// The box and any selection drag are dropped; nothing is selected.
    Cancel,
    /// Every node and every selected edge is deselected; no box shows.
    DeselectAll,
    /// Nothing changes: the box, if any, stays as it is.
    Keep,
    /// A selection drag begins at the pointer with an empty box; everything
    /// is deselected first when `deselect`.
    Start { deselect: bool },
    /// The box spans from where the drag began to the pointer.
    Update,
    /// The drag ends and the box goes; when `apply`, the nodes inside it are
    /// selected (added to the selection when `shift`).
    Finish { apply: bool, shift: bool },
}

/// The step for a frame: `dragging` says whether a selection drag is under
/// way. Checked in order: a busy pointer cancels; a click deselects all;
/// with pan-on-drag and no drag under way nothing happens without shift; a
/// drag that starts inside the canvas starts a box; a continuing drag
/// follows the pointer; a drag that stops finishes the box.
pub open spec fn selection_step_spec(dragging: bool, i: SelectionInput) -> SelectionStep {
    if i.blocked {
        SelectionStep::Cancel
    } else if i.clicked {
        SelectionStep::DeselectAll
    } else if i.pan_on_drag && !dragging && !i.shift {
        SelectionStep::Keep
    } else if i.drag_started && i.pointer_in_canvas {
        SelectionStep::Start { deselect: !i.shift }
    } else if i.dragged && dragging && i.pointer_known {
        SelectionStep::Update
    } else if i.drag_stopped {
        SelectionStep::Finish { apply: i.box_large, shift: i.shift }
    } else {
        SelectionStep::Keep
    }
}

/// A selection drag that finishes applies the box exactly when it is large
/// enough and carries the shift state of the frame: with shift the nodes in
/// the box are added to the selection, without it they replace it. A drag
/// that starts deselects everything exactly when shift is not held.
pub proof fn lemma_selection_keeps_shift(dragging: bool, i: SelectionInput)
    ensures
        selection_step_spec(dragging, i) matches SelectionStep::Finish { apply, shift } ==> apply
            == i.box_large && shift == i.shift,
        selection_step_spec(dragging, i) matches SelectionStep::Start { deselect } ==> deselect
            == !i.shift,
{
}

/// The selection box's step for this frame (see [`selection_step_spec`]).
pub fn selection_step(dragging: bool, input: SelectionInput) -> (r: SelectionStep)
    ensures
        r == selection_step_spec(dragging, input),
        r matches SelectionStep::Finish { apply, shift } ==> apply == input.box_large && shift == input.shift,
        r matches SelectionStep::Start { deselect } ==> deselect == !input.shift,
{
    proof {
        lemma_selection_keeps_shift(dragging, input);
    }
    if input.blocked {
        SelectionStep::Cancel
    } else if input.clicked {
        SelectionStep::DeselectAll
    } else if input.pan_on_drag && !dragging && !input.shift {
        SelectionStep::Keep
    } else if input.drag_started && input.pointer_in_canvas {
        SelectionStep::Start { deselect: !input.shift }
    } else if input.dragged && dragging && input.pointer_known {
        SelectionStep::Update
    } else if input.drag_stopped {
        SelectionStep::Finish { apply: input.box_large, shift: input.shift }
    } else {
        SelectionStep::Keep
    }
}

} // verus!
