//! The colour decisions of the renderers: which colour a handle, an edge, a
//! connection line and a minimap node are drawn in.

use vstd::prelude::*;

use crate::types::edge::{Color, EdgeStyle};

verus! {

/// The colour `egui::Color32::from_rgba_unmultiplied(r, g, b, a)` gives, as
/// premultiplied (r, g, b, a).
pub uninterp spec fn rgba_unmultiplied(r: u8, g: u8, b: u8, a: u8) -> (u8, u8, u8, u8);

/// Calls `egui::Color32::from_rgba_unmultiplied`, which premultiplies the
/// channels by the alpha (through egui's gamma-correct lookup table).
/// Claimed, as its source shows: the result depends on the arguments alone;
/// alpha is kept; alpha 0 gives the transparent colour (all zero); alpha 255
/// keeps the channels as they are. What it makes of the channels for other
/// alphas is left unsaid.
#[verifier::external_body]
fn color_from_rgba_unmultiplied(r: u8, g: u8, b: u8, a: u8) -> (c: Color)
    ensures
        (c.r, c.g, c.b, c.a) == rgba_unmultiplied(r, g, b, a),
        c.a == a,
        a == 0 ==> c == (Color { r: 0, g: 0, b: 0, a: 0 }),
        a == 255 ==> c == (Color { r, g, b, a: 255 }),
{
    let [r, g, b, a] = egui::Color32::from_rgba_unmultiplied(r, g, b, a).to_array();
    Color { r, g, b, a }
}

/// The fill of a handle: the hover colour under the pointer; the handle
/// colour while its node is hovered; otherwise the handle colour's channels
/// at half opacity.
pub fn handle_fill_color(
    handle_hovered: bool,
    node_hovered: bool,
    handle_color: Color,
    hover_color: Color,
) -> (c: Color)
    ensures
        handle_hovered ==> c == hover_color,
        !handle_hovered && node_hovered ==> c == handle_color,
        !handle_hovered && !node_hovered ==> (c.r, c.g, c.b, c.a) == rgba_unmultiplied(
            handle_color.r,
            handle_color.g,
            handle_color.b,
            128,
        ) && c.a == 128,
{
    if handle_hovered {
        hover_color
    } else if node_hovered {
        handle_color
    } else {
        color_from_rgba_unmultiplied(handle_color.r, handle_color.g, handle_color.b, 128)
    }
}

/// The stroke colour of an edge: its own (selected) colour override when it
/// has one, else the configured (selected) edge colour.
pub fn edge_stroke_color<S>(
    selected: bool,
    style: &Option<EdgeStyle<S>>,
    edge_color: Color,
    edge_selected_color: Color,
) -> (c: Color)
    ensures
        selected ==> c == match style {
            Some(st) => match st.selected_color {
                Some(x) => x,
                None => edge_selected_color,
            },
            None => edge_selected_color,
        },
        !selected ==> c == match style {
            Some(st) => match st.color {
                Some(x) => x,
                None => edge_color,
            },
            None => edge_color,
        },
{
    if selected {
        match style {
            Some(st) => match st.selected_color {
                Some(x) => x,
                None => edge_selected_color,
            },
            None => edge_selected_color,
        }
    } else {
        match style {
            Some(st) => match st.color {
                Some(x) => x,
                None => edge_color,
            },
            None => edge_color,
        }
    }
}

/// The colour of the line drawn during a connection drag: green when the
/// target is valid, red when it is not, the edge colour when undecided.
pub fn connection_line_color(is_valid: Option<bool>, edge_color: Color) -> (c: Color)
    ensures
        c == match is_valid {
            Some(true) => Color { r: 34, g: 197, b: 94, a: 255 },
            Some(false) => Color { r: 239, g: 68, b: 68, a: 255 },
            None => edge_color,
        },
{
    match is_valid {
        Some(true) => Color::from_rgb(34, 197, 94),
        Some(false) => Color::from_rgb(239, 68, 68),
        None => edge_color,
    }
}

/// The fill of a node in the minimap: the selection border colour when
/// selected, a light grey otherwise.
pub fn minimap_node_color(selected: bool, selected_border: Color) -> (c: Color)
    ensures
        c == if selected {
            selected_border
        } else {
            Color { r: 180, g: 180, b: 200, a: 255 }
        },
{
    if selected {
        selected_border
    } else {
        Color::from_rgb(180, 180, 200)
    }
}

} // verus!
