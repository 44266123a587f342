//! The decisions the canvas widget makes each frame, apart from drawing and
//! input handling: which changes a click, a box selection, a key press or a
//! finished connection drag produces, and how a connection drag evolves.

use vstd::prelude::*;
use vstd::string::StringExecFns;

use crate::state::changes::{
    apply_edge_changes_spec, apply_node_changes_spec, edge_change_step, edge_ids,
    first_index, lemma_first_index, lemma_first_index_is, node_change_step, node_ids,
};
use crate::state::changes::{
    is_structural_edge_change, is_structural_node_change,
    lemma_non_structural_edge_changes_keep_ids, lemma_non_structural_node_changes_keep_ids,
    without_node,
};
use crate::state::lookup::{entry_ids, entry_of, ids_of, lookup_in_sync, NodeLookup};
use crate::types::changes::{EdgeChange, NodeChange};
use crate::types::connection::{Connection, ConnectionState, EdgeInfo};
use crate::types::edge::{AnchorEndpoint, Edge, EdgeAnchor, EdgeType};
use crate::types::handle::{clone_opt_string, is_scalar_of, Handle, HandleType};
use crate::types::ids::{EdgeId, NodeId};
use crate::types::node::Node;
use crate::types::position::{spec_opposite, Point};

verus! {

/// Validates whether a prospective connection between two handles should be
/// allowed. Implement this to enforce domain-specific rules (type
/// compatibility, no cycles, maximum fan-out, ...); `existing_edges` describes
/// every edge currently in the graph.
pub trait ConnectionValidator {
    /// Whether `connection` may be made.
    fn is_valid_connection(&self, connection: &Connection, existing_edges: &[EdgeInfo<'_>]) -> bool;
}

/// A [`ConnectionValidator`] that permits every connection.
pub struct AllowAllConnections;

impl ConnectionValidator for AllowAllConnections {
    fn is_valid_connection(&self, connection: &Connection, existing_edges: &[EdgeInfo<'_>]) -> (r:
        bool)
        ensures
            r,
    {
        true
    }
}

/// The optional string as a character sequence.
pub open spec fn opt_view(s: Option<String>) -> Option<Seq<char>> {
    match s {
        Some(x) => Some(x@),
        None => None,
    }
}

/// Whether two optional strings hold the same characters.
pub fn opt_str_eq(a: &Option<String>, b: &Option<String>) -> (r: bool)
    ensures
        r == (opt_view(*a) == opt_view(*b)),
{
    match (a, b) {
        (Some(x), Some(y)) => *x == *y,
        (None, None) => true,
        _ => false,
    }
}

// ───────────────────────────── connection drag ─────────────────────────────

/// The state a connection drag starts in, from `handle` at flow position
/// `from`: no target yet, the line heading to the side opposite the handle.
pub fn start_connection<S: Copy>(handle: Handle<S>, from: Point<S>) -> (r: ConnectionState<S>)
    ensures
        r matches ConnectionState::InProgress {
            is_valid,
            from: f,
            from_handle,
            from_position,
            from_node_id,
            to,
            to_handle,
            to_position,
            to_node_id,
        } && is_valid is None && f == from && from_handle == handle && from_position
            == handle.position && from_node_id@ == handle.node_id@ && to == from && *to_handle is None
            && to_position == spec_opposite(handle.position) && to_node_id is None,
{
    let from_position = handle.position;
    let node_id = NodeId::from_string(handle.node_id.clone());
    ConnectionState::InProgress {
        is_valid: None,
        from,
        from_handle: handle,
        from_position,
        from_node_id: node_id,
        to: from,
        to_handle: Box::new(None),
        to_position: from_position.opposite(),
        to_node_id: None,
    }
}

/// Follow the pointer during a connection drag. With the pointer at flow
/// position `pointer` and `closest` the nearest connectable handle (if any):
/// the line ends at the pointer, and snaps to `closest`'s node and side
/// (marked valid) or, without one, heads to the side opposite where it
/// started. Nothing changes when no drag is active or the pointer is gone.
pub fn update_connection_state<S: Copy>(
    connection_state: &mut ConnectionState<S>,
    pointer: Option<Point<S>>,
    closest: Option<&Handle<S>>,
)
    ensures
        (*old(connection_state) is Idle || pointer is None) ==> *final(connection_state) == *old(
            connection_state,
        ),
        *old(connection_state) matches ConnectionState::InProgress {
            from: f0,
            from_handle: fh0,
            from_position: fp0,
            from_node_id: fid0,
            ..
        } ==> (pointer matches Some(p) ==> (*final(connection_state) matches ConnectionState::InProgress {
            is_valid,
            from,
            from_handle,
            from_position,
            from_node_id,
            to,
            to_handle,
            to_position,
            to_node_id,
        } && from == f0 && from_handle == fh0 && from_position == fp0 && from_node_id == fid0
            && to == p && match closest {
            Some(h) => *to_handle == Some(*h) && to_position == h.position && (to_node_id matches Some(
                n,
            ) && n@ == h.node_id@) && is_valid == Some(true),
            None => *to_handle is None && to_node_id is None && is_valid is None && to_position
                == spec_opposite(fp0),
        })),
{
    let from_pos = match connection_state {
        ConnectionState::InProgress { from_position, .. } => *from_position,
        ConnectionState::Idle => return ,
    };
    let p = match pointer {
        Some(p) => p,
        None => return ,
    };
    match connection_state {
        ConnectionState::InProgress { to, to_handle, to_position, to_node_id, is_valid, .. } => {
            *to = p;
            match closest {
                Some(h) => {
                    *to_handle = Box::new(Some(h.clone()));
                    *to_position = h.position;
                    *to_node_id = Some(NodeId::from_string(h.node_id.clone()));
                    *is_valid = Some(true);
                },
                None => {
                    *to_handle = Box::new(None);
                    *to_node_id = None;
                    *is_valid = None;
                    *to_position = from_pos.opposite();
                },
            }
        },
        ConnectionState::Idle => {},
    }
}

/// The connection a drag makes when released: only a valid drag over a
/// target handle makes one, oriented from the source-type handle to the other.
pub open spec fn resolve_connection_spec<S>(state: ConnectionState<S>) -> Option<
    (Seq<char>, Seq<char>, Option<Seq<char>>, Option<Seq<char>>),
> {
    match state {
        ConnectionState::InProgress {
            from_node_id,
            from_handle,
            to_node_id: Some(to_node_id),
            to_handle,
            is_valid: Some(true),
            ..
        } => match *to_handle {
            Some(th) => if from_handle.handle_type == HandleType::Source {
                Some((from_node_id@, to_node_id@, opt_view(from_handle.id), opt_view(th.id)))
            } else {
                Some((to_node_id@, from_node_id@, opt_view(th.id), opt_view(from_handle.id)))
            },
            None => None,
        },
        _ => None,
    }
}

/// A connection as (source, target, source handle, target handle) views.
pub open spec fn connection_view(c: Connection) -> (
    Seq<char>,
    Seq<char>,
    Option<Seq<char>>,
    Option<Seq<char>>,
) {
    (c.source@, c.target@, opt_view(c.source_handle), opt_view(c.target_handle))
}

/// The connection that releasing the pointer makes, if any.
pub fn try_resolve_connection<S>(state: &ConnectionState<S>) -> (r: Option<Connection>)
    ensures
        match r {
            Some(c) => resolve_connection_spec(*state) == Some(connection_view(c)),
            None => resolve_connection_spec(*state) is None,
        },
{
    match state {
        ConnectionState::InProgress {
            from_node_id,
            from_handle,
            to_node_id: Some(to_node_id),
            to_handle,
            is_valid: Some(true),
            ..
        } => {
            let th = match &**to_handle {
                Some(h) => h,
                None => return None,
            };
            if from_handle.handle_type == HandleType::Source {
                Some(
                    Connection {
                        source: from_node_id.clone(),
                        target: to_node_id.clone(),
                        source_handle: clone_opt_string(&from_handle.id),
                        target_handle: clone_opt_string(&th.id),
                    },
                )
            } else {
                Some(
                    Connection {
                        source: to_node_id.clone(),
                        target: from_node_id.clone(),
                        source_handle: clone_opt_string(&th.id),
                        target_handle: clone_opt_string(&from_handle.id),
                    },
                )
            }
        },
        _ => None,
    }
}

/// The edge `e` joins the same nodes and handles as connection `c`.
pub open spec fn edge_joins<D, S>(e: Edge<D, S>, c: Connection) -> bool {
    &&& e.source@ == c.source@
    &&& e.target@ == c.target@
    &&& opt_view(e.source_handle) == opt_view(c.source_handle)
    &&& opt_view(e.target_handle) == opt_view(c.target_handle)
}

/// Whether some edge already joins the nodes and handles of `conn` (a
/// duplicate edge is never created).
pub fn connection_exists<D, S>(edges: &[Edge<D, S>], conn: &Connection) -> (r: bool)
    ensures
        r == exists|i: int| 0 <= i < edges@.len() && edge_joins(#[trigger] edges@[i], *conn),
{
    let mut i: usize = 0;
    while i < edges.len()
        invariant
            i <= edges@.len(),
            forall|j: int| 0 <= j < i ==> !edge_joins(#[trigger] edges@[j], *conn),
        decreases edges@.len() - i,
    {
        let e = &edges[i];
        if e.source == conn.source && e.target == conn.target && opt_str_eq(
            &e.source_handle,
            &conn.source_handle,
        ) && opt_str_eq(&e.target_handle, &conn.target_handle) {
            proof {
                assert(edge_joins(edges@[i as int], *conn));
            }
            return true;
        }
        i = i + 1;
    }
    false
}

/// `e` is the edge a completed connection `c` creates: id
/// `e<source>-<target>`, the connection's nodes and handles, path type
/// `edge_type`, interaction width 20, and every other option unset.
pub open spec fn connection_edge<D, S: From<u8>>(e: Edge<D, S>, c: Connection, edge_type: EdgeType) -> bool {
    &&& e.id@ == seq!['e'] + c.source@ + seq!['-'] + c.target@
    &&& edge_joins(e, c)
    &&& e.edge_type == Some(edge_type)
    &&& !e.animated && !e.hidden && !e.selected
    &&& e.deletable is None && e.selectable is None && e.data is None
    &&& e.marker_start is None && e.marker_end is None && e.z_index is None
    &&& is_scalar_of(e.interaction_width, 20)
    &&& e.source_anchor is None && e.target_anchor is None && e.anchors_draggable is None
    &&& e.style is None && e.label is None
}

/// The edge a completed connection creates (see [`connection_edge`]).
pub fn edge_from_connection<D, S: From<u8>>(conn: &Connection, edge_type: EdgeType) -> (e: Edge<
    D,
    S,
>)
    ensures
        connection_edge(e, *conn, edge_type),
{
    let mut id = String::from_str("e");
    id.append(conn.source.as_str());
    id.append("-");
    id.append(conn.target.as_str());
    proof {
        reveal_strlit("e");
        reveal_strlit("-");
    }
    let e = Edge {
        id: EdgeId::from_string(id),
        source: conn.source.clone(),
        target: conn.target.clone(),
        source_handle: clone_opt_string(&conn.source_handle),
        target_handle: clone_opt_string(&conn.target_handle),
        edge_type: Some(edge_type),
        animated: false,
        hidden: false,
        deletable: None,
        selectable: None,
        data: None,
        selected: false,
        marker_start: None,
        marker_end: None,
        z_index: None,
        interaction_width: S::from(20u8),
        source_anchor: None,
        target_anchor: None,
        anchors_draggable: None,
        style: None,
        label: None,
    };
    proof {
        assert(e.id@ =~= seq!['e'] + conn.source@ + seq!['-'] + conn.target@);
    }
    e
}

/// `infos` summarises `edges`, one by one in order: the same nodes and
/// handles.
pub open spec fn infos_describe<D, S>(infos: Seq<EdgeInfo<'_>>, edges: Seq<Edge<D, S>>) -> bool {
    &&& infos.len() == edges.len()
    &&& forall|i: int|
        0 <= i < infos.len() ==> (#[trigger] infos[i]).source@ == edges[i].source@
            && infos[i].target@ == edges[i].target@ && opt_str_view(infos[i].source_handle)
            == opt_view(edges[i].source_handle) && opt_str_view(infos[i].target_handle) == opt_view(
            edges[i].target_handle,
        )
}

/// Summaries of every edge, in order, for a connection validator.
pub fn edge_infos<'a, D, S>(edges: &'a [Edge<D, S>]) -> (r: Vec<EdgeInfo<'a>>)
    ensures
        r@.len() == edges@.len(),
        forall|i: int|
            0 <= i < r@.len() ==> (#[trigger] r@[i]).source == &edges@[i].source && r@[i].target
                == &edges@[i].target && opt_str_view(r@[i].source_handle) == opt_view(
                edges@[i].source_handle,
            ) && opt_str_view(r@[i].target_handle) == opt_view(edges@[i].target_handle),
{
    let mut r: Vec<EdgeInfo<'a>> = Vec::new();
    let mut i: usize = 0;
    while i < edges.len()
        invariant
            i <= edges@.len(),
            r@.len() == i,
            forall|j: int|
                0 <= j < i ==> (#[trigger] r@[j]).source == &edges@[j].source && r@[j].target
                    == &edges@[j].target && opt_str_view(r@[j].source_handle) == opt_view(
                    edges@[j].source_handle,
                ) && opt_str_view(r@[j].target_handle) == opt_view(edges@[j].target_handle),
        decreases edges@.len() - i,
    {
        let e = &edges[i];
        let sh = match &e.source_handle {
            Some(s) => Some(s.as_str()),
            None => None,
        };
        let th = match &e.target_handle {
            Some(s) => Some(s.as_str()),
            None => None,
        };
        r.push(EdgeInfo { source: &e.source, target: &e.target, source_handle: sh, target_handle: th });
        i = i + 1;
    }
    r
}

/// Add the edge for connection `conn` when it is `allowed` and no edge joins
/// its nodes and handles yet; whether it was added.
pub fn add_connection_edge<D, S: From<u8>>(
    edges: &mut Vec<Edge<D, S>>,
    conn: &Connection,
    allowed: bool,
    edge_type: EdgeType,
) -> (added: bool)
    ensures
        added == (allowed && !exists|i: int|
            0 <= i < old(edges)@.len() && edge_joins(#[trigger] old(edges)@[i], *conn)),
        added ==> final(edges)@.len() == old(edges)@.len() + 1 && final(edges)@.drop_last()
            == old(edges)@ && connection_edge(final(edges)@.last(), *conn, edge_type),
        !added ==> final(edges)@ == old(edges)@,
{
    if allowed && !connection_exists(edges.as_slice(), conn) {
        let e = edge_from_connection(conn, edge_type);
        edges.push(e);
        proof {
            assert(final(edges)@.drop_last() =~= old(edges)@);
        }
        true
    } else {
        false
    }
}

/// The edge `e` joins the nodes and handles of the connection view `v`.
pub open spec fn edge_joins_view<D, S>(
    e: Edge<D, S>,
    v: (Seq<char>, Seq<char>, Option<Seq<char>>, Option<Seq<char>>),
) -> bool {
    (e.source@, e.target@, opt_view(e.source_handle), opt_view(e.target_handle)) == v
}

/// What releasing the pointer did to a connection drag.
#[derive(Debug)]
pub struct ConnectionRelease {
    /// A drag was in progress (it has now ended).
    pub ended: bool,
    /// The validator's answer on the connection the drag made, when it
    /// made one.
    pub allowed: Option<bool>,
    /// The connection whose edge was added.
    pub made: Option<Connection>,
}

/// Releasing the pointer ends a connection drag. When the drag makes a
/// connection (see [`try_resolve_connection`]), `validator` is asked about
/// it, given every edge; its edge is added, and the connection returned,
/// exactly when the validator allows it and no edge joins its nodes and
/// handles yet.
pub fn release_connection<D, S: From<u8>, V: ConnectionValidator>(
    connection_state: &mut ConnectionState<S>,
    edges: &mut Vec<Edge<D, S>>,
    validator: &V,
    edge_type: EdgeType,
) -> (r: ConnectionRelease)
    ensures
        *final(connection_state) is Idle,
        r.ended == (*old(connection_state) is InProgress),
        r.allowed is None <==> resolve_connection_spec(*old(connection_state)) is None,
        r.allowed matches Some(a) ==> (r.made is Some <==> (a && !exists|i: int|
            0 <= i < old(edges)@.len() && edge_joins_view(
                #[trigger] old(edges)@[i],
                resolve_connection_spec(*old(connection_state))->0,
            ))),
        r.made matches Some(c) ==> {
            &&& resolve_connection_spec(*old(connection_state)) == Some(connection_view(c))
            &&& final(edges)@.len() == old(edges)@.len() + 1
            &&& final(edges)@.drop_last() == old(edges)@
            &&& connection_edge(final(edges)@.last(), c, edge_type)
        },
        r.made is None ==> final(edges)@ == old(edges)@,
        r.allowed matches Some(a) ==> exists|c: Connection, s: &[EdgeInfo<'_>]|
            #![trigger call_ensures(V::is_valid_connection, (validator, &c, s), a)]
            connection_view(c) == resolve_connection_spec(*old(connection_state))->0
                && infos_describe(s@, old(edges)@) && call_ensures(
                V::is_valid_connection,
                (validator, &c, s),
                a,
            ),
{
    let ended = match connection_state {
        ConnectionState::InProgress { .. } => true,
        ConnectionState::Idle => false,
    };
    let mut made: Option<Connection> = None;
    let mut answer: Option<bool> = None;
    if let Some(conn) = try_resolve_connection(connection_state) {
        let infos = edge_infos(edges.as_slice());
        let sl = infos.as_slice();
        let allowed = validator.is_valid_connection(&conn, sl);
        answer = Some(allowed);
        proof {
            assert(call_ensures(V::is_valid_connection, (validator, &conn, sl), allowed));
            assert(infos_describe(sl@, old(edges)@));
        }
        proof {
            assert forall|i: int| 0 <= i < old(edges)@.len() implies (edge_joins_view(
                #[trigger] old(edges)@[i],
                resolve_connection_spec(*old(connection_state))->0,
            ) <==> edge_joins(old(edges)@[i], conn)) by {}
        }
        if add_connection_edge(edges, &conn, allowed, edge_type) {
            made = Some(conn);
        }
    }
    *connection_state = ConnectionState::Idle;
    ConnectionRelease { ended, allowed: answer, made }
}

/// The optional string slice as a character sequence.
pub open spec fn opt_str_view(s: Option<&str>) -> Option<Seq<char>> {
    match s {
        Some(x) => Some(x@),
        None => None,
    }
}

// ───────────────────────────── selection changes ─────────────────────────────

/// A node selection change as (id, selected); other changes are not selections.
pub open spec fn node_select_view<D, S>(c: NodeChange<D, S>) -> Option<(Seq<char>, bool)> {
    match c {
        NodeChange::Select { id, selected } => Some((id@, selected)),
        _ => None,
    }
}

/// An edge selection change as (id, selected); other changes are not selections.
pub open spec fn edge_select_view<D, S>(c: EdgeChange<D, S>) -> Option<(Seq<char>, bool)> {
    match c {
        EdgeChange::Select { id, selected } => Some((id@, selected)),
        _ => None,
    }
}

/// A removal change as the id it removes.
pub open spec fn node_remove_view<D, S>(c: NodeChange<D, S>) -> Option<Seq<char>> {
    match c {
        NodeChange::Remove { id } => Some(id@),
        _ => None,
    }
}

/// A removal change as the id it removes.
pub open spec fn edge_remove_view<D, S>(c: EdgeChange<D, S>) -> Option<Seq<char>> {
    match c {
        EdgeChange::Remove { id } => Some(id@),
        _ => None,
    }
}

/// Whether the node with id `id` is selected in the lookup (false when absent).
pub open spec fn selected_in<D, S>(s: Seq<InternalNodeAlias<D, S>>, id: Seq<char>) -> bool {
    entry_of(s, id) matches Some(e) && e.node.selected
}

/// Shorthand for lookup entries.
pub type InternalNodeAlias<D, S> = crate::types::node::InternalNode<D, S>;

/// Selection changes for a click on node `id`. With shift held, the node's
/// selection is toggled. Without, every node of the lookup gets a selection
/// change, in lookup order: selected exactly when it is the clicked node.
pub fn node_click_changes<D, S>(node_lookup: &NodeLookup<D, S>, id: &NodeId, shift: bool) -> (r:
    Vec<NodeChange<D, S>>)
    ensures
        shift ==> r@.len() == 1 && node_select_view(r@[0]) == Some(
            (id@, !selected_in(node_lookup@, id@)),
        ),
        !shift ==> r@.len() == node_lookup@.len() && forall|i: int|
            0 <= i < r@.len() ==> node_select_view(#[trigger] r@[i]) == Some(
                (entry_ids(node_lookup@)[i], entry_ids(node_lookup@)[i] == id@),
            ),
{
    let mut r: Vec<NodeChange<D, S>> = Vec::new();
    if shift {
        let currently_selected = match node_lookup.get(id) {
            Some(n) => n.node.selected,
            None => false,
        };
        r.push(NodeChange::Select { id: id.clone(), selected: !currently_selected });
        return r;
    }
    let ghost s = node_lookup@;
    let mut i: usize = 0;
    while i < node_lookup.len()
        invariant
            s == node_lookup@,
            i <= s.len(),
            r@.len() == i,
            forall|j: int|
                0 <= j < i ==> node_select_view(#[trigger] r@[j]) == Some(
                    (entry_ids(s)[j], entry_ids(s)[j] == id@),
                ),
        decreases s.len() - i,
    {
        let e = node_lookup.entry(i);
        let sel = e.node.id == *id;
        r.push(NodeChange::Select { id: e.node.id.clone(), selected: sel });
        i = i + 1;
    }
    r
}

/// Whether edge `e` ends up selected after a click on edge `clicked`: the
/// clicked edge is selected (toggled with shift); without shift every other
/// edge is deselected, with shift it keeps its state.
pub open spec fn edge_click_selects<D, S>(e: Edge<D, S>, clicked: Seq<char>, shift: bool) -> bool {
    if e.id@ == clicked {
        if shift {
            !e.selected
        } else {
            true
        }
    } else if !shift {
        false
    } else {
        e.selected
    }
}

/// A click on an edge: without shift the clicked edge ends up selected and
/// every other edge deselected, whatever was selected before; with shift the
/// clicked edge flips and every other edge keeps its state.
pub proof fn lemma_edge_click_outcome<D, S>(e: Edge<D, S>, clicked: Seq<char>, shift: bool)
    ensures
        !shift ==> edge_click_selects(e, clicked, shift) == (e.id@ == clicked),
        e.id@ == clicked && !shift ==> edge_click_selects(e, clicked, shift),
        shift ==> edge_click_selects(e, clicked, shift) == ((e.id@ == clicked) != e.selected),
{
}

/// Selection changes for a click on edge `clicked`: one per edge, in order,
/// as [`edge_click_selects`] says.
pub fn edge_click_changes<D, S>(edges: &[Edge<D, S>], clicked: &EdgeId, shift: bool) -> (r: Vec<
    EdgeChange<D, S>,
>)
    ensures
        r@.len() == edges@.len(),
        forall|i: int|
            0 <= i < r@.len() ==> edge_select_view(#[trigger] r@[i]) == Some(
                (edges@[i].id@, edge_click_selects(edges@[i], clicked@, shift)),
            ),
        !shift ==> forall|i: int|
            0 <= i < r@.len() ==> edge_select_view(#[trigger] r@[i]) == Some(
                (edges@[i].id@, edges@[i].id@ == clicked@),
            ),
        shift ==> forall|i: int|
            0 <= i < r@.len() ==> edge_select_view(#[trigger] r@[i]) == Some(
                (edges@[i].id@, (edges@[i].id@ == clicked@) != edges@[i].selected),
            ),
{
    proof {
        assert forall|e: Edge<D, S>| true implies #[trigger] edge_click_selects(e, clicked@, shift) == (if shift {
            (e.id@ == clicked@) != e.selected
        } else {
            e.id@ == clicked@
        }) by {
            lemma_edge_click_outcome(e, clicked@, shift);
        }
    }
    let mut r: Vec<EdgeChange<D, S>> = Vec::new();
    let mut i: usize = 0;
    while i < edges.len()
        invariant
            i <= edges@.len(),
            r@.len() == i,
            forall|j: int|
                0 <= j < i ==> edge_select_view(#[trigger] r@[j]) == Some(
                    (edges@[j].id@, edge_click_selects(edges@[j], clicked@, shift)),
                ),
        decreases edges@.len() - i,
    {
        let e = &edges[i];
        let select = if e.id == *clicked {
            if shift {
                !e.selected
            } else {
                true
            }
        } else if !shift {
            false
        } else {
            e.selected
        };
        r.push(EdgeChange::Select { id: e.id.clone(), selected: select });
        i = i + 1;
    }
    r
}

/// The selected edges.
pub open spec fn selected_edges<D, S>(edges: Seq<Edge<D, S>>) -> Seq<Edge<D, S>> {
    edges.filter(|e: Edge<D, S>| e.selected)
}

/// Changes that deselect everything: every node of the lookup, in lookup
/// order, and every selected edge, in edge order.
pub fn deselect_all_changes<D, S, ED>(node_lookup: &NodeLookup<D, S>, edges: &[Edge<ED, S>]) -> (r: (
    Vec<NodeChange<D, S>>,
    Vec<EdgeChange<ED, S>>,
))
    ensures
        r.0@.len() == node_lookup@.len(),
        forall|i: int|
            0 <= i < r.0@.len() ==> node_select_view(#[trigger] r.0@[i]) == Some(
                (entry_ids(node_lookup@)[i], false),
            ),
        r.1@.len() == selected_edges(edges@).len(),
        forall|i: int|
            0 <= i < r.1@.len() ==> edge_select_view(#[trigger] r.1@[i]) == Some(
                (selected_edges(edges@)[i].id@, false),
            ),
{
    let ghost s = node_lookup@;
    let mut nc: Vec<NodeChange<D, S>> = Vec::new();
    let mut i: usize = 0;
    while i < node_lookup.len()
        invariant
            s == node_lookup@,
            i <= s.len(),
            nc@.len() == i,
            forall|j: int|
                0 <= j < i ==> node_select_view(#[trigger] nc@[j]) == Some((entry_ids(s)[j], false)),
        decreases s.len() - i,
    {
        let e = node_lookup.entry(i);
        nc.push(NodeChange::Select { id: e.node.id.clone(), selected: false });
        i = i + 1;
    }
    let mut ec: Vec<EdgeChange<ED, S>> = Vec::new();
    let mut j: usize = 0;
    while j < edges.len()
        invariant
            j <= edges@.len(),
            ec@.len() == selected_edges(edges@.take(j as int)).len(),
            forall|t: int|
                0 <= t < ec@.len() ==> edge_select_view(#[trigger] ec@[t]) == Some(
                    (selected_edges(edges@.take(j as int))[t].id@, false),
                ),
        decreases edges@.len() - j,
    {
        proof {
            crate::state::lookup::lemma_filter_take_step(
                edges@,
                |e: Edge<ED, S>| e.selected,
                j as int,
            );
        }
        if edges[j].selected {
            ec.push(EdgeChange::Select { id: edges[j].id.clone(), selected: false });
        }
        j = j + 1;
    }
    proof {
        assert(edges@.take(j as int) =~= edges@);
    }
    (nc, ec)
}

/// Selection changes when a selection box closes over the nodes
/// `inside`. Without shift every node of the lookup, in lookup order, is
/// selected exactly when it is inside; with shift the nodes inside are
/// added to the selection and nothing else changes.
pub fn box_selection_changes<D, S>(
    node_lookup: &NodeLookup<D, S>,
    inside: &[NodeId],
    shift: bool,
) -> (r: Vec<NodeChange<D, S>>)
    ensures
        !shift ==> r@.len() == node_lookup@.len() && forall|i: int|
            0 <= i < r@.len() ==> node_select_view(#[trigger] r@[i]) == Some(
                (entry_ids(node_lookup@)[i], ids_of(inside@).contains(entry_ids(node_lookup@)[i])),
            ),
        shift ==> r@.len() == inside@.len() && forall|i: int|
            0 <= i < r@.len() ==> node_select_view(#[trigger] r@[i]) == Some((inside@[i]@, true)),
{
    let mut r: Vec<NodeChange<D, S>> = Vec::new();
    if shift {
        let mut i: usize = 0;
        while i < inside.len()
            invariant
                i <= inside@.len(),
                r@.len() == i,
                forall|j: int|
                    0 <= j < i ==> node_select_view(#[trigger] r@[j]) == Some((inside@[j]@, true)),
            decreases inside@.len() - i,
        {
            r.push(NodeChange::Select { id: inside[i].clone(), selected: true });
            i = i + 1;
        }
        return r;
    }
    let ghost s = node_lookup@;
    let mut i: usize = 0;
    while i < node_lookup.len()
        invariant
            s == node_lookup@,
            i <= s.len(),
            r@.len() == i,
            forall|j: int|
                0 <= j < i ==> node_select_view(#[trigger] r@[j]) == Some(
                    (entry_ids(s)[j], ids_of(inside@).contains(entry_ids(s)[j])),
                ),
        decreases s.len() - i,
    {
        let e = node_lookup.entry(i);
        let mut found = false;
        let mut j: usize = 0;
        while j < inside.len()
            invariant
                j <= inside@.len(),
                found == exists|t: int| 0 <= t < j && inside@[t]@ == e.node.id@,
            decreases inside@.len() - j,
        {
            if inside[j] == e.node.id {
                found = true;
            }
            j = j + 1;
        }
        proof {
            if found {
                let t = choose|t: int| 0 <= t < j && inside@[t]@ == e.node.id@;
                assert(ids_of(inside@)[t] == e.node.id@);
            } else {
                assert forall|t: int| 0 <= t < ids_of(inside@).len() implies ids_of(inside@)[t]
                    != e.node.id@ by {
                    assert(ids_of(inside@)[t] == inside@[t]@);
                }
            }
        }
        r.push(NodeChange::Select { id: e.node.id.clone(), selected: found });
        i = i + 1;
    }
    r
}

// ───────────────────────────── anchor drag ─────────────────────────────

/// Whether an edge's endpoints can be dragged: its own setting, else the
/// global one.
pub fn anchors_draggable<D, S>(edge: &Edge<D, S>, global: bool) -> (r: bool)
    ensures
        r == match edge.anchors_draggable {
            Some(b) => b,
            None => global,
        },
{
    match edge.anchors_draggable {
        Some(b) => b,
        None => global,
    }
}

/// The change that ends an anchor drag on `endpoint` of edge `edge_id`:
/// that endpoint's anchor is set to `anchor`, the other is left alone.
pub fn anchor_change<D, S>(edge_id: &EdgeId, endpoint: AnchorEndpoint, anchor: EdgeAnchor<S>) -> (r:
    EdgeChange<D, S>)
    ensures
        r matches EdgeChange::Anchor { id, source_anchor, target_anchor } && id@ == edge_id@
            && match endpoint {
            AnchorEndpoint::Source => source_anchor == Some(Some(anchor)) && target_anchor is None,
            AnchorEndpoint::Target => source_anchor is None && target_anchor == Some(Some(anchor)),
        },
{
    match endpoint {
        AnchorEndpoint::Source => EdgeChange::Anchor {
            id: edge_id.clone(),
            source_anchor: Some(Some(anchor)),
            target_anchor: None,
        },
        AnchorEndpoint::Target => EdgeChange::Anchor {
            id: edge_id.clone(),
            source_anchor: None,
            target_anchor: Some(Some(anchor)),
        },
    }
}

/// An anchor drag under way: which end of which edge, on which node.
#[derive(Debug)]
pub struct AnchorDrag {
    /// The edge whose end is dragged.
    pub edge_id: EdgeId,
    /// Which end.
    pub endpoint: AnchorEndpoint,
    /// The node that end sits on.
    pub node_id: NodeId,
}

/// Whether a press can grab an end of edge `e` whose ends are hovered as
/// `hover` (source, target): it is shown, its ends are draggable, and one
/// of them is under the pointer.
pub open spec fn grabs_anchor<D, S>(e: Edge<D, S>, global: bool, hover: (bool, bool)) -> bool {
    &&& !e.hidden
    &&& match e.anchors_draggable {
        Some(b) => b,
        None => global,
    }
    &&& (hover.0 || hover.1)
}

/// The hover state of edge `i`'s ends; ends without an entry are not hovered.
pub open spec fn hover_at(hovers: Seq<(bool, bool)>, i: int) -> (bool, bool) {
    if 0 <= i < hovers.len() {
        hovers[i]
    } else {
        (false, false)
    }
}

/// The anchor drag a press starts: on the first edge, in order, that
/// [`grabs_anchor`], at its source end when that is hovered, else at its
/// target end. `hovers[i]` says whether edge `i`'s (source, target) end is
/// under the pointer.
pub fn pick_anchor_drag<D, S>(edges: &[Edge<D, S>], global: bool, hovers: &[(bool, bool)]) -> (r:
    Option<AnchorDrag>)
    ensures
        r is None <==> forall|i: int|
            0 <= i < edges@.len() ==> !grabs_anchor(#[trigger] edges@[i], global, hover_at(hovers@, i)),
        r matches Some(d) ==> exists|i: int|
            0 <= i < edges@.len() && grabs_anchor(#[trigger] edges@[i], global, hover_at(hovers@, i))
                && (forall|j: int|
                0 <= j < i ==> !grabs_anchor(#[trigger] edges@[j], global, hover_at(hovers@, j)))
                && d.edge_id@ == edges@[i].id@ && if hover_at(hovers@, i).0 {
                d.endpoint == AnchorEndpoint::Source && d.node_id@ == edges@[i].source@
            } else {
                d.endpoint == AnchorEndpoint::Target && d.node_id@ == edges@[i].target@
            },
{
    let mut i: usize = 0;
    while i < edges.len()
        invariant
            i <= edges@.len(),
            forall|j: int|
                0 <= j < i ==> !grabs_anchor(#[trigger] edges@[j], global, hover_at(hovers@, j)),
        decreases edges@.len() - i,
    {
        let e = &edges[i];
        let h: (bool, bool) = if i < hovers.len() {
            hovers[i]
        } else {
            (false, false)
        };
        if !e.hidden && anchors_draggable(e, global) && (h.0 || h.1) {
            proof {
                assert(grabs_anchor(edges@[i as int], global, hover_at(hovers@, i as int)));
            }
            if h.0 {
                return Some(
                    AnchorDrag {
                        edge_id: e.id.clone(),
                        endpoint: AnchorEndpoint::Source,
                        node_id: e.source.clone(),
                    },
                );
            } else {
                return Some(
                    AnchorDrag {
                        edge_id: e.id.clone(),
                        endpoint: AnchorEndpoint::Target,
                        node_id: e.target.clone(),
                    },
                );
            }
        }
        i = i + 1;
    }
    None
}

// ───────────────────────────── keyboard ─────────────────────────────

/// A node that the delete key removes: selected and deletable, a node
/// without its own setting following `default`.
pub open spec fn deletes_node<D, S>(default: bool) -> spec_fn(Node<D, S>) -> bool {
    |n: Node<D, S>|
        n.selected && match n.deletable {
            Some(d) => d,
            None => default,
        }
}

/// An edge that the delete key removes: selected and not marked undeletable.
pub open spec fn deletes_edge<D, S>() -> spec_fn(Edge<D, S>) -> bool {
    |e: Edge<D, S>| e.selected && e.deletable != Some(false)
}

/// A node that select-all selects: selectable, a node without its own
/// setting following `default`, and visible.
pub open spec fn select_all_picks<D, S>(default: bool) -> spec_fn(Node<D, S>) -> bool {
    |n: Node<D, S>|
        match n.selectable {
            Some(b) => b,
            None => default,
        } && !n.hidden
}

/// Removal changes for the delete key: one per selected, deletable node, in
/// order; `deletable_default` is the global setting for nodes without their own.
pub fn node_removals<D, S>(nodes: &[Node<D, S>], deletable_default: bool) -> (r: Vec<
    NodeChange<D, S>,
>)
    ensures
        r@.len() == nodes@.filter(deletes_node(deletable_default)).len(),
        forall|i: int|
            0 <= i < r@.len() ==> node_remove_view(#[trigger] r@[i]) == Some(
                nodes@.filter(deletes_node(deletable_default))[i].id@,
            ),
{
    let mut r: Vec<NodeChange<D, S>> = Vec::new();
    let mut j: usize = 0;
    while j < nodes.len()
        invariant
            j <= nodes@.len(),
            r@.len() == nodes@.take(j as int).filter(deletes_node(deletable_default)).len(),
            forall|t: int|
                0 <= t < r@.len() ==> node_remove_view(#[trigger] r@[t]) == Some(
                    nodes@.take(j as int).filter(deletes_node(deletable_default))[t].id@,
                ),
        decreases nodes@.len() - j,
    {
        proof {
            crate::state::lookup::lemma_filter_take_step(nodes@, deletes_node(deletable_default), j as int);
        }
        let deletable = match nodes[j].deletable {
            Some(d) => d,
            None => deletable_default,
        };
        if nodes[j].selected && deletable {
            r.push(NodeChange::Remove { id: nodes[j].id.clone() });
        }
        j = j + 1;
    }
    proof {
        assert(nodes@.take(j as int) =~= nodes@);
    }
    r
}

/// Removal changes for the delete key: one per selected, deletable edge, in order.
pub fn edge_removals<D, S>(edges: &[Edge<D, S>]) -> (r: Vec<EdgeChange<D, S>>)
    ensures
        r@.len() == edges@.filter(deletes_edge()).len(),
        forall|i: int|
            0 <= i < r@.len() ==> edge_remove_view(#[trigger] r@[i]) == Some(
                edges@.filter(deletes_edge())[i].id@,
            ),
        forall|i: int|
            0 <= i < r@.len() ==> exists|j: int|
                0 <= j < edges@.len() && edge_remove_view(#[trigger] r@[i]) == Some(edges@[j].id@)
                    && edges@[j].selected && edges@[j].deletable != Some(false),
        forall|j: int|
            0 <= j < edges@.len() && (#[trigger] edges@[j]).selected && edges@[j].deletable != Some(
                false,
            ) ==> exists|i: int| 0 <= i < r@.len() && edge_remove_view(#[trigger] r@[i]) == Some(edges@[j].id@),
{
    let mut r: Vec<EdgeChange<D, S>> = Vec::new();
    let mut j: usize = 0;
    while j < edges.len()
        invariant
            j <= edges@.len(),
            r@.len() == edges@.take(j as int).filter(deletes_edge()).len(),
            forall|t: int|
                0 <= t < r@.len() ==> edge_remove_view(#[trigger] r@[t]) == Some(
                    edges@.take(j as int).filter(deletes_edge())[t].id@,
                ),
        decreases edges@.len() - j,
    {
        proof {
            crate::state::lookup::lemma_filter_take_step(edges@, deletes_edge(), j as int);
        }
        let deletable = match edges[j].deletable {
            Some(d) => d,
            None => true,
        };
        if edges[j].selected && deletable {
            r.push(EdgeChange::Remove { id: edges[j].id.clone() });
        }
        j = j + 1;
    }
    proof {
        assert(edges@.take(j as int) =~= edges@);
        let f = edges@.filter(deletes_edge());
        lemma_edge_removals_respect_flags(edges@);
        assert forall|i: int| 0 <= i < r@.len() implies exists|j: int|
            0 <= j < edges@.len() && edge_remove_view(#[trigger] r@[i]) == Some(edges@[j].id@)
                && edges@[j].selected && edges@[j].deletable != Some(false) by {
            assert(f[i].selected && f[i].deletable != Some(false) && edges@.contains(f[i]));
            let j = choose|j: int| 0 <= j < edges@.len() && edges@[j] == f[i];
            assert(edges@[j] == f[i]);
        }
        assert forall|j: int|
            0 <= j < edges@.len() && (#[trigger] edges@[j]).selected && edges@[j].deletable != Some(
                false,
            ) implies exists|i: int| 0 <= i < r@.len() && edge_remove_view(#[trigger] r@[i]) == Some(edges@[j].id@) by {
            assert(f.contains(edges@[j]));
            let i = choose|i: int| 0 <= i < f.len() && f[i] == edges@[j];
            assert(edge_remove_view(r@[i]) == Some(f[i].id@));
        }
    }
    r
}

/// The delete key removes an edge only when it is selected and not marked
/// undeletable, and every such edge: each edge it removes is one of `edges`,
/// selected, with `deletable` not `Some(false)`; each selected edge of
/// `edges` not marked undeletable is among those removed.
pub proof fn lemma_edge_removals_respect_flags<D, S>(edges: Seq<Edge<D, S>>)
    ensures
        forall|i: int|
            0 <= i < edges.filter(deletes_edge()).len() ==> (#[trigger] edges.filter(deletes_edge())[i]).selected
                && edges.filter(deletes_edge())[i].deletable != Some(false) && edges.contains(
                edges.filter(deletes_edge())[i],
            ),
        forall|j: int|
            0 <= j < edges.len() && (#[trigger] edges[j]).selected && edges[j].deletable != Some(false)
                ==> edges.filter(deletes_edge()).contains(edges[j]),
{
    let p = deletes_edge::<D, S>();
    let f = edges.filter(p);
    assert forall|i: int| 0 <= i < f.len() implies (#[trigger] f[i]).selected && f[i].deletable != Some(
        false,
    ) && edges.contains(f[i]) by {
        edges.lemma_filter_pred(p, i);
        assert(f.contains(f[i]));
        edges.lemma_filter_contains_rev(p, f[i]);
    }
    assert forall|j: int|
        0 <= j < edges.len() && (#[trigger] edges[j]).selected && edges[j].deletable != Some(false)
            implies f.contains(edges[j]) by {
        edges.lemma_filter_contains(p, j);
    }
}

/// Selection changes for select-all: one per selectable, visible node, in
/// order; `selectable_default` is the global setting for nodes without their own.
pub fn select_all_changes<D, S>(nodes: &[Node<D, S>], selectable_default: bool) -> (r: Vec<
    NodeChange<D, S>,
>)
    ensures
        r@.len() == nodes@.filter(select_all_picks(selectable_default)).len(),
        forall|i: int|
            0 <= i < r@.len() ==> node_select_view(#[trigger] r@[i]) == Some(
                (nodes@.filter(select_all_picks(selectable_default))[i].id@, true),
            ),
{
    let mut r: Vec<NodeChange<D, S>> = Vec::new();
    let mut j: usize = 0;
    while j < nodes.len()
        invariant
            j <= nodes@.len(),
            r@.len() == nodes@.take(j as int).filter(select_all_picks(selectable_default)).len(),
            forall|t: int|
                0 <= t < r@.len() ==> node_select_view(#[trigger] r@[t]) == Some(
                    (nodes@.take(j as int).filter(select_all_picks(selectable_default))[t].id@, true),
                ),
        decreases nodes@.len() - j,
    {
        proof {
            crate::state::lookup::lemma_filter_take_step(nodes@, select_all_picks(selectable_default), j as int);
        }
        let selectable = match nodes[j].selectable {
            Some(d) => d,
            None => selectable_default,
        };
        if selectable && !nodes[j].hidden {
            r.push(NodeChange::Select { id: nodes[j].id.clone(), selected: true });
        }
        j = j + 1;
    }
    proof {
        assert(nodes@.take(j as int) =~= nodes@);
    }
    r
}

/// Ids of the selected nodes of a node list, in order.
pub fn selected_ids_in_nodes<D, S>(nodes: &[Node<D, S>]) -> (r: Vec<NodeId>)
    ensures
        ids_of(r@) == node_ids(nodes@.filter(|n: Node<D, S>| n.selected)),
{
    let ghost p = |n: Node<D, S>| n.selected;
    let mut r: Vec<NodeId> = Vec::new();
    let mut j: usize = 0;
    while j < nodes.len()
        invariant
            p == (|n: Node<D, S>| n.selected),
            j <= nodes@.len(),
            ids_of(r@) == node_ids(nodes@.take(j as int).filter(p)),
        decreases nodes@.len() - j,
    {
        proof {
            crate::state::lookup::lemma_filter_take_step(nodes@, p, j as int);
        }
        if nodes[j].selected {
            r.push(nodes[j].id.clone());
            proof {
                let prev = nodes@.take(j as int).filter(p);
                assert(p(nodes@[j as int]));
                assert(nodes@.take(j + 1).filter(p) == prev.push(nodes@[j as int]));
                assert(node_ids(prev.push(nodes@[j as int])) =~= node_ids(prev).push(
                    nodes@[j as int].id@,
                ));
                assert(ids_of(r@) =~= node_ids(nodes@.take(j + 1).filter(p)));
            }
        }
        j = j + 1;
    }
    proof {
        assert(nodes@.take(j as int) =~= nodes@);
    }
    r
}

/// The string views of a list of edge ids.
pub open spec fn edge_ids_of(v: Seq<EdgeId>) -> Seq<Seq<char>> {
    v.map_values(|x: EdgeId| x@)
}

/// Ids of the selected edges of an edge list, in order.
pub fn selected_ids_in_edges<D, S>(edges: &[Edge<D, S>]) -> (r: Vec<EdgeId>)
    ensures
        edge_ids_of(r@) == edge_ids(selected_edges(edges@)),
{
    let ghost p = |e: Edge<D, S>| e.selected;
    let mut r: Vec<EdgeId> = Vec::new();
    let mut j: usize = 0;
    while j < edges.len()
        invariant
            p == (|e: Edge<D, S>| e.selected),
            j <= edges@.len(),
            edge_ids_of(r@) == edge_ids(edges@.take(j as int).filter(p)),
        decreases edges@.len() - j,
    {
        proof {
            crate::state::lookup::lemma_filter_take_step(edges@, p, j as int);
        }
        if edges[j].selected {
            r.push(edges[j].id.clone());
            proof {
                let prev = edges@.take(j as int).filter(p);
                assert(p(edges@[j as int]));
                assert(edges@.take(j + 1).filter(p) == prev.push(edges@[j as int]));
                assert(edge_ids(prev.push(edges@[j as int])) =~= edge_ids(prev).push(
                    edges@[j as int].id@,
                ));
                assert(edge_ids_of(r@) =~= edge_ids(edges@.take(j + 1).filter(p)));
            }
        }
        j = j + 1;
    }
    proof {
        assert(edges@.take(j as int) =~= edges@);
    }
    r
}

/// Whether any edge is animated (the canvas then keeps repainting).
pub fn any_animated<D, S>(edges: &[Edge<D, S>]) -> (r: bool)
    ensures
        r == exists|i: int| 0 <= i < edges@.len() && (#[trigger] edges@[i]).animated,
{
    let mut i: usize = 0;
    while i < edges.len()
        invariant
            i <= edges@.len(),
            forall|j: int| 0 <= j < i ==> !(#[trigger] edges@[j]).animated,
        decreases edges@.len() - i,
    {
        if edges[i].animated {
            return true;
        }
        i = i + 1;
    }
    false
}

// ───────────────────────────── laws ─────────────────────────────

/// The value that the last selection change for `id` in `views` sets, or
/// `d` when none names it.
pub open spec fn last_select(views: Seq<Option<(Seq<char>, bool)>>, id: Seq<char>, d: bool) -> bool
    decreases views.len(),
{
    if views.len() == 0 {
        d
    } else {
        match views.last() {
            Some((x, v)) => if x == id {
                v
            } else {
                last_select(views.drop_last(), id, d)
            },
            None => last_select(views.drop_last(), id, d),
        }
    }
}

/// Applying selection changes to nodes with distinct ids sets each node's
/// flag to the last value given for its id, and changes nothing else.
proof fn lemma_apply_node_selects<D, S>(changes: Seq<NodeChange<D, S>>, nodes: Seq<Node<D, S>>)
    requires
        forall|i: int| 0 <= i < changes.len() ==> (#[trigger] changes[i]) is Select,
        node_ids(nodes).no_duplicates(),
    ensures
        apply_node_changes_spec(changes, nodes).len() == nodes.len(),
        forall|k: int|
            0 <= k < nodes.len() ==> #[trigger] apply_node_changes_spec(changes, nodes)[k] == (Node {
                selected: last_select(
                    changes.map_values(|c: NodeChange<D, S>| node_select_view(c)),
                    nodes[k].id@,
                    nodes[k].selected,
                ),
                ..nodes[k]
            }),
    decreases changes.len(),
{
    if changes.len() > 0 {
        let pre = changes.drop_last();
        assert forall|i: int| 0 <= i < pre.len() implies (#[trigger] pre[i]) is Select by {
            assert(pre[i] == changes[i]);
        }
        lemma_apply_node_selects(pre, nodes);
        assert forall|i: int| 0 <= i < pre.len() implies !is_structural_node_change(
            #[trigger] pre[i],
        ) by {
            assert(pre[i] == changes[i]);
        }
        lemma_non_structural_node_changes_keep_ids(pre, nodes);
        let m = apply_node_changes_spec(pre, nodes);
        let c = changes.last();
        assert(changes[changes.len() - 1] is Select);
        let views = changes.map_values(|c: NodeChange<D, S>| node_select_view(c));
        assert(views.drop_last() =~= pre.map_values(|c: NodeChange<D, S>| node_select_view(c)));
        let x = c->Select_id;
        lemma_first_index(node_ids(m), x@);
        let r = node_change_step(m, c);
        assert forall|k: int| 0 <= k < nodes.len() implies #[trigger] r[k] == (Node {
            selected: last_select(views, nodes[k].id@, nodes[k].selected),
            ..nodes[k]
        }) by {
            assert(m[k] == (Node {
                selected: last_select(views.drop_last(), nodes[k].id@, nodes[k].selected),
                ..nodes[k]
            }));
            assert(node_ids(m)[k] == nodes[k].id@);
            if nodes[k].id@ == x@ {
                let k0 = first_index(node_ids(m), x@)->0;
                assert(node_ids(nodes)[k0] == node_ids(nodes)[k]);
            }
        }
    }
}

proof fn lemma_last_select_keyed(
    views: Seq<Option<(Seq<char>, bool)>>,
    keys: Seq<Seq<char>>,
    clicked: Seq<char>,
    id: Seq<char>,
    d: bool,
)
    requires
        views.len() == keys.len(),
        forall|i: int| 0 <= i < views.len() ==> #[trigger] views[i] == Some((keys[i], keys[i] == clicked)),
        keys.contains(id),
    ensures
        last_select(views, id, d) == (id == clicked),
    decreases views.len(),
{
    if views.len() > 0 {
        if keys.last() != id {
            assert(views.last() == Some((keys.last(), keys.last() == clicked)));
            let t = choose|t: int| 0 <= t < keys.len() && keys[t] == id;
            assert(keys.drop_last()[t] == id);
            lemma_last_select_keyed(views.drop_last(), keys.drop_last(), clicked, id, d);
        } else {
            assert(views.last() == Some((keys.last(), keys.last() == clicked)));
        }
    }
}

/// Clicking a node without shift leaves exactly that node selected: applied
/// to a node list the lookup is in sync with, the changes that
/// [`node_click_changes`] makes select the clicked node, deselect every
/// other one, and change nothing else.
pub proof fn lemma_click_selects_only_clicked<D: Clone, S>(
    nodes: Seq<Node<D, S>>,
    s: Seq<InternalNodeAlias<D, S>>,
    clicked: Seq<char>,
    changes: Seq<NodeChange<D, S>>,
)
    requires
        lookup_in_sync(nodes, s),
        changes.len() == s.len(),
        forall|i: int|
            0 <= i < changes.len() ==> node_select_view(#[trigger] changes[i]) == Some(
                (entry_ids(s)[i], entry_ids(s)[i] == clicked),
            ),
    ensures
        apply_node_changes_spec(changes, nodes).len() == nodes.len(),
        forall|k: int|
            0 <= k < nodes.len() ==> #[trigger] apply_node_changes_spec(changes, nodes)[k] == (Node {
                selected: nodes[k].id@ == clicked,
                ..nodes[k]
            }),
{
    assert forall|i: int| 0 <= i < changes.len() implies (#[trigger] changes[i]) is Select by {
        assert(node_select_view(changes[i]) is Some);
    }
    lemma_apply_node_selects(changes, nodes);
    let views = changes.map_values(|c: NodeChange<D, S>| node_select_view(c));
    assert forall|k: int| 0 <= k < nodes.len() implies #[trigger] apply_node_changes_spec(
        changes,
        nodes,
    )[k] == (Node { selected: nodes[k].id@ == clicked, ..nodes[k] }) by {
        assert(first_index(entry_ids(s), node_ids(nodes)[k]) is Some);
        lemma_first_index(entry_ids(s), node_ids(nodes)[k]);
        assert(entry_ids(s).contains(nodes[k].id@));
        assert forall|i: int| 0 <= i < views.len() implies #[trigger] views[i] == Some(
            (entry_ids(s)[i], entry_ids(s)[i] == clicked),
        ) by {
            assert(views[i] == node_select_view(changes[i]));
        }
        lemma_last_select_keyed(views, entry_ids(s), clicked, nodes[k].id@, nodes[k].selected);
    }
}

/// Applying selection changes to edges with distinct ids sets each edge's
/// flag to the last value given for its id, and changes nothing else.
proof fn lemma_apply_edge_selects<D, S>(changes: Seq<EdgeChange<D, S>>, edges: Seq<Edge<D, S>>)
    requires
        forall|i: int| 0 <= i < changes.len() ==> (#[trigger] changes[i]) is Select,
        edge_ids(edges).no_duplicates(),
    ensures
        apply_edge_changes_spec(changes, edges).len() == edges.len(),
        forall|k: int|
            0 <= k < edges.len() ==> #[trigger] apply_edge_changes_spec(changes, edges)[k] == (Edge {
                selected: last_select(
                    changes.map_values(|c: EdgeChange<D, S>| edge_select_view(c)),
                    edges[k].id@,
                    edges[k].selected,
                ),
                ..edges[k]
            }),
    decreases changes.len(),
{
    if changes.len() > 0 {
        let pre = changes.drop_last();
        assert forall|i: int| 0 <= i < pre.len() implies (#[trigger] pre[i]) is Select by {
            assert(pre[i] == changes[i]);
        }
        lemma_apply_edge_selects(pre, edges);
        assert forall|i: int| 0 <= i < pre.len() implies !is_structural_edge_change(
            #[trigger] pre[i],
        ) by {
            assert(pre[i] == changes[i]);
        }
        lemma_non_structural_edge_changes_keep_ids(pre, edges);
        let m = apply_edge_changes_spec(pre, edges);
        let c = changes.last();
        assert(changes[changes.len() - 1] is Select);
        let views = changes.map_values(|c: EdgeChange<D, S>| edge_select_view(c));
        assert(views.drop_last() =~= pre.map_values(|c: EdgeChange<D, S>| edge_select_view(c)));
        let x = c->Select_id;
        lemma_first_index(edge_ids(m), x@);
        let r = edge_change_step(m, c);
        assert forall|k: int| 0 <= k < edges.len() implies #[trigger] r[k] == (Edge {
            selected: last_select(views, edges[k].id@, edges[k].selected),
            ..edges[k]
        }) by {
            assert(m[k] == (Edge {
                selected: last_select(views.drop_last(), edges[k].id@, edges[k].selected),
                ..edges[k]
            }));
            assert(edge_ids(m)[k] == edges[k].id@);
            if edges[k].id@ == x@ {
                let k0 = first_index(edge_ids(m), x@)->0;
                assert(edge_ids(edges)[k0] == edge_ids(edges)[k]);
            }
        }
    }
}

proof fn lemma_last_select_own(
    views: Seq<Option<(Seq<char>, bool)>>,
    keys: Seq<Seq<char>>,
    vals: Seq<bool>,
    k: int,
    d: bool,
)
    requires
        views.len() == keys.len(),
        vals.len() == keys.len(),
        keys.no_duplicates(),
        forall|i: int| 0 <= i < views.len() ==> #[trigger] views[i] == Some((keys[i], vals[i])),
        0 <= k < keys.len(),
    ensures
        last_select(views, keys[k], d) == vals[k],
    decreases views.len(),
{
    if views.len() > 0 {
        let n = views.len() - 1;
        assert(views.last() == Some((keys[n], vals[n])));
        if k != n {
            assert(keys[n] != keys[k]);
            assert(keys.drop_last()[k] == keys[k]);
            assert(vals.drop_last()[k] == vals[k]);
            lemma_last_select_own(views.drop_last(), keys.drop_last(), vals.drop_last(), k, d);
        }
    }
}

/// Clicking an edge selects it (toggles it with shift); without shift
/// every other edge is deselected, with shift the others keep their state.
/// Nothing but selection changes, for edges with distinct ids.
pub proof fn lemma_edge_click<D, S>(
    edges: Seq<Edge<D, S>>,
    clicked: Seq<char>,
    shift: bool,
    changes: Seq<EdgeChange<D, S>>,
)
    requires
        edge_ids(edges).no_duplicates(),
        changes.len() == edges.len(),
        forall|i: int|
            0 <= i < changes.len() ==> edge_select_view(#[trigger] changes[i]) == Some(
                (edges[i].id@, edge_click_selects(edges[i], clicked, shift)),
            ),
    ensures
        apply_edge_changes_spec(changes, edges).len() == edges.len(),
        forall|k: int|
            0 <= k < edges.len() ==> #[trigger] apply_edge_changes_spec(changes, edges)[k] == (Edge {
                selected: edge_click_selects(edges[k], clicked, shift),
                ..edges[k]
            }),
{
    assert forall|i: int| 0 <= i < changes.len() implies (#[trigger] changes[i]) is Select by {
        assert(edge_select_view(changes[i]) is Some);
    }
    lemma_apply_edge_selects(changes, edges);
    let views = changes.map_values(|c: EdgeChange<D, S>| edge_select_view(c));
    let vals = edges.map_values(|e: Edge<D, S>| edge_click_selects(e, clicked, shift));
    assert forall|k: int| 0 <= k < edges.len() implies #[trigger] apply_edge_changes_spec(
        changes,
        edges,
    )[k] == (Edge { selected: edge_click_selects(edges[k], clicked, shift), ..edges[k] }) by {
        assert forall|i: int| 0 <= i < views.len() implies #[trigger] views[i] == Some(
            (edge_ids(edges)[i], vals[i]),
        ) by {
            assert(views[i] == edge_select_view(changes[i]));
        }
        lemma_last_select_own(views, edge_ids(edges), vals, k, edges[k].selected);
    }
}

/// The node list with every node whose id is among `ids` taken out.
pub open spec fn without_nodes<D, S>(nodes: Seq<Node<D, S>>, ids: Seq<Seq<char>>) -> Seq<Node<D, S>>
    decreases ids.len(),
{
    if ids.len() == 0 {
        nodes
    } else {
        without_node(without_nodes(nodes, ids.drop_last()), ids.last())
    }
}

proof fn lemma_removals_apply<D, S>(changes: Seq<NodeChange<D, S>>, nodes: Seq<Node<D, S>>)
    requires
        forall|i: int| 0 <= i < changes.len() ==> (#[trigger] changes[i]) is Remove,
    ensures
        apply_node_changes_spec(changes, nodes) == without_nodes(
            nodes,
            changes.map_values(|c: NodeChange<D, S>| c->Remove_id@),
        ),
        forall|k: int|
            0 <= k < apply_node_changes_spec(changes, nodes).len() ==> nodes.contains(
                #[trigger] apply_node_changes_spec(changes, nodes)[k],
            ) && !changes.map_values(|c: NodeChange<D, S>| c->Remove_id@).contains(
                apply_node_changes_spec(changes, nodes)[k].id@,
            ),
    decreases changes.len(),
{
    broadcast use vstd::seq_lib::group_filter_ensures;

    let ids = changes.map_values(|c: NodeChange<D, S>| c->Remove_id@);
    if changes.len() > 0 {
        let pre = changes.drop_last();
        assert forall|i: int| 0 <= i < pre.len() implies (#[trigger] pre[i]) is Remove by {
            assert(pre[i] == changes[i]);
        }
        lemma_removals_apply(pre, nodes);
        assert(ids.drop_last() =~= pre.map_values(|c: NodeChange<D, S>| c->Remove_id@));
        assert(changes[changes.len() - 1] is Remove);
        let m = apply_node_changes_spec(pre, nodes);
        let r = apply_node_changes_spec(changes, nodes);
        let last = ids.last();
        assert(last == changes.last()->Remove_id@);
        assert(r == without_node(m, last));
        assert forall|k: int| 0 <= k < r.len() implies nodes.contains(#[trigger] r[k]) && !ids.contains(
            r[k].id@,
        ) by {
            crate::state::changes::lemma_remove_node(m, last);
            assert(r[k].id@ != last);
            assert(m.contains(r[k]));
            let j = choose|j: int| 0 <= j < m.len() && m[j] == r[k];
            assert(nodes.contains(m[j]));
            if ids.contains(r[k].id@) {
                let t = choose|t: int| 0 <= t < ids.len() && ids[t] == r[k].id@;
                if t < ids.len() - 1 {
                    assert(ids.drop_last()[t] == r[k].id@);
                    assert(ids.drop_last().contains(m[j].id@));
                }
            }
        }
    }
}

/// Filtering with two predicates that agree on every element gives the
/// same result.
proof fn lemma_filter_agree<A>(s: Seq<A>, p: spec_fn(A) -> bool, q: spec_fn(A) -> bool)
    requires
        forall|i: int| 0 <= i < s.len() ==> p(#[trigger] s[i]) == q(s[i]),
    ensures
        s.filter(p) == s.filter(q),
    decreases s.len(),
{
    if s.len() > 0 {
        let pre = s.drop_last();
        assert forall|i: int| 0 <= i < pre.len() implies p(#[trigger] pre[i]) == q(pre[i]) by {
            assert(pre[i] == s[i]);
        }
        lemma_filter_agree(pre, p, q);
        pre.lemma_filter_push(s.last(), p);
        pre.lemma_filter_push(s.last(), q);
        assert(pre.push(s.last()) =~= s);
        assert(p(s[s.len() - 1]) == q(s[s.len() - 1]));
    }
}

/// Filtering twice is filtering once by both predicates.
proof fn lemma_filter_filter<A>(s: Seq<A>, p: spec_fn(A) -> bool, q: spec_fn(A) -> bool)
    ensures
        s.filter(p).filter(q) == s.filter(|x: A| p(x) && q(x)),
    decreases s.len(),
{
    let pq = |x: A| p(x) && q(x);
    if s.len() > 0 {
        let pre = s.drop_last();
        let x = s.last();
        lemma_filter_filter(pre, p, q);
        assert(pre.push(x) =~= s);
        pre.lemma_filter_push(x, p);
        pre.lemma_filter_push(x, pq);
        pre.filter(p).lemma_filter_push(x, q);
    } else {
        assert(s.filter(p) =~= Seq::<A>::empty()) by {
            reveal(Seq::filter);
        }
        assert(s.filter(pq) =~= Seq::<A>::empty()) by {
            reveal(Seq::filter);
        }
        assert(s.filter(p).filter(q) =~= Seq::<A>::empty()) by {
            reveal(Seq::filter);
        }
    }
}

/// Removing the nodes of several ids keeps exactly the nodes whose id is
/// none of them, in order.
proof fn lemma_without_nodes_filter<D, S>(nodes: Seq<Node<D, S>>, ids: Seq<Seq<char>>)
    ensures
        without_nodes(nodes, ids) == nodes.filter(|n: Node<D, S>| !ids.contains(n.id@)),
    decreases ids.len(),
{
    if ids.len() == 0 {
        lemma_filter_agree(nodes, |n: Node<D, S>| !ids.contains(n.id@), |n: Node<D, S>| true);
        crate::state::changes::lemma_filter_all_pass_pub(nodes, |n: Node<D, S>| true);
    } else {
        let pre = ids.drop_last();
        let last = ids.last();
        lemma_without_nodes_filter(nodes, pre);
        let p = |n: Node<D, S>| !pre.contains(n.id@);
        let q = crate::state::changes::node_id_differs::<D, S>(last);
        lemma_filter_filter(nodes, p, q);
        assert forall|i: int| 0 <= i < nodes.len() implies ((|x: Node<D, S>| p(x) && q(x))(
            #[trigger] nodes[i],
        ) == (|n: Node<D, S>| !ids.contains(n.id@))(nodes[i])) by {
            let id = nodes[i].id@;
            if ids.contains(id) {
                let t = choose|t: int| 0 <= t < ids.len() && ids[t] == id;
                if t < ids.len() - 1 {
                    assert(pre[t] == id);
                }
            }
            if pre.contains(id) {
                let t = choose|t: int| 0 <= t < pre.len() && pre[t] == id;
                assert(ids[t] == id);
            }
            assert(ids[ids.len() - 1] == last);
        }
        lemma_filter_agree(
            nodes,
            |x: Node<D, S>| p(x) && q(x),
            |n: Node<D, S>| !ids.contains(n.id@),
        );
    }
}

/// The delete key removes exactly the selected, deletable nodes: after
/// applying the changes that [`node_removals`] makes, no such node is left,
/// the nodes left are nodes of the old list, and, when ids are distinct,
/// every other node stays, in order.
pub proof fn lemma_delete_removes_selected<D, S>(
    nodes: Seq<Node<D, S>>,
    deletable_default: bool,
    changes: Seq<NodeChange<D, S>>,
)
    requires
        changes.len() == nodes.filter(deletes_node(deletable_default)).len(),
        forall|i: int|
            0 <= i < changes.len() ==> node_remove_view(#[trigger] changes[i]) == Some(
                nodes.filter(deletes_node(deletable_default))[i].id@,
            ),
    ensures
        forall|k: int|
            0 <= k < apply_node_changes_spec(changes, nodes).len() ==> !deletes_node::<D, S>(
                deletable_default,
            )(#[trigger] apply_node_changes_spec(changes, nodes)[k]) && nodes.contains(
                apply_node_changes_spec(changes, nodes)[k],
            ),
        node_ids(nodes).no_duplicates() ==> apply_node_changes_spec(changes, nodes) == nodes.filter(
            |n: Node<D, S>| !deletes_node::<D, S>(deletable_default)(n),
        ),
{
    broadcast use vstd::seq_lib::group_filter_ensures;

    assert forall|i: int| 0 <= i < changes.len() implies (#[trigger] changes[i]) is Remove by {
        assert(node_remove_view(changes[i]) is Some);
    }
    lemma_removals_apply(changes, nodes);
    let r = apply_node_changes_spec(changes, nodes);
    let ids = changes.map_values(|c: NodeChange<D, S>| c->Remove_id@);
    let f = nodes.filter(deletes_node(deletable_default));
    assert forall|k: int| 0 <= k < r.len() implies !deletes_node::<D, S>(deletable_default)(
        #[trigger] r[k],
    ) && nodes.contains(r[k]) by {
        if deletes_node::<D, S>(deletable_default)(r[k]) {
            let j = choose|j: int| 0 <= j < nodes.len() && nodes[j] == r[k];
            assert(f.contains(nodes[j]));
            let t = choose|t: int| 0 <= t < f.len() && f[t] == nodes[j];
            assert(ids[t] == changes[t]->Remove_id@);
            assert(node_remove_view(changes[t]) == Some(f[t].id@));
            assert(ids[t] == r[k].id@);
        }
    }
    if node_ids(nodes).no_duplicates() {
        lemma_without_nodes_filter(nodes, ids);
        let keep = |n: Node<D, S>| !deletes_node::<D, S>(deletable_default)(n);
        assert forall|i: int| 0 <= i < nodes.len() implies (|n: Node<D, S>| !ids.contains(n.id@))(
            #[trigger] nodes[i],
        ) == keep(nodes[i]) by {
            let n = nodes[i];
            if deletes_node::<D, S>(deletable_default)(n) {
                assert(f.contains(n));
                let t = choose|t: int| 0 <= t < f.len() && f[t] == n;
                assert(node_remove_view(changes[t]) == Some(f[t].id@));
                assert(ids[t] == n.id@);
            }
            if ids.contains(n.id@) {
                let t = choose|t: int| 0 <= t < ids.len() && ids[t] == n.id@;
                assert(ids[t] == changes[t]->Remove_id@);
                assert(node_remove_view(changes[t]) == Some(f[t].id@));
                crate::state::changes::lemma_filter_subset(nodes, deletes_node(deletable_default));
                assert(nodes.contains(f[t]));
                let j = choose|j: int| 0 <= j < nodes.len() && nodes[j] == f[t];
                assert(node_ids(nodes)[j] == node_ids(nodes)[i]);
            }
        }
        lemma_filter_agree(nodes, |n: Node<D, S>| !ids.contains(n.id@), keep);
    }
}

/// Whether the node with id `id` is the id of some element of `keys`
/// selected by a trailing list of `true` selections.
proof fn lemma_last_select_all_true(
    views: Seq<Option<(Seq<char>, bool)>>,
    keys: Seq<Seq<char>>,
    id: Seq<char>,
    d: bool,
)
    requires
        views.len() == keys.len(),
        forall|i: int| 0 <= i < views.len() ==> #[trigger] views[i] == Some((keys[i], true)),
    ensures
        last_select(views, id, d) == (d || keys.contains(id)),
    decreases views.len(),
{
    if views.len() > 0 {
        let pre = views.drop_last();
        let kpre = keys.drop_last();
        assert forall|i: int| 0 <= i < pre.len() implies #[trigger] pre[i] == Some((kpre[i], true)) by {
            assert(pre[i] == views[i]);
        }
        lemma_last_select_all_true(pre, kpre, id, d);
        assert(views.last() == Some((keys.last(), true)));
        if keys.contains(id) && keys.last() != id {
            let t = choose|t: int| 0 <= t < keys.len() && keys[t] == id;
            assert(kpre[t] == id);
        }
        if kpre.contains(id) {
            let t = choose|t: int| 0 <= t < kpre.len() && kpre[t] == id;
            assert(keys[t] == id);
        }
        assert(keys[keys.len() - 1] == keys.last());
    }
}

/// Select-all selects exactly the selectable, visible nodes: applied to a
/// node list with distinct ids, the changes that [`select_all_changes`]
/// makes select every node it picks, keep the selection of the others,
/// and change nothing else.
pub proof fn lemma_select_all<D, S>(
    nodes: Seq<Node<D, S>>,
    selectable_default: bool,
    changes: Seq<NodeChange<D, S>>,
)
    requires
        node_ids(nodes).no_duplicates(),
        changes.len() == nodes.filter(select_all_picks(selectable_default)).len(),
        forall|i: int|
            0 <= i < changes.len() ==> node_select_view(#[trigger] changes[i]) == Some(
                (nodes.filter(select_all_picks(selectable_default))[i].id@, true),
            ),
    ensures
        apply_node_changes_spec(changes, nodes).len() == nodes.len(),
        forall|k: int|
            0 <= k < nodes.len() ==> #[trigger] apply_node_changes_spec(changes, nodes)[k] == (Node {
                selected: nodes[k].selected || select_all_picks::<D, S>(selectable_default)(
                    nodes[k],
                ),
                ..nodes[k]
            }),
{
    broadcast use vstd::seq_lib::group_filter_ensures;

    assert forall|i: int| 0 <= i < changes.len() implies (#[trigger] changes[i]) is Select by {
        assert(node_select_view(changes[i]) is Some);
    }
    lemma_apply_node_selects(changes, nodes);
    let f = nodes.filter(select_all_picks(selectable_default));
    let views = changes.map_values(|c: NodeChange<D, S>| node_select_view(c));
    let keys = node_ids(f);
    assert forall|i: int| 0 <= i < views.len() implies #[trigger] views[i] == Some((keys[i], true)) by {
        assert(views[i] == node_select_view(changes[i]));
    }
    assert forall|k: int| 0 <= k < nodes.len() implies #[trigger] apply_node_changes_spec(
        changes,
        nodes,
    )[k] == (Node {
        selected: nodes[k].selected || select_all_picks::<D, S>(selectable_default)(nodes[k]),
        ..nodes[k]
    }) by {
        let n = nodes[k];
        lemma_last_select_all_true(views, keys, n.id@, n.selected);
        if select_all_picks::<D, S>(selectable_default)(n) {
            assert(f.contains(n));
            let t = choose|t: int| 0 <= t < f.len() && f[t] == n;
            assert(keys[t] == n.id@);
        }
        if keys.contains(n.id@) {
            let t = choose|t: int| 0 <= t < keys.len() && keys[t] == n.id@;
            crate::state::changes::lemma_filter_subset(nodes, select_all_picks(selectable_default));
            assert(nodes.contains(f[t]));
            let j = choose|j: int| 0 <= j < nodes.len() && nodes[j] == f[t];
            assert(node_ids(nodes)[j] == node_ids(nodes)[k]);
        }
    }
}

} // verus!

verus! {

/// Built-in node renderer for nodes whose data is a `String` label: a
/// rounded rectangle with the label centred (drawn by the canvas).
pub struct DefaultNodeWidget;

/// Built-in node renderer for nodes without data: a rounded rectangle
/// labelled with the node type, or "Node" (drawn by the canvas).
pub struct UnitNodeWidget;

} // verus!
