//! Node interaction on the canvas: which clicks select, which nodes a drag
//! moves and when they start and stop dragging, and what a resize does to
//! the frame's other changes. Positions and sizes are computed by the
//! caller (they are coordinate arithmetic); these functions decide.

use vstd::prelude::*;

use crate::canvas::{node_click_changes, node_select_view, selected_in};
use crate::state::changes::first_index;
use crate::state::lookup::{entry_ids, entry_of, ids_of, lemma_filter_take_step, NodeLookup};
use crate::types::changes::NodeChange;
use crate::types::ids::NodeId;
use crate::types::node::{InternalNode, Node};
use crate::types::position::{Dimensions, Point};

verus! {

/// A per-node flag, or the global `default` when the node has none.
pub open spec fn flag_or(flag: Option<bool>, default: bool) -> bool {
    match flag {
        Some(b) => b,
        None => default,
    }
}

/// Whether the node `id` may be selected: its own setting, else `default`
/// (also for a node that is not present).
pub open spec fn selectable_in<D, S>(s: Seq<InternalNode<D, S>>, id: Seq<char>, default: bool) -> bool {
    match entry_of(s, id) {
        Some(e) => flag_or(e.node.selectable, default),
        None => default,
    }
}

/// Selection changes for a click on node `id`, with `selectable_default`
/// the global setting: none when the node may not be selected, else those
/// of [`node_click_changes`].
pub fn node_click_step<D, S>(
    node_lookup: &NodeLookup<D, S>,
    id: &NodeId,
    shift: bool,
    selectable_default: bool,
) -> (r: Vec<NodeChange<D, S>>)
    ensures
        !selectable_in(node_lookup@, id@, selectable_default) ==> r@.len() == 0,
        selectable_in(node_lookup@, id@, selectable_default) ==> {
            &&& shift ==> r@.len() == 1 && node_select_view(r@[0]) == Some(
                (id@, !selected_in(node_lookup@, id@)),
            )
            &&& !shift ==> r@.len() == node_lookup@.len() && forall|i: int|
                0 <= i < r@.len() ==> node_select_view(#[trigger] r@[i]) == Some(
                    (entry_ids(node_lookup@)[i], entry_ids(node_lookup@)[i] == id@),
                )
        },
{
    let can_select = match node_lookup.get(id) {
        Some(e) => match e.node.selectable {
            Some(b) => b,
            None => selectable_default,
        },
        None => selectable_default,
    };
    if can_select {
        node_click_changes(node_lookup, id, shift)
    } else {
        Vec::new()
    }
}

/// Whether a node shows its handles (and so can start or take a
/// connection): when it is hovered or a connection drag is under way, and
/// it is connectable, with `connectable_default` for a node without its
/// own setting.
pub fn shows_handles<D, S>(
    node: &Node<D, S>,
    hovered: bool,
    connecting: bool,
    connectable_default: bool,
) -> (r: bool)
    ensures
        r == ((hovered || connecting) && flag_or(node.connectable, connectable_default)),
{
    let can_connect = match node.connectable {
        Some(b) => b,
        None => connectable_default,
    };
    (hovered || connecting) && can_connect
}

/// Whether a node may be dragged: its own setting, else `draggable_default`.
pub fn node_draggable<D, S>(node: &Node<D, S>, draggable_default: bool) -> (r: bool)
    ensures
        r == flag_or(node.draggable, draggable_default),
{
    match node.draggable {
        Some(b) => b,
        None => draggable_default,
    }
}

/// An entry that a drag of a selected node carries along: selected and
/// draggable, with `default` for entries without their own setting.
pub open spec fn carried<D, S>(default: bool) -> spec_fn(InternalNode<D, S>) -> bool {
    |e: InternalNode<D, S>| e.node.selected && flag_or(e.node.draggable, default)
}

/// An entry whose node is marked as being dragged.
pub open spec fn is_dragging_entry<D, S>() -> spec_fn(InternalNode<D, S>) -> bool {
    |e: InternalNode<D, S>| e.node.dragging
}

/// The nodes a drag of node `dragged` moves, in lookup order: every
/// selected draggable node when the dragged node is selected, else the
/// dragged node alone; nothing when it is not present.
pub open spec fn drag_targets<D, S>(s: Seq<InternalNode<D, S>>, dragged: Seq<char>, default: bool) -> Seq<
    Seq<char>,
> {
    match entry_of(s, dragged) {
        Some(e) => if e.node.selected {
            entry_ids(s.filter(carried(default)))
        } else {
            seq![dragged]
        },
        None => Seq::empty(),
    }
}

/// The new position given for `id`: the first pair in `moved` that names it.
pub open spec fn moved_to<S>(moved: Seq<(NodeId, Point<S>)>, id: Seq<char>) -> Option<Point<S>> {
    match first_index(moved.map_values(|m: (NodeId, Point<S>)| m.0@), id) {
        Some(k) => Some(moved[k].1),
        None => None,
    }
}

/// `c` moves node `id` to `position` and marks it as dragging or not.
pub open spec fn is_drag_change<D, S>(
    c: NodeChange<D, S>,
    id: Seq<char>,
    position: Option<Point<S>>,
    dragging: bool,
) -> bool {
    c matches NodeChange::Position { id: cid, position: p, dragging: d } && cid@ == id && p
        == position && d == Some(dragging)
}

/// What a drag does this frame.
#[derive(Debug)]
pub struct DragStep<D, S> {
    /// Position changes to apply.
    pub changes: Vec<NodeChange<D, S>>,
    /// Nodes that start dragging this frame.
    pub started: Vec<NodeId>,
    /// Nodes that stop dragging this frame.
    pub stopped: Vec<NodeId>,
}

/// Position of `id` among the pairs of `moved`, if any names it.
fn find_moved<S: Copy>(moved: &[(NodeId, Point<S>)], id: &NodeId) -> (r: Option<Point<S>>)
    ensures
        r == moved_to(moved@, id@),
{
    let ghost keys = moved@.map_values(|m: (NodeId, Point<S>)| m.0@);
    let mut k: usize = 0;
    while k < moved.len()
        invariant
            k <= moved@.len(),
            keys == moved@.map_values(|m: (NodeId, Point<S>)| m.0@),
            forall|j: int| 0 <= j < k ==> keys[j] != id@,
        decreases moved@.len() - k,
    {
        if moved[k].0 == *id {
            proof {
                crate::state::changes::lemma_first_index_is(keys, id@, k as int);
            }
            return Some(moved[k].1);
        }
        k = k + 1;
    }
    proof {
        crate::state::changes::lemma_first_index(keys, id@);
    }
    None
}

/// The frame's node drag. `dragged` is the node under an active drag, if
/// any; `moved` gives the new position of each node it moves; `started`
/// says the drag began this frame, `stopped` that a drag ended.
///
/// Each node of [`drag_targets`] gets a change moving it to its position in
/// `moved` (left in place when `moved` names none) and marking it as
/// dragging; these nodes are reported as starting when `started`. When
/// `stopped`, every node marked as dragging gets a change clearing the mark
/// and is reported as stopping.
pub fn node_drag_step<D, S: Copy>(
    node_lookup: &NodeLookup<D, S>,
    dragged: Option<&NodeId>,
    moved: &[(NodeId, Point<S>)],
    started: bool,
    stopped: bool,
    draggable_default: bool,
) -> (r: DragStep<D, S>)
    ensures
        ({
            let t = match dragged {
                Some(d) => drag_targets(node_lookup@, d@, draggable_default),
                None => Seq::empty(),
            };
            let ds = entry_ids(node_lookup@.filter(is_dragging_entry()));
            &&& r.changes@.len() == t.len() + if stopped {
                ds.len()
            } else {
                0
            }
            &&& forall|i: int|
                0 <= i < t.len() ==> is_drag_change(
                    #[trigger] r.changes@[i],
                    t[i],
                    moved_to(moved@, t[i]),
                    true,
                )
            &&& stopped ==> forall|j: int|
                0 <= j < ds.len() ==> is_drag_change(
                    #[trigger] r.changes@[t.len() + j],
                    ds[j],
                    None,
                    false,
                )
            &&& ids_of(r.started@) == if started {
                t
            } else {
                Seq::empty()
            }
            &&& ids_of(r.stopped@) == if stopped {
                ds
            } else {
                Seq::empty()
            }
        }),
{
    let ghost s = node_lookup@;
    let mut targets: Vec<NodeId> = Vec::new();
    if let Some(d) = dragged {
        match node_lookup.get(d) {
            Some(e) => {
                if e.node.selected {
                    let mut i: usize = 0;
                    while i < node_lookup.len()
                        invariant
                            s == node_lookup@,
                            i <= s.len(),
                            ids_of(targets@) == entry_ids(
                                s.take(i as int).filter(carried(draggable_default)),
                            ),
                        decreases s.len() - i,
                    {
                        let x = node_lookup.entry(i);
                        proof {
                            lemma_filter_take_step(s, carried(draggable_default), i as int);
                        }
                        let can_drag = match x.node.draggable {
                            Some(b) => b,
                            None => draggable_default,
                        };
                        if x.node.selected && can_drag {
                            targets.push(x.node.id.clone());
                            proof {
                                let prev = s.take(i as int).filter(carried(draggable_default));
                                assert(entry_ids(prev.push(s[i as int])) =~= entry_ids(prev).push(
                                    s[i as int].node.id@,
                                ));
                                assert(ids_of(targets@) =~= entry_ids(
                                    s.take(i + 1).filter(carried(draggable_default)),
                                ));
                            }
                        }
                        i = i + 1;
                    }
                    proof {
                        assert(s.take(i as int) =~= s);
                    }
                } else {
                    targets.push(d.clone());
                    proof {
                        assert(ids_of(targets@) =~= seq![d@]);
                    }
                }
            },
            None => {
                proof {
                    assert(ids_of(targets@) =~= Seq::<Seq<char>>::empty());
                }
            },
        }
    } else {
        proof {
            assert(ids_of(targets@) =~= Seq::<Seq<char>>::empty());
        }
    }
    let ghost t = ids_of(targets@);
    let mut changes: Vec<NodeChange<D, S>> = Vec::new();
    let mut k: usize = 0;
    while k < targets.len()
        invariant
            k <= targets@.len(),
            t == ids_of(targets@),
            changes@.len() == k,
            forall|i: int|
                0 <= i < k ==> is_drag_change(
                    #[trigger] changes@[i],
                    t[i],
                    moved_to(moved@, t[i]),
                    true,
                ),
        decreases targets@.len() - k,
    {
        let p = find_moved(moved, &targets[k]);
        changes.push(NodeChange::Position { id: targets[k].clone(), position: p, dragging: Some(true) });
        k = k + 1;
    }
    let mut stopping: Vec<NodeId> = Vec::new();
    if stopped {
        let mut i: usize = 0;
        while i < node_lookup.len()
            invariant
                s == node_lookup@,
                i <= s.len(),
                t == ids_of(targets@),
                ids_of(stopping@) == entry_ids(s.take(i as int).filter(is_dragging_entry())),
                changes@.len() == t.len() + stopping@.len(),
                forall|j: int|
                    0 <= j < t.len() ==> is_drag_change(
                        #[trigger] changes@[j],
                        t[j],
                        moved_to(moved@, t[j]),
                        true,
                    ),
                forall|j: int|
                    0 <= j < stopping@.len() ==> is_drag_change(
                        #[trigger] changes@[t.len() + j],
                        ids_of(stopping@)[j],
                        None,
                        false,
                    ),
            decreases s.len() - i,
        {
            let x = node_lookup.entry(i);
            proof {
                lemma_filter_take_step(s, is_dragging_entry(), i as int);
            }
            if x.node.dragging {
                let ghost before = changes@;
                changes.push(NodeChange::Position { id: x.node.id.clone(), position: None, dragging: Some(false) });
                stopping.push(x.node.id.clone());
                proof {
                    let prev = s.take(i as int).filter(is_dragging_entry());
                    assert(entry_ids(prev.push(s[i as int])) =~= entry_ids(prev).push(
                        s[i as int].node.id@,
                    ));
                    assert(ids_of(stopping@) =~= entry_ids(s.take(i + 1).filter(is_dragging_entry())));
                    assert forall|j: int| 0 <= j < t.len() implies is_drag_change(
                        #[trigger] changes@[j],
                        t[j],
                        moved_to(moved@, t[j]),
                        true,
                    ) by {
                        assert(changes@[j] == before[j]);
                    }
                    assert forall|j: int| 0 <= j < stopping@.len() implies is_drag_change(
                        #[trigger] changes@[t.len() + j],
                        ids_of(stopping@)[j],
                        None,
                        false,
                    ) by {
                        if j < stopping@.len() - 1 {
                            assert(changes@[t.len() + j] == before[t.len() + j]);
                            assert(ids_of(stopping@)[j] == stopping@[j]@);
                        }
                    }
                }
            }
            i = i + 1;
        }
        proof {
            assert(s.take(i as int) =~= s);
        }
    } else {
        proof {
            assert(ids_of(stopping@) =~= Seq::<Seq<char>>::empty());
        }
    }
    let started_ids = if started {
        targets
    } else {
        let v: Vec<NodeId> = Vec::new();
        proof {
            assert(ids_of(v@) =~= Seq::<Seq<char>>::empty());
        }
        v
    };
    DragStep { changes, started: started_ids, stopped: stopping }
}

/// The node that shows resize handles: the selected node, when exactly one
/// node is selected.
pub open spec fn resize_node_spec<D, S>(s: Seq<InternalNode<D, S>>) -> Option<Seq<char>> {
    let sel = entry_ids(s.filter(|e: InternalNode<D, S>| e.node.selected));
    if sel.len() == 1 {
        Some(sel[0])
    } else {
        None
    }
}

/// The node that shows resize handles, if any (see [`resize_node_spec`]).
pub fn resize_handle_node<D, S>(node_lookup: &NodeLookup<D, S>) -> (r: Option<NodeId>)
    ensures
        match r {
            Some(id) => resize_node_spec(node_lookup@) == Some(id@),
            None => resize_node_spec(node_lookup@) is None,
        },
{
    let sel = crate::state::lookup::selected_node_ids(node_lookup);
    proof {
        let p = |e: InternalNode<D, S>| e.node.selected;
        assert(crate::state::lookup::is_selected_entry::<D, S>() == p);
    }
    if sel.len() == 1 {
        Some(sel[0].clone())
    } else {
        None
    }
}

/// Whether `c` moves node `id`.
pub open spec fn moves_node<D, S>(c: NodeChange<D, S>, id: Seq<char>) -> bool {
    c matches NodeChange::Position { id: cid, .. } && cid@ == id
}

/// The frame's changes once a resize of node `id` is taken into account:
/// while the resize is `active` it takes priority, so the frame's changes
/// that move that node are dropped; then the resize's own changes follow.
pub fn resize_step<D, S>(
    changes: Vec<NodeChange<D, S>>,
    id: &NodeId,
    active: bool,
    resize_changes: Vec<NodeChange<D, S>>,
) -> (r: Vec<NodeChange<D, S>>)
    ensures
        active ==> r@ == changes@.filter(|c: NodeChange<D, S>| !moves_node(c, id@)) + resize_changes@,
        !active ==> r@ == changes@ + resize_changes@,
{
    let ghost p = |c: NodeChange<D, S>| !moves_node(c, id@);
    let mut r: Vec<NodeChange<D, S>> = Vec::new();
    let mut changes = changes;
    let ghost orig = changes@;
    let mut i: usize = 0;
    let n = changes.len();
    proof {
        assert(orig.take(0) =~= Seq::<NodeChange<D, S>>::empty());
    }
    while changes.len() > 0
        invariant
            changes@.len() + i == n,
            n == orig.len(),
            i <= n,
            changes@ == orig.skip(i as int),
            p == (|c: NodeChange<D, S>| !moves_node(c, id@)),
            active ==> r@ == orig.take(i as int).filter(p),
            !active ==> r@ == orig.take(i as int),
        decreases changes@.len(),
    {
        let c = changes.remove(0);
        proof {
            assert(c == orig[i as int]);
            lemma_filter_take_step(orig, p, i as int);
            assert(orig.take(i + 1) =~= orig.take(i as int).push(c));
            assert(orig.skip(i + 1) =~= changes@);
        }
        let keep = if active {
            match &c {
                NodeChange::Position { id: cid, .. } => !(*cid == *id),
                _ => true,
            }
        } else {
            true
        };
        if keep {
            r.push(c);
        }
        i = i + 1;
    }
    proof {
        assert(orig.take(i as int) =~= orig);
    }
    let mut resize_changes = resize_changes;
    r.append(&mut resize_changes);
    r
}

} // verus!
