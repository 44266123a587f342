//! The node list and its lookup kept together: rebuilding the lookup, and
//! applying node changes to both, the way the graph state does it. The
//! handle geometry of a node is computed by the caller (`bounds_of`), and
//! the absolute positions of children are left to the caller to offset by
//! the returned parent positions.

use vstd::prelude::*;

use crate::state::changes::{
    apply_node_changes, apply_node_changes_spec, brings_node, brought_nodes, has_structural_node_change,
    is_structural_node_change, node_ids, nodes_match,
};
use crate::state::changes::{first_index, lemma_first_index};
use crate::state::lookup::{
    build_entries, entries_match, entry_ids, entry_of, ids_of, lemma_from_nodes_in_sync,
    lemma_incremental_keeps_sync, lemma_internals_keep_sync, lemma_offsets_after_resolve,
    lemma_resolve_parents_keeps_sync,
    lookup_changes_spec, lookup_in_sync, moves_present_node, parent_offsets_spec, parents_below_max_z,
    resized_ids, resolve_parents_spec, same_nodes, NodeLookup, ParentOffset,
};
use crate::state::lookup::{sorted_by_z, z_sorted};
use crate::types::changes::NodeChange;
use crate::types::ids::NodeId;
use crate::types::node::{InternalNode, Node, NodeHandleBounds, NodeInternals};
use crate::types::position::Point;

verus! {

/// The parent offsets as (child id, parent position) pairs.
pub open spec fn offsets_view<S>(o: Seq<ParentOffset<S>>) -> Seq<(Seq<char>, Point<S>)> {
    o.map_values(|x: ParentOffset<S>| (x.child@, x.parent_position))
}

/// `s` is `s0` with parents resolved for `nodes` and `o` the offsets that
/// resolution reports; or, when some parent sits at z-order `i32::MAX`,
/// `s` is `s0` unresolved and `o` is `None`.
pub open spec fn resolved_as<D, S>(
    s0: Seq<InternalNode<D, S>>,
    nodes: Seq<Node<D, S>>,
    s: Seq<InternalNode<D, S>>,
    o: Option<Vec<ParentOffset<S>>>,
) -> bool {
    match o {
        Some(o) => parents_below_max_z(s0, nodes) && s == resolve_parents_spec(s0, nodes)
            && offsets_view(o@) == parent_offsets_spec(s0, nodes),
        None => !parents_below_max_z(s0, nodes) && s == s0,
    }
}

/// `bs` holds what `bounds_of` gave for each of `nodes`, in order.
pub open spec fn bounds_given<D, S, F: Fn(&Node<D, S>) -> NodeHandleBounds<S>>(
    bounds_of: F,
    nodes: Seq<Node<D, S>>,
    bs: Seq<NodeHandleBounds<S>>,
) -> bool {
    &&& bs.len() == nodes.len()
    &&& forall|i: int| 0 <= i < nodes.len() ==> #[trigger] bounds_of.ensures((&nodes[i],), bs[i])
}

/// `s` is the lookup rebuilt for `nodes` with handle geometry from
/// `bounds_of`, and `o` the offsets of resolving its parents (see
/// [`resolved_as`]).
pub open spec fn rebuilt_as<D: Clone, S, F: Fn(&Node<D, S>) -> NodeHandleBounds<S>>(
    bounds_of: F,
    nodes: Seq<Node<D, S>>,
    s: Seq<InternalNode<D, S>>,
    o: Option<Vec<ParentOffset<S>>>,
) -> bool {
    exists|bs: Seq<NodeHandleBounds<S>>, s0: Seq<InternalNode<D, S>>|
        #![trigger entries_match(build_entries(nodes, bs), s0)]
        bounds_given(bounds_of, nodes, bs) && entries_match(build_entries(nodes, bs), s0)
            && resolved_as(s0, nodes, s, o)
}

/// Resolve parents when that cannot overflow: the parent offsets, or `None`
/// (the lookup untouched) when some parent is at z-order `i32::MAX`.
fn resolve_if_safe<D: Clone, S: Copy>(lookup: &mut NodeLookup<D, S>, nodes: &Vec<Node<D, S>>) -> (r: Option<
    Vec<ParentOffset<S>>,
>)
    ensures
        resolved_as(old(lookup)@, nodes@, final(lookup)@, r),
        lookup_in_sync(nodes@, old(lookup)@) ==> lookup_in_sync(nodes@, final(lookup)@),
{
    if lookup.can_resolve_parents(nodes) {
        let ghost s = lookup@;
        let offsets = lookup.resolve_parents(nodes);
        proof {
            if lookup_in_sync(nodes@, s) {
                lemma_resolve_parents_keeps_sync(nodes@, s);
            }
        }
        assert(offsets_view(offsets@) == parent_offsets_spec(s, nodes@));
        Some(offsets)
    } else {
        None
    }
}

/// The lookup for `nodes`, built afresh with each node's handle geometry
/// from `bounds_of`, its parents resolved. In sync with `nodes` when their
/// ids are distinct. The parent offsets come back for the caller to
/// position children; `None` when a parent sits at z-order `i32::MAX`, so
/// that its children cannot be raised above it (parents are then left
/// unresolved).
pub fn rebuild_lookup<D: Clone, S: Copy, F: Fn(&Node<D, S>) -> NodeHandleBounds<S>>(
    nodes: &Vec<Node<D, S>>,
    bounds_of: &F,
) -> (r: (NodeLookup<D, S>, Option<Vec<ParentOffset<S>>>))
    requires
        forall|n: Node<D, S>| #[trigger] bounds_of.requires((&n,)),
    ensures
        rebuilt_as(*bounds_of, nodes@, r.0@, r.1),
        node_ids(nodes@).no_duplicates() ==> lookup_in_sync(nodes@, r.0@),
        r.1 matches Some(o) ==> offsets_view(o@) == parent_offsets_spec(r.0@, nodes@),
{
    let mut bounds: Vec<NodeHandleBounds<S>> = Vec::new();
    let mut i: usize = 0;
    while i < nodes.len()
        invariant
            i <= nodes@.len(),
            bounds@.len() == i,
            forall|n: Node<D, S>| #[trigger] bounds_of.requires((&n,)),
            forall|j: int| 0 <= j < i ==> #[trigger] bounds_of.ensures((&nodes@[j],), bounds@[j]),
        decreases nodes@.len() - i,
    {
        let b = bounds_of(&nodes[i]);
        bounds.push(b);
        i = i + 1;
    }
    let ghost bs = bounds@;
    let mut lookup = NodeLookup::from_nodes(nodes, bounds);
    proof {
        if node_ids(nodes@).no_duplicates() {
            lemma_from_nodes_in_sync(nodes@, bs, lookup@);
        }
    }
    let ghost s0 = lookup@;
    let offsets = resolve_if_safe(&mut lookup, nodes);
    proof {
        assert(bounds_given(*bounds_of, nodes@, bs));
        assert(entries_match(build_entries(nodes@, bs), s0));
        if offsets is Some {
            lemma_resolved_offsets_current(s0, nodes@, lookup@, offsets->0);
        }
    }
    (lookup, offsets)
}

/// `s` with the handle geometry of node `id` set to `b`, when it is present.
pub open spec fn set_bounds_spec<D, S>(
    s: Seq<InternalNode<D, S>>,
    id: Seq<char>,
    b: NodeHandleBounds<S>,
) -> Seq<InternalNode<D, S>> {
    match first_index(entry_ids(s), id) {
        Some(i) => s.update(
            i,
            InternalNode { internals: NodeInternals { handle_bounds: b, ..s[i].internals }, ..s[i] },
        ),
        None => s,
    }
}

/// `s` after setting, in turn, the handle geometry of node `ids[k]` to
/// `bs[k]`.
pub open spec fn with_bounds<D, S>(
    s: Seq<InternalNode<D, S>>,
    ids: Seq<Seq<char>>,
    bs: Seq<NodeHandleBounds<S>>,
) -> Seq<InternalNode<D, S>>
    decreases ids.len(),
{
    if ids.len() == 0 {
        s
    } else {
        set_bounds_spec(with_bounds(s, ids.drop_last(), bs.take(ids.len() - 1)), ids.last(), bs[ids.len() - 1])
    }
}

/// `bs[k]` is what `bounds_of` gave for the node of `s` that `ids[k]`
/// names, when there is one.
pub open spec fn bounds_for_ids<D, S, F: Fn(&Node<D, S>) -> NodeHandleBounds<S>>(
    bounds_of: F,
    s: Seq<InternalNode<D, S>>,
    ids: Seq<Seq<char>>,
    bs: Seq<NodeHandleBounds<S>>,
) -> bool {
    &&& bs.len() == ids.len()
    &&& forall|k: int|
        0 <= k < ids.len() ==> (entry_of(s, #[trigger] ids[k]) matches Some(e) ==> bounds_of.ensures(
            (&e.node,),
            bs[k],
        ))
}

/// `s` and `o` are what the in-place path makes of the lookup `s0` for the
/// changes and the new node list: the changes applied in place, the
/// handle geometry of each resized node given anew by `bounds_of`, then,
/// when some change moved a node present, parents resolved again (see
/// [`resolved_as`]); with no move, no offsets.
pub open spec fn updated_in_place_as<D, S, F: Fn(&Node<D, S>) -> NodeHandleBounds<S>>(
    bounds_of: F,
    changes: Seq<NodeChange<D, S>>,
    s0: Seq<InternalNode<D, S>>,
    nodes: Seq<Node<D, S>>,
    s: Seq<InternalNode<D, S>>,
    o: Option<Vec<ParentOffset<S>>>,
) -> bool {
    let s1 = lookup_changes_spec(changes, s0);
    let ids = resized_ids(changes, s0);
    exists|bs: Seq<NodeHandleBounds<S>>|
        #![trigger with_bounds(s1, ids, bs)]
        bounds_for_ids(bounds_of, s1, ids, bs) && if exists|k: int|
            0 <= k < changes.len() && moves_present_node(s0, #[trigger] changes[k]) {
            resolved_as(with_bounds(s1, ids, bs), nodes, s, o)
        } else {
            s == with_bounds(s1, ids, bs) && (o matches Some(v) && v@.len() == 0)
        }
}

/// Whatever lookup parent resolution started from, the offsets it reports
/// are those of the lookup it leaves: each child whose parent is present,
/// with the parent's current absolute position.
pub proof fn lemma_resolved_offsets_current<D, S>(
    s0: Seq<InternalNode<D, S>>,
    nodes: Seq<Node<D, S>>,
    s: Seq<InternalNode<D, S>>,
    o: Vec<ParentOffset<S>>,
)
    requires
        resolved_as(s0, nodes, s, Some(o)),
    ensures
        offsets_view(o@) == parent_offsets_spec(s, nodes),
{
    lemma_offsets_after_resolve(s0, nodes);
}

/// A rebuilt lookup comes with the offsets of its own parents: each child
/// whose parent is present, with the parent's absolute position in it.
pub proof fn lemma_rebuild_reports_offsets<D: Clone, S, F: Fn(&Node<D, S>) -> NodeHandleBounds<S>>(
    bounds_of: F,
    nodes: Seq<Node<D, S>>,
    s: Seq<InternalNode<D, S>>,
    o: Vec<ParentOffset<S>>,
)
    requires
        rebuilt_as(bounds_of, nodes, s, Some(o)),
    ensures
        offsets_view(o@) == parent_offsets_spec(s, nodes),
{
    let (bs, s0) = choose|bs: Seq<NodeHandleBounds<S>>, s0: Seq<InternalNode<D, S>>|
        bounds_given(bounds_of, nodes, bs) && entries_match(build_entries(nodes, bs), s0)
            && resolved_as(s0, nodes, s, Some(o));
    lemma_resolved_offsets_current(s0, nodes, s, o);
}

/// When the changes move a node that is present, the in-place path
/// re-resolves parents: the offsets it reports are those of the updated
/// lookup, so every child whose parent is present follows that parent's
/// current absolute position (children of a moved parent move with it, a
/// moved child is placed relative to its parent).
pub proof fn lemma_move_reports_offsets<D, S, F: Fn(&Node<D, S>) -> NodeHandleBounds<S>>(
    bounds_of: F,
    changes: Seq<NodeChange<D, S>>,
    s0: Seq<InternalNode<D, S>>,
    nodes: Seq<Node<D, S>>,
    s: Seq<InternalNode<D, S>>,
    o: Vec<ParentOffset<S>>,
)
    requires
        updated_in_place_as(bounds_of, changes, s0, nodes, s, Some(o)),
        exists|k: int| 0 <= k < changes.len() && moves_present_node(s0, #[trigger] changes[k]),
    ensures
        offsets_view(o@) == parent_offsets_spec(s, nodes),
{
    let s1 = lookup_changes_spec(changes, s0);
    let ids = resized_ids(changes, s0);
    let bs = choose|bs: Seq<NodeHandleBounds<S>>|
        bounds_for_ids(bounds_of, s1, ids, bs) && if exists|k: int|
            0 <= k < changes.len() && moves_present_node(s0, #[trigger] changes[k]) {
            resolved_as(with_bounds(s1, ids, bs), nodes, s, Some(o))
        } else {
            s == with_bounds(s1, ids, bs) && (Some(o) matches Some(v) && v@.len() == 0)
        };
    lemma_resolved_offsets_current(with_bounds(s1, ids, bs), nodes, s, o);
}

/// What applying node changes did to the lookup.
#[derive(Debug)]
pub struct GraphUpdate<S> {
    /// Some change added, removed or replaced a node, so the lookup was
    /// rebuilt.
    pub structural: bool,
    /// The parent offsets to position children by (empty when no parent
    /// resolution was needed); `None` when a parent sits at z-order
    /// `i32::MAX`, so that its children cannot be raised above it.
    pub offsets: Option<Vec<ParentOffset<S>>>,
}

/// Apply node changes to the node list (as [`apply_node_changes`] does)
/// and bring the lookup up to date: after a structural change it is
/// rebuilt from the new list; otherwise the changes are applied to it in
/// place, the handle geometry of resized nodes is rebuilt with `bounds_of`,
/// and parents are resolved again when a node moved.
///
/// Whichever way, the lookup ends in sync with the new node list whenever
/// the new list's ids are distinct and either the lookup was rebuilt or it
/// was in sync with the old list. The drawing order held in `z_order` is
/// dropped after a structural change and reused otherwise.
pub fn apply_graph_node_changes<D: Clone, S: Copy, F: Fn(&Node<D, S>) -> NodeHandleBounds<S>>(
    nodes: &mut Vec<Node<D, S>>,
    lookup: &mut NodeLookup<D, S>,
    changes: &[NodeChange<D, S>],
    bounds_of: &F,
    z_order: &mut ZOrderCache,
) -> (r: GraphUpdate<S>)
    requires
        forall|n: Node<D, S>| #[trigger] bounds_of.requires((&n,)),
    ensures
        r.structural == exists|k: int|
            0 <= k < changes@.len() && is_structural_node_change(#[trigger] changes@[k]),
        nodes_match(apply_node_changes_spec(changes@, old(nodes)@), final(nodes)@),
        forall|i: int|
            0 <= i < final(nodes)@.len() && !(#[trigger] brought_nodes(changes@, old(nodes)@)[i])
                ==> final(nodes)@[i] == apply_node_changes_spec(changes@, old(nodes)@)[i],
        node_ids(final(nodes)@).no_duplicates() && (r.structural || lookup_in_sync(
            old(nodes)@,
            old(lookup)@,
        )) ==> lookup_in_sync(final(nodes)@, final(lookup)@),
        r.offsets is None ==> !parents_below_max_z(final(lookup)@, final(nodes)@),
        r.structural ==> rebuilt_as(*bounds_of, final(nodes)@, final(lookup)@, r.offsets),
        r.structural ==> final(z_order).cached() is None,
        !r.structural ==> final(z_order).cached() == old(z_order).cached(),
        (r.structural || exists|k: int|
            0 <= k < changes@.len() && moves_present_node(old(lookup)@, #[trigger] changes@[k]))
            ==> (r.offsets matches Some(o) ==> offsets_view(o@) == parent_offsets_spec(
            final(lookup)@,
            final(nodes)@,
        )),
        !r.structural && !(exists|k: int|
            0 <= k < changes@.len() && moves_present_node(old(lookup)@, #[trigger] changes@[k]))
            ==> (r.offsets matches Some(o) && o@.len() == 0),
        !r.structural ==> updated_in_place_as(
            *bounds_of,
            changes@,
            old(lookup)@,
            final(nodes)@,
            final(lookup)@,
            r.offsets,
        ),
{
    let structural = has_structural_node_change(changes);
    let ghost n0 = nodes@;
    let ghost s0 = lookup@;
    apply_node_changes(changes, nodes);
    if structural {
        let (fresh, offsets) = rebuild_lookup(nodes, bounds_of);
        *lookup = fresh;
        z_order.invalidate();
        GraphUpdate { structural, offsets }
    } else {
        proof {
            assert forall|k: int| 0 <= k < changes@.len() implies !brings_node(#[trigger] changes@[k])
                && !is_structural_node_change(changes@[k]) by {}
        }
        let update = lookup.apply_incremental_updates(changes);
        let ghost sync = node_ids(nodes@).no_duplicates() && lookup_in_sync(n0, s0);
        proof {
            if sync {
                lemma_incremental_keeps_sync(changes@, n0, s0);
            }
        }
        let ghost s1 = lookup@;
        let ghost ids = ids_of(update.resized@);
        let ghost mut bs: Seq<NodeHandleBounds<S>> = Seq::empty();
        proof {
            assert(ids.take(0) =~= Seq::<Seq<char>>::empty());
        }
        let mut k: usize = 0;
        while k < update.resized.len()
            invariant
                k <= update.resized@.len(),
                ids == ids_of(update.resized@),
                forall|n: Node<D, S>| #[trigger] bounds_of.requires((&n,)),
                sync ==> lookup_in_sync(nodes@, lookup@),
                same_nodes(s1, lookup@),
                bs.len() == k,
                lookup@ == with_bounds(s1, ids.take(k as int), bs),
                bounds_for_ids(*bounds_of, s1, ids.take(k as int), bs),
            decreases update.resized@.len() - k,
        {
            let id = &update.resized[k];
            proof {
                assert(entry_ids(lookup@) =~= entry_ids(s1));
                lemma_first_index(entry_ids(s1), id@);
                assert(ids[k as int] == id@);
                assert(ids.take(k + 1).drop_last() =~= ids.take(k as int));
                assert(ids.take(k + 1).last() == id@);
            }
            let b = match lookup.get(id) {
                Some(e) => Some(bounds_of(&e.node)),
                None => None,
            };
            let ghost bk = if b is Some {
                b->0
            } else {
                vstd::pervasive::arbitrary::<NodeHandleBounds<S>>()
            };
            let ghost before = lookup@;
            if let Some(b) = b {
                lookup.set_handle_bounds(id, b);
                proof {
                    if sync {
                        lemma_internals_keep_sync(nodes@, before, lookup@);
                    }
                }
            }
            proof {
                let bs2 = bs.push(bk);
                assert(bs2.take(k as int) =~= bs);
                assert(bs2[k as int] == bk);
                assert forall|j: int| 0 <= j < k + 1 implies (entry_of(
                    s1,
                    #[trigger] ids.take(k + 1)[j],
                ) matches Some(e) ==> bounds_of.ensures((&e.node,), bs2[j])) by {
                    if j < k {
                        assert(ids.take(k + 1)[j] == ids.take(k as int)[j]);
                    }
                }
                bs = bs2;
            }
            k = k + 1;
        }
        proof {
            assert(ids.take(k as int) =~= ids);
        }
        let ghost before = lookup@;
        let offsets = if update.needs_parent_update {
            resolve_if_safe(lookup, nodes)
        } else {
            Some(Vec::new())
        };
        proof {
            if update.needs_parent_update {
                if offsets is Some {
                    lemma_resolved_offsets_current(before, nodes@, lookup@, offsets->0);
                }
            }
        }
        GraphUpdate { structural, offsets }
    }
}

/// The lookup's ids in drawing order (by z-order, see [`z_sorted`]),
/// computed once and reused until invalidated.
#[derive(Debug)]
pub struct ZOrderCache {
    ids: Option<Vec<NodeId>>,
}

impl ZOrderCache {
    /// The ids held, if any.
    pub closed spec fn cached(&self) -> Option<Seq<Seq<char>>> {
        match self.ids {
            Some(v) => Some(ids_of(v@)),
            None => None,
        }
    }

    /// An empty cache.
    pub fn new() -> (r: Self)
        ensures
            r.cached() is None,
    {
        ZOrderCache { ids: None }
    }

    /// Forget the held order.
    pub fn invalidate(&mut self)
        ensures
            final(self).cached() is None,
    {
        self.ids = None;
    }

    /// The ids in drawing order: the held order when there is one, else a
    /// fresh z-sort of `lookup`, which is then held.
    pub fn sorted_ids<D, S>(&mut self, lookup: &NodeLookup<D, S>) -> (r: Vec<NodeId>)
        ensures
            match old(self).cached() {
                Some(c) => ids_of(r@) == c,
                None => z_sorted(lookup@, ids_of(r@)),
            },
            final(self).cached() == Some(ids_of(r@)),
    {
        match &self.ids {
            Some(v) => clone_ids(v),
            None => {
                let v = sorted_by_z(lookup);
                let r = clone_ids(&v);
                self.ids = Some(v);
                r
            },
        }
    }
}

/// A copy of a list of ids.
fn clone_ids(v: &Vec<NodeId>) -> (r: Vec<NodeId>)
    ensures
        ids_of(r@) == ids_of(v@),
{
    let mut r: Vec<NodeId> = Vec::new();
    let mut i: usize = 0;
    while i < v.len()
        invariant
            i <= v@.len(),
            ids_of(r@) == ids_of(v@.take(i as int)),
        decreases v@.len() - i,
    {
        r.push(v[i].clone());
        proof {
            assert(v@.take(i + 1) =~= v@.take(i as int).push(v@[i as int]));
            assert(ids_of(v@.take(i + 1)) =~= ids_of(v@.take(i as int)).push(v@[i as int]@));
            assert(ids_of(r@) =~= ids_of(v@.take(i as int)).push(v@[i as int]@));
        }
        i = i + 1;
    }
    proof {
        assert(v@.take(i as int) =~= v@);
    }
    r
}

} // verus!
