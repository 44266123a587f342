//! Applying lists of [`NodeChange`] and [`EdgeChange`] to node and edge lists.

use vstd::prelude::*;

use crate::types::changes::{EdgeChange, NodeChange};
use crate::types::edge::{edge_clone_of, Edge, EdgeAnchor};
use crate::types::ids::{EdgeId, NodeId};
use crate::types::node::{node_clone_of, Node};

verus! {

// ───────────────────────────── lookup by id ─────────────────────────────

/// `i` is the first position of `id` in `ids`.
pub open spec fn is_first_index(ids: Seq<Seq<char>>, id: Seq<char>, i: int) -> bool {
    &&& 0 <= i < ids.len()
    &&& ids[i] == id
    &&& forall|j: int| 0 <= j < i ==> ids[j] != id
}

/// The first position of `id` in `ids`, if it occurs.
pub open spec fn first_index(ids: Seq<Seq<char>>, id: Seq<char>) -> Option<int> {
    if exists|i: int| 0 <= i < ids.len() && ids[i] == id {
        Some(choose|i: int| is_first_index(ids, id, i))
    } else {
        None
    }
}

proof fn lemma_first_index_exists(ids: Seq<Seq<char>>, id: Seq<char>, j: int)
    requires
        0 <= j < ids.len(),
        ids[j] == id,
    ensures
        exists|i: int| is_first_index(ids, id, i),
    decreases j,
{
    if exists|k: int| 0 <= k < j && ids[k] == id {
        let k = choose|k: int| 0 <= k < j && ids[k] == id;
        lemma_first_index_exists(ids, id, k);
    } else {
        assert(is_first_index(ids, id, j));
    }
}

/// What `first_index` means: the first occurrence, or no occurrence at all.
pub proof fn lemma_first_index(ids: Seq<Seq<char>>, id: Seq<char>)
    ensures
        match first_index(ids, id) {
            Some(i) => is_first_index(ids, id, i),
            None => forall|j: int| 0 <= j < ids.len() ==> ids[j] != id,
        },
{
    if exists|i: int| 0 <= i < ids.len() && ids[i] == id {
        let j = choose|i: int| 0 <= i < ids.len() && ids[i] == id;
        lemma_first_index_exists(ids, id, j);
    }
}

/// A first position is the one `first_index` picks.
pub proof fn lemma_first_index_is(ids: Seq<Seq<char>>, id: Seq<char>, i: int)
    requires
        is_first_index(ids, id, i),
    ensures
        first_index(ids, id) == Some(i),
{
    let c = choose|k: int| is_first_index(ids, id, k);
    assert(is_first_index(ids, id, c));
    if c < i {
        assert(ids[c] != id);
    }
    if i < c {
        assert(ids[i] != id);
    }
}

/// The ids of a node list, in order.
pub open spec fn node_ids<D, S>(nodes: Seq<Node<D, S>>) -> Seq<Seq<char>> {
    nodes.map_values(|n: Node<D, S>| n.id@)
}

/// The ids of an edge list, in order.
pub open spec fn edge_ids<D, S>(edges: Seq<Edge<D, S>>) -> Seq<Seq<char>> {
    edges.map_values(|e: Edge<D, S>| e.id@)
}

/// Position of the first node whose id is `id`.
pub fn find_node_index<D, S>(nodes: &Vec<Node<D, S>>, id: &NodeId) -> (r: Option<usize>)
    ensures
        match r {
            Some(i) => first_index(node_ids(nodes@), id@) == Some(i as int) && i < nodes@.len(),
            None => first_index(node_ids(nodes@), id@) is None,
        },
{
    let ghost ids = node_ids(nodes@);
    let mut i: usize = 0;
    while i < nodes.len()
        invariant
            i <= nodes@.len(),
            ids == node_ids(nodes@),
            forall|j: int| 0 <= j < i ==> ids[j] != id@,
        decreases nodes.len() - i,
    {
        if nodes[i].id == *id {
            proof {
                lemma_first_index_is(ids, id@, i as int);
            }
            return Some(i);
        }
        i = i + 1;
    }
    None
}

/// Position of the first edge whose id is `id`.
pub fn find_edge_index<D, S>(edges: &Vec<Edge<D, S>>, id: &EdgeId) -> (r: Option<usize>)
    ensures
        match r {
            Some(i) => first_index(edge_ids(edges@), id@) == Some(i as int) && i < edges@.len(),
            None => first_index(edge_ids(edges@), id@) is None,
        },
{
    let ghost ids = edge_ids(edges@);
    let mut i: usize = 0;
    while i < edges.len()
        invariant
            i <= edges@.len(),
            ids == edge_ids(edges@),
            forall|j: int| 0 <= j < i ==> ids[j] != id@,
        decreases edges.len() - i,
    {
        if edges[i].id == *id {
            proof {
                lemma_first_index_is(ids, id@, i as int);
            }
            return Some(i);
        }
        i = i + 1;
    }
    None
}

// ───────────────────────────── node changes ─────────────────────────────

/// Nodes whose id is not `id`.
pub open spec fn node_id_differs<D, S>(id: Seq<char>) -> spec_fn(Node<D, S>) -> bool {
    |n: Node<D, S>| n.id@ != id
}

/// The node list with every node whose id is `id` taken out.
pub open spec fn without_node<D, S>(nodes: Seq<Node<D, S>>, id: Seq<char>) -> Seq<Node<D, S>> {
    nodes.filter(node_id_differs(id))
}

/// The index at which `Add { index }` inserts into a list of length `len`:
/// the requested index clamped to the end, or the end when none is given.
pub open spec fn insert_index(index: Option<usize>, len: int) -> int {
    match index {
        Some(i) => if i < len { i as int } else { len },
        None => len,
    }
}

/// What one node change does to the node list. Changes that name an id
/// act on the first node with that id (and do nothing when there is none),
/// except `Remove`, which removes every node with that id.
pub open spec fn node_change_step<D, S>(nodes: Seq<Node<D, S>>, c: NodeChange<D, S>) -> Seq<
    Node<D, S>,
> {
    match c {
        NodeChange::Position { id, position, dragging } => match first_index(
            node_ids(nodes),
            id@,
        ) {
            Some(i) => nodes.update(
                i,
                Node {
                    position: match position {
                        Some(p) => p,
                        None => nodes[i].position,
                    },
                    dragging: match dragging {
                        Some(d) => d,
                        None => nodes[i].dragging,
                    },
                    ..nodes[i]
                },
            ),
            None => nodes,
        },
        NodeChange::Dimensions { id, dimensions } => match first_index(node_ids(nodes), id@) {
            Some(i) => nodes.update(
                i,
                Node {
                    measured: dimensions,
                    width: match dimensions {
                        Some(d) => Some(d.width),
                        None => nodes[i].width,
                    },
                    height: match dimensions {
                        Some(d) => Some(d.height),
                        None => nodes[i].height,
                    },
                    ..nodes[i]
                },
            ),
            None => nodes,
        },
        NodeChange::Select { id, selected } => match first_index(node_ids(nodes), id@) {
            Some(i) => nodes.update(i, Node { selected, ..nodes[i] }),
            None => nodes,
        },
        NodeChange::Remove { id } => without_node(nodes, id@),
        NodeChange::Add { node, index } => nodes.insert(insert_index(index, nodes.len() as int), node),
        NodeChange::Replace { id, node } => match first_index(node_ids(nodes), id@) {
            Some(i) => nodes.update(i, node),
            None => nodes,
        },
    }
}

/// The node list after applying `changes` in order.
pub open spec fn apply_node_changes_spec<D, S>(
    changes: Seq<NodeChange<D, S>>,
    nodes: Seq<Node<D, S>>,
) -> Seq<Node<D, S>>
    decreases changes.len(),
{
    if changes.len() == 0 {
        nodes
    } else {
        node_change_step(apply_node_changes_spec(changes.drop_last(), nodes), changes.last())
    }
}

/// `b` holds the nodes of `a`, in order, each a clone of the one in `a`
/// (equal but for the user data, which `D::clone` produced).
pub open spec fn nodes_match<D: Clone, S>(a: Seq<Node<D, S>>, b: Seq<Node<D, S>>) -> bool {
    &&& a.len() == b.len()
    &&& forall|i: int| 0 <= i < a.len() ==> #[trigger] node_clone_of(a[i], b[i])
}

proof fn lemma_nodes_match_ids<D: Clone, S>(a: Seq<Node<D, S>>, b: Seq<Node<D, S>>)
    requires
        nodes_match(a, b),
    ensures
        node_ids(a) == node_ids(b),
{
    assert forall|i: int| 0 <= i < a.len() implies node_ids(a)[i] == node_ids(b)[i] by {
        assert(node_clone_of(a[i], b[i]));
    }
    assert(node_ids(a) =~= node_ids(b));
}

proof fn lemma_nodes_match_filter<D: Clone, S>(
    a: Seq<Node<D, S>>,
    b: Seq<Node<D, S>>,
    id: Seq<char>,
)
    requires
        nodes_match(a, b),
    ensures
        nodes_match(without_node(a, id), without_node(b, id)),
    decreases a.len(),
{
    reveal(Seq::filter);
    if a.len() > 0 {
        assert(node_clone_of(a[a.len() - 1], b[b.len() - 1]));
        assert(nodes_match(a.drop_last(), b.drop_last())) by {
            assert forall|i: int| 0 <= i < a.len() - 1 implies #[trigger] node_clone_of(
                a.drop_last()[i],
                b.drop_last()[i],
            ) by {
                assert(node_clone_of(a[i], b[i]));
            }
        }
        lemma_nodes_match_filter(a.drop_last(), b.drop_last(), id);
    }
}

/// Removes, in place and in order, every node whose id is `id`.
fn remove_nodes_with_id<D, S>(nodes: &mut Vec<Node<D, S>>, id: &NodeId)
    ensures
        final(nodes)@ == without_node(old(nodes)@, id@),
{
    let ghost orig = nodes@;
    let mut i: usize = 0;
    let ghost mut k: int = 0;
    while i < nodes.len()
        invariant
            0 <= k <= orig.len(),
            i <= nodes@.len(),
            nodes@.len() - i == orig.len() - k,
            nodes@.take(i as int) == without_node(orig.take(k), id@),
            nodes@.skip(i as int) == orig.skip(k),
        decreases nodes.len() - i,
    {
        proof {
            reveal(Seq::filter);
            assert(orig.take(k + 1).drop_last() =~= orig.take(k));
            assert(orig.take(k + 1).last() == orig[k]);
            assert(nodes@[i as int] == orig[k]) by {
                assert(nodes@.skip(i as int)[0] == orig.skip(k)[0]);
            }
            if orig[k].id@ != id@ {
                assert(without_node(orig.take(k + 1), id@) == without_node(orig.take(k), id@).push(orig[k]));
            } else {
                assert(without_node(orig.take(k + 1), id@) == without_node(orig.take(k), id@));
            }
        }
        if nodes[i].id == *id {
            let ghost before = nodes@;
            nodes.remove(i);
            proof {
                assert(before[i as int].id@ == id@);
                assert(without_node(orig.take(k + 1), id@) == without_node(orig.take(k), id@));
                assert(nodes@.take(i as int) =~= before.take(i as int));
                assert(nodes@.skip(i as int) =~= before.skip(i as int).drop_first());
                assert(orig.skip(k + 1) =~= orig.skip(k).drop_first());
                k = k + 1;
            }
        } else {
            let ghost before = nodes@;
            proof {
                assert(nodes@.take(i + 1) =~= before.take(i as int).push(orig[k]));
                assert(nodes@.skip(i + 1) =~= before.skip(i as int).drop_first());
                assert(orig.skip(k + 1) =~= orig.skip(k).drop_first());
                k = k + 1;
            }
            i = i + 1;
        }
    }
    proof {
        assert(orig.take(k) =~= orig);
        assert(nodes@ =~= nodes@.take(i as int));
    }
}

/// The nodes of a list whose nodes each carry a flag.
pub open spec fn untag_nodes<D, S>(t: Seq<(Node<D, S>, bool)>) -> Seq<Node<D, S>> {
    t.map_values(|p: (Node<D, S>, bool)| p.0)
}

/// A node list with every node flagged as not brought in by a change.
pub open spec fn tag_nodes<D, S>(nodes: Seq<Node<D, S>>) -> Seq<(Node<D, S>, bool)> {
    nodes.map_values(|n: Node<D, S>| (n, false))
}

/// Flagged nodes whose id is not `id`.
pub open spec fn tagged_node_id_differs<D, S>(id: Seq<char>) -> spec_fn((Node<D, S>, bool)) -> bool {
    |p: (Node<D, S>, bool)| p.0.id@ != id
}

/// [`node_change_step`] on a list whose nodes carry a flag saying whether a
/// change brought them in: `Add` and `Replace` bring their node in
/// (flagged), the other changes keep each node's flag.
pub open spec fn tagged_node_step<D, S>(
    t: Seq<(Node<D, S>, bool)>,
    c: NodeChange<D, S>,
) -> Seq<(Node<D, S>, bool)> {
    let ns = untag_nodes(t);
    match c {
        NodeChange::Remove { id } => t.filter(tagged_node_id_differs(id@)),
        NodeChange::Add { node, index } => t.insert(insert_index(index, t.len() as int), (node, true)),
        NodeChange::Replace { id, node } => match first_index(node_ids(ns), id@) {
            Some(i) => t.update(i, (node, true)),
            None => t,
        },
        _ => match first_index(node_ids(ns), node_change_id(c)@) {
            Some(i) => t.update(i, (node_change_step(ns, c)[i], t[i].1)),
            None => t,
        },
    }
}

/// [`apply_node_changes_spec`] on a flagged list.
pub open spec fn tagged_node_changes<D, S>(
    changes: Seq<NodeChange<D, S>>,
    t: Seq<(Node<D, S>, bool)>,
) -> Seq<(Node<D, S>, bool)>
    decreases changes.len(),
{
    if changes.len() == 0 {
        t
    } else {
        tagged_node_step(tagged_node_changes(changes.drop_last(), t), changes.last())
    }
}

/// For each node of `apply_node_changes_spec(changes, nodes)`, whether an
/// `Add` or `Replace` among `changes` brought it in.
pub open spec fn brought_nodes<D, S>(changes: Seq<NodeChange<D, S>>, nodes: Seq<Node<D, S>>) -> Seq<
    bool,
> {
    tagged_node_changes(changes, tag_nodes(nodes)).map_values(|p: (Node<D, S>, bool)| p.1)
}

/// Each unflagged node of `t` is the node at the same place in `v`.
pub open spec fn untouched_equal<D, S>(t: Seq<(Node<D, S>, bool)>, v: Seq<Node<D, S>>) -> bool {
    &&& t.len() == v.len()
    &&& forall|i: int| 0 <= i < t.len() && !(#[trigger] t[i]).1 ==> v[i] == t[i].0
}

/// Filtering flagged nodes by id, then dropping the flags, is dropping the
/// flags, then filtering.
proof fn lemma_untag_nodes_filter<D, S>(t: Seq<(Node<D, S>, bool)>, id: Seq<char>)
    ensures
        untag_nodes(t.filter(tagged_node_id_differs(id))) == without_node(
            untag_nodes(t),
            id,
        ),
    decreases t.len(),
{
    let pt = tagged_node_id_differs::<D, S>(id);
    let pn = node_id_differs::<D, S>(id);
    if t.len() == 0 {
        reveal(Seq::filter);
        assert(untag_nodes(t.filter(pt)) =~= Seq::<Node<D, S>>::empty());
        assert(without_node(untag_nodes(t), id) =~= Seq::<Node<D, S>>::empty());
    } else {
        let pre = t.drop_last();
        let x = t.last();
        lemma_untag_nodes_filter(pre, id);
        assert(pre.push(x) =~= t);
        pre.lemma_filter_push(x, pt);
        assert(untag_nodes(pre).push(x.0) =~= untag_nodes(t));
        untag_nodes(pre).lemma_filter_push(x.0, pn);
        if pt(x) {
            assert(untag_nodes(pre.filter(pt).push(x)) =~= untag_nodes(pre.filter(pt)).push(x.0));
        }
    }
}

/// Dropping the flags after a flagged step is the plain step.
proof fn lemma_untag_node_step<D, S>(t: Seq<(Node<D, S>, bool)>, c: NodeChange<D, S>)
    ensures
        untag_nodes(tagged_node_step(t, c)) == node_change_step(untag_nodes(t), c),
{
    let ns = untag_nodes(t);
    lemma_first_index(node_ids(ns), node_change_id(c)@);
    match c {
        NodeChange::Remove { id } => {
            lemma_untag_nodes_filter(t, id@);
        },
        NodeChange::Add { node, index } => {
            assert(untag_nodes(tagged_node_step(t, c)) =~= node_change_step(ns, c));
        },
        _ => {
            assert(untag_nodes(tagged_node_step(t, c)) =~= node_change_step(ns, c));
        },
    }
}

/// Dropping the flags after flagged changes is applying the changes.
proof fn lemma_untag_node_changes<D, S>(changes: Seq<NodeChange<D, S>>, nodes: Seq<Node<D, S>>)
    ensures
        untag_nodes(tagged_node_changes(changes, tag_nodes(nodes))) == apply_node_changes_spec(
            changes,
            nodes,
        ),
    decreases changes.len(),
{
    if changes.len() == 0 {
        assert(untag_nodes(tag_nodes(nodes)) =~= nodes);
    } else {
        lemma_untag_node_changes(changes.drop_last(), nodes);
        lemma_untag_node_step(
            tagged_node_changes(changes.drop_last(), tag_nodes(nodes)),
            changes.last(),
        );
    }
}

/// Removing by id from two lists that agree on their unflagged nodes, and
/// whose nodes have the same ids, keeps them agreeing.
proof fn lemma_untouched_filter<D, S>(t: Seq<(Node<D, S>, bool)>, v: Seq<Node<D, S>>, id: Seq<char>)
    requires
        untouched_equal(t, v),
        forall|i: int| 0 <= i < t.len() ==> (#[trigger] t[i]).0.id@ == v[i].id@,
    ensures
        untouched_equal(t.filter(tagged_node_id_differs(id)), without_node(v, id)),
    decreases t.len(),
{
    reveal(Seq::filter);
    if t.len() > 0 {
        let tp = t.drop_last();
        let vp = v.drop_last();
        assert forall|i: int| 0 <= i < tp.len() && !(#[trigger] tp[i]).1 implies vp[i] == tp[i].0 by {
            assert(tp[i] == t[i]);
        }
        assert forall|i: int| 0 <= i < tp.len() implies (#[trigger] tp[i]).0.id@ == vp[i].id@ by {
            assert(tp[i] == t[i]);
        }
        lemma_untouched_filter(tp, vp, id);
        assert(t[t.len() - 1].0.id@ == v[v.len() - 1].id@);
    }
}

/// A change that brings a node in from outside the list (`Add`, `Replace`);
/// the list gets a clone of it.
pub open spec fn brings_node<D, S>(c: NodeChange<D, S>) -> bool {
    c is Add || c is Replace
}

/// Applies one change; `model` is the list that the change is specified on.
#[verifier::rlimit(50)]
fn apply_node_change<D: Clone, S: Copy>(
    change: &NodeChange<D, S>,
    nodes: &mut Vec<Node<D, S>>,
    Ghost(model): Ghost<Seq<Node<D, S>>>,
    Ghost(tm): Ghost<Seq<(Node<D, S>, bool)>>,
)
    requires
        nodes_match(model, old(nodes)@),
        untag_nodes(tm) == model,
        untouched_equal(tm, old(nodes)@),
    ensures
        untouched_equal(tagged_node_step(tm, *change), final(nodes)@),
        nodes_match(node_change_step(model, *change), final(nodes)@),
        !brings_node(*change) && model == old(nodes)@ ==> final(nodes)@ == node_change_step(
            model,
            *change,
        ),
{
    proof {
        lemma_nodes_match_ids(model, nodes@);
        lemma_first_index(node_ids(model), node_change_id(*change)@);
        assert forall|i: int| 0 <= i < tm.len() implies (#[trigger] tm[i]).0 == model[i] by {
            assert(untag_nodes(tm)[i] == tm[i].0);
        }
    }
    match change {
        NodeChange::Position { id, position, dragging } => {
            if let Some(i) = find_node_index(nodes, id) {
                let mut n = nodes.remove(i);
                if let Some(pos) = position {
                    n.position = *pos;
                }
                if let Some(d) = dragging {
                    n.dragging = *d;
                }
                nodes.insert(i, n);
                proof {
                    assert(node_clone_of(model[i as int], old(nodes)@[i as int]));
                    assert(nodes@ =~= old(nodes)@.update(i as int, n));
                    assert(node_ids(model)[i as int] == node_ids(old(nodes)@)[i as int]);
                }
            }
        },
        NodeChange::Dimensions { id, dimensions } => {
            if let Some(i) = find_node_index(nodes, id) {
                let mut n = nodes.remove(i);
                n.measured = *dimensions;
                if let Some(d) = dimensions {
                    n.width = Some(d.width);
                    n.height = Some(d.height);
                }
                nodes.insert(i, n);
                proof {
                    assert(node_clone_of(model[i as int], old(nodes)@[i as int]));
                    assert(nodes@ =~= old(nodes)@.update(i as int, n));
                    assert(node_ids(model)[i as int] == node_ids(old(nodes)@)[i as int]);
                }
            }
        },
        NodeChange::Select { id, selected } => {
            if let Some(i) = find_node_index(nodes, id) {
                let mut n = nodes.remove(i);
                n.selected = *selected;
                nodes.insert(i, n);
                proof {
                    assert(node_clone_of(model[i as int], old(nodes)@[i as int]));
                    assert(nodes@ =~= old(nodes)@.update(i as int, n));
                    assert(node_ids(model)[i as int] == node_ids(old(nodes)@)[i as int]);
                }
            }
        },
        NodeChange::Remove { id } => {
            remove_nodes_with_id(nodes, id);
            proof {
                lemma_nodes_match_filter(model, old(nodes)@, id@);
                assert forall|i: int| 0 <= i < tm.len() implies (#[trigger] tm[i]).0.id@ == old(
                    nodes,
                )@[i].id@ by {
                    assert(node_clone_of(model[i], old(nodes)@[i]));
                }
                lemma_untouched_filter(tm, old(nodes)@, id@);
            }
        },
        NodeChange::Add { node, index } => {
            let len = nodes.len();
            let at = match index {
                Some(k) => if *k < len {
                    *k
                } else {
                    len
                },
                None => len,
            };
            nodes.insert(at, node.clone());
            proof {
                let m = node_change_step(model, *change);
                assert forall|j: int| 0 <= j < m.len() implies #[trigger] node_clone_of(
                    m[j],
                    nodes@[j],
                ) by {
                    if j < at {
                        assert(node_clone_of(model[j], old(nodes)@[j]));
                    } else if j > at {
                        assert(node_clone_of(model[j - 1], old(nodes)@[j - 1]));
                    }
                }
            }
        },
        NodeChange::Replace { id, node } => {
            if let Some(i) = find_node_index(nodes, id) {
                let _old = nodes.remove(i);
                nodes.insert(i, node.clone());
                proof {
                    let m = node_change_step(model, *change);
                    assert forall|j: int| 0 <= j < m.len() implies #[trigger] node_clone_of(
                        m[j],
                        nodes@[j],
                    ) by {
                        if j != i {
                            assert(node_clone_of(model[j], old(nodes)@[j]));
                        }
                    }
                }
            }
        },
    }
}

/// Apply a list of node changes to the node vector, in order.
///
/// The result is exactly [`apply_node_changes_spec`] of the changes and the
/// old list, with the user data of added or replacing nodes cloned; when no
/// change adds or replaces a node, it is that list itself.
pub fn apply_node_changes<D: Clone, S: Copy>(
    changes: &[NodeChange<D, S>],
    nodes: &mut Vec<Node<D, S>>,
)
    ensures
        nodes_match(apply_node_changes_spec(changes@, old(nodes)@), final(nodes)@),
        (forall|k: int| 0 <= k < changes@.len() ==> !brings_node(#[trigger] changes@[k]))
            ==> final(nodes)@ == apply_node_changes_spec(changes@, old(nodes)@),
        brought_nodes(changes@, old(nodes)@).len() == final(nodes)@.len(),
        forall|i: int|
            0 <= i < final(nodes)@.len() && !(#[trigger] brought_nodes(changes@, old(nodes)@)[i])
                ==> final(nodes)@[i] == apply_node_changes_spec(changes@, old(nodes)@)[i],
{
    let ghost orig = nodes@;
    proof {
        assert(nodes_match(orig, orig)) by {
            assert forall|i: int| 0 <= i < orig.len() implies #[trigger] node_clone_of(
                orig[i],
                orig[i],
            ) by {}
        }
        assert(changes@.take(0) =~= Seq::<NodeChange<D, S>>::empty());
        assert(untouched_equal(tag_nodes(orig), orig));
    }
    let mut ci: usize = 0;
    while ci < changes.len()
        invariant
            ci <= changes@.len(),
            nodes_match(apply_node_changes_spec(changes@.take(ci as int), orig), nodes@),
            (forall|k: int| 0 <= k < changes@.len() ==> !brings_node(#[trigger] changes@[k]))
                ==> nodes@ == apply_node_changes_spec(changes@.take(ci as int), orig),
            untouched_equal(tagged_node_changes(changes@.take(ci as int), tag_nodes(orig)), nodes@),
        decreases changes.len() - ci,
    {
        let ghost model = apply_node_changes_spec(changes@.take(ci as int), orig);
        let ghost tm = tagged_node_changes(changes@.take(ci as int), tag_nodes(orig));
        proof {
            lemma_untag_node_changes(changes@.take(ci as int), orig);
        }
        apply_node_change(&changes[ci], nodes, Ghost(model), Ghost(tm));
        proof {
            assert(changes@.take(ci + 1).drop_last() =~= changes@.take(ci as int));
        }
        ci = ci + 1;
    }
    proof {
        assert(changes@.take(ci as int) =~= changes@);
        lemma_untag_node_changes(changes@, orig);
        let t = tagged_node_changes(changes@, tag_nodes(orig));
        assert forall|i: int| 0 <= i < t.len() implies (#[trigger] brought_nodes(changes@, orig)[i])
            == t[i].1 && apply_node_changes_spec(changes@, orig)[i] == t[i].0 by {
            assert(untag_nodes(t)[i] == t[i].0);
        }
    }
}

// ───────────────────────────── edge changes ─────────────────────────────

/// The edge list with every edge whose id is `id` taken out.
pub open spec fn without_edge<D, S>(edges: Seq<Edge<D, S>>, id: Seq<char>) -> Seq<Edge<D, S>> {
    edges.filter(edge_id_differs(id))
}

/// Edges whose id is not `id`.
pub open spec fn edge_id_differs<D, S>(id: Seq<char>) -> spec_fn(Edge<D, S>) -> bool {
    |e: Edge<D, S>| e.id@ != id
}

/// What one edge change does to the edge list. Changes that name an id
/// act on the first edge with that id (and do nothing when there is none),
/// except `Remove`, which removes every edge with that id.
pub open spec fn edge_change_step<D, S>(edges: Seq<Edge<D, S>>, c: EdgeChange<D, S>) -> Seq<
    Edge<D, S>,
> {
    match c {
        EdgeChange::Select { id, selected } => match first_index(edge_ids(edges), id@) {
            Some(i) => edges.update(i, Edge { selected, ..edges[i] }),
            None => edges,
        },
        EdgeChange::Remove { id } => without_edge(edges, id@),
        EdgeChange::Add { edge, index } => edges.insert(insert_index(index, edges.len() as int), edge),
        EdgeChange::Replace { id, edge } => match first_index(edge_ids(edges), id@) {
            Some(i) => edges.update(i, edge),
            None => edges,
        },
        EdgeChange::Anchor { id, source_anchor, target_anchor } => match first_index(
            edge_ids(edges),
            id@,
        ) {
            Some(i) => edges.update(
                i,
                Edge {
                    source_anchor: match source_anchor {
                        Some(a) => a,
                        None => edges[i].source_anchor,
                    },
                    target_anchor: match target_anchor {
                        Some(a) => a,
                        None => edges[i].target_anchor,
                    },
                    ..edges[i]
                },
            ),
            None => edges,
        },
        EdgeChange::Style { id, style } => match first_index(edge_ids(edges), id@) {
            Some(i) => edges.update(i, Edge { style, ..edges[i] }),
            None => edges,
        },
    }
}

/// The edge list after applying `changes` in order.
pub open spec fn apply_edge_changes_spec<D, S>(
    changes: Seq<EdgeChange<D, S>>,
    edges: Seq<Edge<D, S>>,
) -> Seq<Edge<D, S>>
    decreases changes.len(),
{
    if changes.len() == 0 {
        edges
    } else {
        edge_change_step(apply_edge_changes_spec(changes.drop_last(), edges), changes.last())
    }
}

/// `b` holds the edges of `a`, in order, each a clone of the one in `a`
/// (equal but for the user data, which `D::clone` produced).
pub open spec fn edges_match<D: Clone, S>(a: Seq<Edge<D, S>>, b: Seq<Edge<D, S>>) -> bool {
    &&& a.len() == b.len()
    &&& forall|i: int| 0 <= i < a.len() ==> #[trigger] edge_clone_of(a[i], b[i])
}

proof fn lemma_edges_match_ids<D: Clone, S>(a: Seq<Edge<D, S>>, b: Seq<Edge<D, S>>)
    requires
        edges_match(a, b),
    ensures
        edge_ids(a) == edge_ids(b),
{
    assert forall|i: int| 0 <= i < a.len() implies edge_ids(a)[i] == edge_ids(b)[i] by {
        assert(edge_clone_of(a[i], b[i]));
    }
    assert(edge_ids(a) =~= edge_ids(b));
}

proof fn lemma_edges_match_filter<D: Clone, S>(
    a: Seq<Edge<D, S>>,
    b: Seq<Edge<D, S>>,
    id: Seq<char>,
)
    requires
        edges_match(a, b),
    ensures
        edges_match(without_edge(a, id), without_edge(b, id)),
    decreases a.len(),
{
    reveal(Seq::filter);
    if a.len() > 0 {
        assert(edge_clone_of(a[a.len() - 1], b[b.len() - 1]));
        assert(edges_match(a.drop_last(), b.drop_last())) by {
            assert forall|i: int| 0 <= i < a.len() - 1 implies #[trigger] edge_clone_of(
                a.drop_last()[i],
                b.drop_last()[i],
            ) by {
                assert(edge_clone_of(a[i], b[i]));
            }
        }
        lemma_edges_match_filter(a.drop_last(), b.drop_last(), id);
    }
}

/// Removes, in place and in order, every edge whose id is `id`.
fn remove_edges_with_id<D, S>(edges: &mut Vec<Edge<D, S>>, id: &EdgeId)
    ensures
        final(edges)@ == without_edge(old(edges)@, id@),
{
    let ghost orig = edges@;
    let mut i: usize = 0;
    let ghost mut k: int = 0;
    while i < edges.len()
        invariant
            0 <= k <= orig.len(),
            i <= edges@.len(),
            edges@.len() - i == orig.len() - k,
            edges@.take(i as int) == without_edge(orig.take(k), id@),
            edges@.skip(i as int) == orig.skip(k),
        decreases edges.len() - i,
    {
        proof {
            reveal(Seq::filter);
            assert(orig.take(k + 1).drop_last() =~= orig.take(k));
            assert(orig.take(k + 1).last() == orig[k]);
            assert(edges@[i as int] == orig[k]) by {
                assert(edges@.skip(i as int)[0] == orig.skip(k)[0]);
            }
            if orig[k].id@ != id@ {
                assert(without_edge(orig.take(k + 1), id@) == without_edge(orig.take(k), id@).push(
                    orig[k],
                ));
            } else {
                assert(without_edge(orig.take(k + 1), id@) == without_edge(orig.take(k), id@));
            }
        }
        if edges[i].id == *id {
            let ghost before = edges@;
            edges.remove(i);
            proof {
                assert(before[i as int].id@ == id@);
                assert(edges@.take(i as int) =~= before.take(i as int));
                assert(edges@.skip(i as int) =~= before.skip(i as int).drop_first());
                assert(orig.skip(k + 1) =~= orig.skip(k).drop_first());
                k = k + 1;
            }
        } else {
            let ghost before = edges@;
            proof {
                assert(edges@.take(i + 1) =~= before.take(i as int).push(orig[k]));
                assert(edges@.skip(i + 1) =~= before.skip(i as int).drop_first());
                assert(orig.skip(k + 1) =~= orig.skip(k).drop_first());
                k = k + 1;
            }
            i = i + 1;
        }
    }
    proof {
        assert(orig.take(k) =~= orig);
        assert(edges@ =~= edges@.take(i as int));
    }
}

/// The edges of a list whose edges each carry a flag.
pub open spec fn untag_edges<D, S>(t: Seq<(Edge<D, S>, bool)>) -> Seq<Edge<D, S>> {
    t.map_values(|p: (Edge<D, S>, bool)| p.0)
}

/// A edge list with every edge flagged as not brought in by a change.
pub open spec fn tag_edges<D, S>(edges: Seq<Edge<D, S>>) -> Seq<(Edge<D, S>, bool)> {
    edges.map_values(|n: Edge<D, S>| (n, false))
}

/// Flagged edges whose id is not `id`.
pub open spec fn tagged_edge_id_differs<D, S>(id: Seq<char>) -> spec_fn((Edge<D, S>, bool)) -> bool {
    |p: (Edge<D, S>, bool)| p.0.id@ != id
}

/// [`edge_change_step`] on a list whose edges carry a flag saying whether a
/// change brought them in: `Add` and `Replace` bring their edge in
/// (flagged), the other changes keep each edge's flag.
pub open spec fn tagged_edge_step<D, S>(
    t: Seq<(Edge<D, S>, bool)>,
    c: EdgeChange<D, S>,
) -> Seq<(Edge<D, S>, bool)> {
    let ns = untag_edges(t);
    match c {
        EdgeChange::Remove { id } => t.filter(tagged_edge_id_differs(id@)),
        EdgeChange::Add { edge, index } => t.insert(insert_index(index, t.len() as int), (edge, true)),
        EdgeChange::Replace { id, edge } => match first_index(edge_ids(ns), id@) {
            Some(i) => t.update(i, (edge, true)),
            None => t,
        },
        _ => match first_index(edge_ids(ns), edge_change_id(c)@) {
            Some(i) => t.update(i, (edge_change_step(ns, c)[i], t[i].1)),
            None => t,
        },
    }
}

/// [`apply_edge_changes_spec`] on a flagged list.
pub open spec fn tagged_edge_changes<D, S>(
    changes: Seq<EdgeChange<D, S>>,
    t: Seq<(Edge<D, S>, bool)>,
) -> Seq<(Edge<D, S>, bool)>
    decreases changes.len(),
{
    if changes.len() == 0 {
        t
    } else {
        tagged_edge_step(tagged_edge_changes(changes.drop_last(), t), changes.last())
    }
}

/// For each edge of `apply_edge_changes_spec(changes, edges)`, whether an
/// `Add` or `Replace` among `changes` brought it in.
pub open spec fn brought_edges<D, S>(changes: Seq<EdgeChange<D, S>>, edges: Seq<Edge<D, S>>) -> Seq<
    bool,
> {
    tagged_edge_changes(changes, tag_edges(edges)).map_values(|p: (Edge<D, S>, bool)| p.1)
}

/// Each unflagged edge of `t` is the edge at the same place in `v`.
pub open spec fn untouched_equal_edges<D, S>(t: Seq<(Edge<D, S>, bool)>, v: Seq<Edge<D, S>>) -> bool {
    &&& t.len() == v.len()
    &&& forall|i: int| 0 <= i < t.len() && !(#[trigger] t[i]).1 ==> v[i] == t[i].0
}

/// Filtering flagged edges by id, then dropping the flags, is dropping the
/// flags, then filtering.
proof fn lemma_untag_edges_filter<D, S>(t: Seq<(Edge<D, S>, bool)>, id: Seq<char>)
    ensures
        untag_edges(t.filter(tagged_edge_id_differs(id))) == without_edge(
            untag_edges(t),
            id,
        ),
    decreases t.len(),
{
    let pt = tagged_edge_id_differs::<D, S>(id);
    let pn = edge_id_differs::<D, S>(id);
    if t.len() == 0 {
        reveal(Seq::filter);
        assert(untag_edges(t.filter(pt)) =~= Seq::<Edge<D, S>>::empty());
        assert(without_edge(untag_edges(t), id) =~= Seq::<Edge<D, S>>::empty());
    } else {
        let pre = t.drop_last();
        let x = t.last();
        lemma_untag_edges_filter(pre, id);
        assert(pre.push(x) =~= t);
        pre.lemma_filter_push(x, pt);
        assert(untag_edges(pre).push(x.0) =~= untag_edges(t));
        untag_edges(pre).lemma_filter_push(x.0, pn);
        if pt(x) {
            assert(untag_edges(pre.filter(pt).push(x)) =~= untag_edges(pre.filter(pt)).push(x.0));
        }
    }
}

/// Dropping the flags after a flagged step is the plain step.
proof fn lemma_untag_edge_step<D, S>(t: Seq<(Edge<D, S>, bool)>, c: EdgeChange<D, S>)
    ensures
        untag_edges(tagged_edge_step(t, c)) == edge_change_step(untag_edges(t), c),
{
    let ns = untag_edges(t);
    lemma_first_index(edge_ids(ns), edge_change_id(c)@);
    match c {
        EdgeChange::Remove { id } => {
            lemma_untag_edges_filter(t, id@);
        },
        EdgeChange::Add { edge, index } => {
            assert(untag_edges(tagged_edge_step(t, c)) =~= edge_change_step(ns, c));
        },
        _ => {
            assert(untag_edges(tagged_edge_step(t, c)) =~= edge_change_step(ns, c));
        },
    }
}

/// Dropping the flags after flagged changes is applying the changes.
proof fn lemma_untag_edge_changes<D, S>(changes: Seq<EdgeChange<D, S>>, edges: Seq<Edge<D, S>>)
    ensures
        untag_edges(tagged_edge_changes(changes, tag_edges(edges))) == apply_edge_changes_spec(
            changes,
            edges,
        ),
    decreases changes.len(),
{
    if changes.len() == 0 {
        assert(untag_edges(tag_edges(edges)) =~= edges);
    } else {
        lemma_untag_edge_changes(changes.drop_last(), edges);
        lemma_untag_edge_step(
            tagged_edge_changes(changes.drop_last(), tag_edges(edges)),
            changes.last(),
        );
    }
}

/// Removing by id from two lists that agree on their unflagged edges, and
/// whose edges have the same ids, keeps them agreeing.
proof fn lemma_untouched_filter_edges<D, S>(t: Seq<(Edge<D, S>, bool)>, v: Seq<Edge<D, S>>, id: Seq<char>)
    requires
        untouched_equal_edges(t, v),
        forall|i: int| 0 <= i < t.len() ==> (#[trigger] t[i]).0.id@ == v[i].id@,
    ensures
        untouched_equal_edges(t.filter(tagged_edge_id_differs(id)), without_edge(v, id)),
    decreases t.len(),
{
    reveal(Seq::filter);
    if t.len() > 0 {
        let tp = t.drop_last();
        let vp = v.drop_last();
        assert forall|i: int| 0 <= i < tp.len() && !(#[trigger] tp[i]).1 implies vp[i] == tp[i].0 by {
            assert(tp[i] == t[i]);
        }
        assert forall|i: int| 0 <= i < tp.len() implies (#[trigger] tp[i]).0.id@ == vp[i].id@ by {
            assert(tp[i] == t[i]);
        }
        lemma_untouched_filter_edges(tp, vp, id);
        assert(t[t.len() - 1].0.id@ == v[v.len() - 1].id@);
    }
}

/// A change that brings an edge in from outside the list (`Add`, `Replace`);
/// the list gets a clone of it.
pub open spec fn brings_edge<D, S>(c: EdgeChange<D, S>) -> bool {
    c is Add || c is Replace
}

/// Applies one change; `model` is the list that the change is specified on.
#[verifier::rlimit(50)]
fn apply_edge_change<D: Clone, S: Copy>(
    change: &EdgeChange<D, S>,
    edges: &mut Vec<Edge<D, S>>,
    Ghost(model): Ghost<Seq<Edge<D, S>>>,
    Ghost(tm): Ghost<Seq<(Edge<D, S>, bool)>>,
)
    requires
        edges_match(model, old(edges)@),
        untag_edges(tm) == model,
        untouched_equal_edges(tm, old(edges)@),
    ensures
        untouched_equal_edges(tagged_edge_step(tm, *change), final(edges)@),
        edges_match(edge_change_step(model, *change), final(edges)@),
        !brings_edge(*change) && model == old(edges)@ ==> final(edges)@ == edge_change_step(
            model,
            *change,
        ),
{
    proof {
        lemma_edges_match_ids(model, edges@);
        lemma_first_index(edge_ids(model), edge_change_id(*change)@);
        assert forall|i: int| 0 <= i < tm.len() implies (#[trigger] tm[i]).0 == model[i] by {
            assert(untag_edges(tm)[i] == tm[i].0);
        }
    }
    match change {
        EdgeChange::Select { id, selected } => {
            if let Some(i) = find_edge_index(edges, id) {
                let mut e = edges.remove(i);
                e.selected = *selected;
                edges.insert(i, e);
                proof {
                    assert(edge_clone_of(model[i as int], old(edges)@[i as int]));
                    assert(edges@ =~= old(edges)@.update(i as int, e));
                    assert(edge_ids(model)[i as int] == edge_ids(old(edges)@)[i as int]);
                }
            }
        },
        EdgeChange::Remove { id } => {
            remove_edges_with_id(edges, id);
            proof {
                lemma_edges_match_filter(model, old(edges)@, id@);
                assert forall|i: int| 0 <= i < tm.len() implies (#[trigger] tm[i]).0.id@ == old(
                    edges,
                )@[i].id@ by {
                    assert(edge_clone_of(model[i], old(edges)@[i]));
                }
                lemma_untouched_filter_edges(tm, old(edges)@, id@);
            }
        },
        EdgeChange::Add { edge, index } => {
            let len = edges.len();
            let at = match index {
                Some(k) => if *k < len {
                    *k
                } else {
                    len
                },
                None => len,
            };
            edges.insert(at, edge.clone());
            proof {
                let m = edge_change_step(model, *change);
                assert forall|j: int| 0 <= j < m.len() implies #[trigger] edge_clone_of(
                    m[j],
                    edges@[j],
                ) by {
                    if j < at {
                        assert(edge_clone_of(model[j], old(edges)@[j]));
                    } else if j > at {
                        assert(edge_clone_of(model[j - 1], old(edges)@[j - 1]));
                    }
                }
            }
        },
        EdgeChange::Replace { id, edge } => {
            if let Some(i) = find_edge_index(edges, id) {
                let _old = edges.remove(i);
                edges.insert(i, edge.clone());
                proof {
                    let m = edge_change_step(model, *change);
                    assert forall|j: int| 0 <= j < m.len() implies #[trigger] edge_clone_of(
                        m[j],
                        edges@[j],
                    ) by {
                        if j != i {
                            assert(edge_clone_of(model[j], old(edges)@[j]));
                        }
                    }
                }
            }
        },
        EdgeChange::Anchor { id, source_anchor, target_anchor } => {
            if let Some(i) = find_edge_index(edges, id) {
                let mut e = edges.remove(i);
                if let Some(sa) = source_anchor {
                    e.source_anchor = *sa;
                }
                if let Some(ta) = target_anchor {
                    e.target_anchor = *ta;
                }
                edges.insert(i, e);
                proof {
                    assert(edge_clone_of(model[i as int], old(edges)@[i as int]));
                    assert(edges@ =~= old(edges)@.update(i as int, e));
                    assert(edge_ids(model)[i as int] == edge_ids(old(edges)@)[i as int]);
                }
            }
        },
        EdgeChange::Style { id, style } => {
            if let Some(i) = find_edge_index(edges, id) {
                let mut e = edges.remove(i);
                e.style = *style;
                edges.insert(i, e);
                proof {
                    assert(edge_clone_of(model[i as int], old(edges)@[i as int]));
                    assert(edges@ =~= old(edges)@.update(i as int, e));
                    assert(edge_ids(model)[i as int] == edge_ids(old(edges)@)[i as int]);
                }
            }
        },
    }
}

/// Apply a list of edge changes to the edge vector, in order.
///
/// The result is exactly [`apply_edge_changes_spec`] of the changes and the
/// old list, with the user data of added or replacing edges cloned; when no
/// change adds or replaces an edge, it is that list itself.
pub fn apply_edge_changes<D: Clone, S: Copy>(
    changes: &[EdgeChange<D, S>],
    edges: &mut Vec<Edge<D, S>>,
)
    ensures
        edges_match(apply_edge_changes_spec(changes@, old(edges)@), final(edges)@),
        (forall|k: int| 0 <= k < changes@.len() ==> !brings_edge(#[trigger] changes@[k]))
            ==> final(edges)@ == apply_edge_changes_spec(changes@, old(edges)@),
        brought_edges(changes@, old(edges)@).len() == final(edges)@.len(),
        forall|i: int|
            0 <= i < final(edges)@.len() && !(#[trigger] brought_edges(changes@, old(edges)@)[i])
                ==> final(edges)@[i] == apply_edge_changes_spec(changes@, old(edges)@)[i],
{
    let ghost orig = edges@;
    proof {
        assert(edges_match(orig, orig)) by {
            assert forall|i: int| 0 <= i < orig.len() implies #[trigger] edge_clone_of(
                orig[i],
                orig[i],
            ) by {}
        }
        assert(changes@.take(0) =~= Seq::<EdgeChange<D, S>>::empty());
        assert(untouched_equal_edges(tag_edges(orig), orig));
    }
    let mut ci: usize = 0;
    while ci < changes.len()
        invariant
            ci <= changes@.len(),
            edges_match(apply_edge_changes_spec(changes@.take(ci as int), orig), edges@),
            (forall|k: int| 0 <= k < changes@.len() ==> !brings_edge(#[trigger] changes@[k]))
                ==> edges@ == apply_edge_changes_spec(changes@.take(ci as int), orig),
            untouched_equal_edges(tagged_edge_changes(changes@.take(ci as int), tag_edges(orig)), edges@),
        decreases changes.len() - ci,
    {
        let ghost model = apply_edge_changes_spec(changes@.take(ci as int), orig);
        let ghost tm = tagged_edge_changes(changes@.take(ci as int), tag_edges(orig));
        proof {
            lemma_untag_edge_changes(changes@.take(ci as int), orig);
        }
        apply_edge_change(&changes[ci], edges, Ghost(model), Ghost(tm));
        proof {
            assert(changes@.take(ci + 1).drop_last() =~= changes@.take(ci as int));
        }
        ci = ci + 1;
    }
    proof {
        assert(changes@.take(ci as int) =~= changes@);
        lemma_untag_edge_changes(changes@, orig);
        let t = tagged_edge_changes(changes@, tag_edges(orig));
        assert forall|i: int| 0 <= i < t.len() implies (#[trigger] brought_edges(changes@, orig)[i])
            == t[i].1 && apply_edge_changes_spec(changes@, orig)[i] == t[i].0 by {
            assert(untag_edges(t)[i] == t[i].0);
        }
    }
}

// ───────────────────────────── laws ─────────────────────────────

/// A change that adds, removes or replaces a node, and so may change which
/// ids the node list holds.
pub open spec fn is_structural_node_change<D, S>(c: NodeChange<D, S>) -> bool {
    c is Add || c is Remove || c is Replace
}

/// A change that adds, removes or replaces an edge.
pub open spec fn is_structural_edge_change<D, S>(c: EdgeChange<D, S>) -> bool {
    c is Add || c is Remove || c is Replace
}

/// The id a node change names (the new node's own id for `Add`).
pub open spec fn node_change_id<D, S>(c: NodeChange<D, S>) -> NodeId {
    match c {
        NodeChange::Position { id, .. } => id,
        NodeChange::Dimensions { id, .. } => id,
        NodeChange::Select { id, .. } => id,
        NodeChange::Remove { id } => id,
        NodeChange::Add { node, .. } => node.id,
        NodeChange::Replace { id, .. } => id,
    }
}

/// The id an edge change names (the new edge's own id for `Add`).
pub open spec fn edge_change_id<D, S>(c: EdgeChange<D, S>) -> EdgeId {
    match c {
        EdgeChange::Select { id, .. } => id,
        EdgeChange::Remove { id } => id,
        EdgeChange::Add { edge, .. } => edge.id,
        EdgeChange::Replace { id, .. } => id,
        EdgeChange::Anchor { id, .. } => id,
        EdgeChange::Style { id, .. } => id,
    }
}

/// Whether any change in the list adds, removes or replaces a node.
pub fn has_structural_node_change<D, S>(changes: &[NodeChange<D, S>]) -> (r: bool)
    ensures
        r == exists|i: int| 0 <= i < changes@.len() && is_structural_node_change(changes@[i]),
{
    let mut i: usize = 0;
    while i < changes.len()
        invariant
            i <= changes@.len(),
            forall|j: int| 0 <= j < i ==> !is_structural_node_change(#[trigger] changes@[j]),
        decreases changes.len() - i,
    {
        match &changes[i] {
            NodeChange::Add { .. } | NodeChange::Remove { .. } | NodeChange::Replace { .. } => {
                return true;
            },
            _ => {},
        }
        i = i + 1;
    }
    false
}

/// Applying two lists of node changes one after the other is the same as
/// applying their concatenation.
pub proof fn lemma_node_changes_compose<D, S>(
    a: Seq<NodeChange<D, S>>,
    b: Seq<NodeChange<D, S>>,
    nodes: Seq<Node<D, S>>,
)
    ensures
        apply_node_changes_spec(a + b, nodes) == apply_node_changes_spec(
            b,
            apply_node_changes_spec(a, nodes),
        ),
    decreases b.len(),
{
    if b.len() == 0 {
        assert(a + b =~= a);
    } else {
        lemma_node_changes_compose(a, b.drop_last(), nodes);
        assert((a + b).drop_last() =~= a + b.drop_last());
        assert((a + b).last() == b.last());
    }
}

/// Position, dimension and selection changes never add, remove or reorder
/// nodes: the list of node ids stays exactly as it was.
pub proof fn lemma_non_structural_node_changes_keep_ids<D, S>(
    changes: Seq<NodeChange<D, S>>,
    nodes: Seq<Node<D, S>>,
)
    requires
        forall|i: int| 0 <= i < changes.len() ==> !is_structural_node_change(#[trigger] changes[i]),
    ensures
        node_ids(apply_node_changes_spec(changes, nodes)) == node_ids(nodes),
    decreases changes.len(),
{
    if changes.len() > 0 {
        let prefix = changes.drop_last();
        assert forall|i: int| 0 <= i < prefix.len() implies !is_structural_node_change(
            #[trigger] prefix[i],
        ) by {
            assert(prefix[i] == changes[i]);
        }
        lemma_non_structural_node_changes_keep_ids(prefix, nodes);
        let m = apply_node_changes_spec(prefix, nodes);
        let c = changes.last();
        assert(!is_structural_node_change(changes[changes.len() - 1]));
        let r = node_change_step(m, c);
        let id = node_change_id(c);
        lemma_first_index(node_ids(m), id@);
        assert(node_ids(r) =~= node_ids(m));
    }
}

/// After removing `id`, no node with that id is left, and every node with
/// another id is still there.
pub proof fn lemma_remove_node<D, S>(nodes: Seq<Node<D, S>>, id: Seq<char>)
    ensures
        forall|k: int|
            0 <= k < without_node(nodes, id).len() ==> (#[trigger] without_node(nodes, id)[k]).id@
                != id,
        forall|k: int|
            0 <= k < nodes.len() && nodes[k].id@ != id ==> without_node(nodes, id).contains(
                #[trigger] nodes[k],
            ),
        forall|k: int|
            0 <= k < without_node(nodes, id).len() ==> nodes.contains(
                #[trigger] without_node(nodes, id)[k],
            ),
{
    broadcast use vstd::seq_lib::group_filter_ensures;

    lemma_filter_subset(nodes, node_id_differs(id));
}

/// Every element that filtering keeps is an element of the sequence.
pub proof fn lemma_filter_subset<A>(s: Seq<A>, p: spec_fn(A) -> bool)
    ensures
        forall|k: int| 0 <= k < s.filter(p).len() ==> s.contains(#[trigger] s.filter(p)[k]),
    decreases s.len(),
{
    reveal(Seq::filter);
    if s.len() > 0 {
        lemma_filter_subset(s.drop_last(), p);
        let f = s.filter(p);
        assert forall|k: int| 0 <= k < f.len() implies s.contains(#[trigger] f[k]) by {
            let g = s.drop_last().filter(p);
            if k < g.len() {
                assert(f[k] == g[k]);
                let j = choose|j: int| 0 <= j < s.drop_last().len() && s.drop_last()[j] == g[k];
                assert(s[j] == g[k]);
            } else {
                assert(f[k] == s[s.len() - 1]);
            }
        }
    }
}

/// `u` follows `t`: the same ids place by place, and every node of `t`
/// that no change brought in is, unflagged, the same node in `u`.
pub open spec fn tagged_nodes_follow<D, S>(t: Seq<(Node<D, S>, bool)>, u: Seq<(Node<D, S>, bool)>) -> bool {
    &&& t.len() == u.len()
    &&& forall|i: int| 0 <= i < t.len() ==> (#[trigger] t[i]).0.id@ == u[i].0.id@
    &&& forall|i: int| 0 <= i < t.len() && !(#[trigger] t[i]).1 ==> !u[i].1 && u[i].0 == t[i].0
}

proof fn lemma_follow_filter<D, S>(t: Seq<(Node<D, S>, bool)>, u: Seq<(Node<D, S>, bool)>, id: Seq<char>)
    requires
        tagged_nodes_follow(t, u),
    ensures
        tagged_nodes_follow(t.filter(tagged_node_id_differs(id)), u.filter(tagged_node_id_differs(id))),
    decreases t.len(),
{
    reveal(Seq::filter);
    if t.len() > 0 {
        let tp = t.drop_last();
        let up = u.drop_last();
        assert forall|i: int| 0 <= i < tp.len() implies (#[trigger] tp[i]).0.id@ == up[i].0.id@ by {
            assert(tp[i] == t[i]);
        }
        assert forall|i: int| 0 <= i < tp.len() && !(#[trigger] tp[i]).1 implies !up[i].1 && up[i].0
            == tp[i].0 by {
            assert(tp[i] == t[i]);
        }
        lemma_follow_filter(tp, up, id);
        assert(t[t.len() - 1].0.id@ == u[u.len() - 1].0.id@);
    }
}

proof fn lemma_follow_step<D, S>(t: Seq<(Node<D, S>, bool)>, u: Seq<(Node<D, S>, bool)>, c: NodeChange<D, S>)
    requires
        tagged_nodes_follow(t, u),
    ensures
        tagged_nodes_follow(tagged_node_step(t, c), tagged_node_step(u, c)),
{
    let nt = untag_nodes(t);
    let nu = untag_nodes(u);
    assert(node_ids(nt) =~= node_ids(nu)) by {
        assert forall|i: int| 0 <= i < nt.len() implies node_ids(nt)[i] == node_ids(nu)[i] by {
            assert(nt[i] == t[i].0);
            assert(nu[i] == u[i].0);
        }
    }
    lemma_first_index(node_ids(nt), node_change_id(c)@);
    match c {
        NodeChange::Remove { id } => {
            lemma_follow_filter(t, u, id@);
        },
        NodeChange::Add { node, index } => {
            let k = insert_index(index, t.len() as int);
            let t2 = tagged_node_step(t, c);
            let u2 = tagged_node_step(u, c);
            assert forall|i: int| 0 <= i < t2.len() implies (#[trigger] t2[i]).0.id@ == u2[i].0.id@ by {
                if i > k {
                    assert(t2[i] == t[i - 1] && u2[i] == u[i - 1]);
                }
            }
            assert forall|i: int| 0 <= i < t2.len() && !(#[trigger] t2[i]).1 implies !u2[i].1 && u2[i].0
                == t2[i].0 by {
                if i > k {
                    assert(t2[i] == t[i - 1] && u2[i] == u[i - 1]);
                }
            }
        },
        _ => {
            if let Some(i) = first_index(node_ids(nt), node_change_id(c)@) {
                assert(nt[i] == t[i].0);
                assert(nu[i] == u[i].0);
            }
        },
    }
}

proof fn lemma_follow_changes<D, S>(
    changes: Seq<NodeChange<D, S>>,
    t: Seq<(Node<D, S>, bool)>,
    u: Seq<(Node<D, S>, bool)>,
)
    requires
        tagged_nodes_follow(t, u),
    ensures
        tagged_nodes_follow(tagged_node_changes(changes, t), tagged_node_changes(changes, u)),
    decreases changes.len(),
{
    if changes.len() > 0 {
        lemma_follow_changes(changes.drop_last(), t, u);
        lemma_follow_step(
            tagged_node_changes(changes.drop_last(), t),
            tagged_node_changes(changes.drop_last(), u),
            changes.last(),
        );
    }
}

proof fn lemma_tagged_node_changes_compose<D, S>(
    a: Seq<NodeChange<D, S>>,
    b: Seq<NodeChange<D, S>>,
    t: Seq<(Node<D, S>, bool)>,
)
    ensures
        tagged_node_changes(a + b, t) == tagged_node_changes(b, tagged_node_changes(a, t)),
    decreases b.len(),
{
    if b.len() == 0 {
        assert(a + b =~= a);
    } else {
        lemma_tagged_node_changes_compose(a, b.drop_last(), t);
        assert((a + b).drop_last() =~= a + b.drop_last());
        assert((a + b).last() == b.last());
    }
}

/// Applying `a` and then `b` gives the same nodes as applying `a + b` at
/// once, except for the clones made of nodes an `Add` or `Replace`
/// brought in: when `mid` is what [`apply_node_changes`] makes of `nodes`
/// with `a`, and `fin` what it makes of `mid` with `b`, every node of
/// `fin` that no change of `a + b` brought in is exactly the node at the
/// same place of `apply_node_changes_spec(a + b, nodes)`, which is where
/// `apply_node_changes` with `a + b` puts that same node.
pub proof fn lemma_node_runs_compose<D: Clone, S>(
    a: Seq<NodeChange<D, S>>,
    b: Seq<NodeChange<D, S>>,
    nodes: Seq<Node<D, S>>,
    mid: Seq<Node<D, S>>,
    fin: Seq<Node<D, S>>,
)
    requires
        nodes_match(apply_node_changes_spec(a, nodes), mid),
        forall|i: int|
            0 <= i < mid.len() && !(#[trigger] brought_nodes(a, nodes)[i]) ==> mid[i]
                == apply_node_changes_spec(a, nodes)[i],
        nodes_match(apply_node_changes_spec(b, mid), fin),
        forall|i: int|
            0 <= i < fin.len() && !(#[trigger] brought_nodes(b, mid)[i]) ==> fin[i]
                == apply_node_changes_spec(b, mid)[i],
    ensures
        fin.len() == apply_node_changes_spec(a + b, nodes).len(),
        brought_nodes(a + b, nodes).len() == fin.len(),
        forall|i: int|
            0 <= i < fin.len() && !(#[trigger] brought_nodes(a + b, nodes)[i]) ==> fin[i]
                == apply_node_changes_spec(a + b, nodes)[i],
{
    let t1 = tagged_node_changes(a, tag_nodes(nodes));
    lemma_untag_node_changes(a, nodes);
    lemma_untag_node_changes(b, mid);
    lemma_untag_node_changes(a + b, nodes);
    lemma_tagged_node_changes_compose(a, b, tag_nodes(nodes));
    assert forall|i: int| 0 <= i < t1.len() implies (#[trigger] t1[i]).0.id@ == tag_nodes(mid)[i].0.id@
        && (!t1[i].1 ==> !tag_nodes(mid)[i].1 && tag_nodes(mid)[i].0 == t1[i].0) by {
        assert(untag_nodes(t1)[i] == t1[i].0);
        assert(node_clone_of(apply_node_changes_spec(a, nodes)[i], mid[i]));
        assert(brought_nodes(a, nodes)[i] == t1[i].1);
    }
    lemma_follow_changes(b, t1, tag_nodes(mid));
    let t2 = tagged_node_changes(b, t1);
    let u2 = tagged_node_changes(b, tag_nodes(mid));
    assert forall|i: int|
        0 <= i < fin.len() && !(#[trigger] brought_nodes(a + b, nodes)[i]) implies fin[i]
        == apply_node_changes_spec(a + b, nodes)[i] by {
        assert(brought_nodes(a + b, nodes)[i] == t2[i].1);
        assert(brought_nodes(b, mid)[i] == u2[i].1);
        assert(untag_nodes(u2)[i] == u2[i].0);
        assert(untag_nodes(t2)[i] == t2[i].0);
    }
}

/// Applying two lists of edge changes one after the other is the same as
/// applying their concatenation.
pub proof fn lemma_edge_changes_compose<D, S>(
    a: Seq<EdgeChange<D, S>>,
    b: Seq<EdgeChange<D, S>>,
    edges: Seq<Edge<D, S>>,
)
    ensures
        apply_edge_changes_spec(a + b, edges) == apply_edge_changes_spec(
            b,
            apply_edge_changes_spec(a, edges),
        ),
    decreases b.len(),
{
    if b.len() == 0 {
        assert(a + b =~= a);
    } else {
        lemma_edge_changes_compose(a, b.drop_last(), edges);
        assert((a + b).drop_last() =~= a + b.drop_last());
        assert((a + b).last() == b.last());
    }
}

/// Selection, anchor and style changes never add, remove or reorder edges:
/// the list of edge ids stays exactly as it was.
pub proof fn lemma_non_structural_edge_changes_keep_ids<D, S>(
    changes: Seq<EdgeChange<D, S>>,
    edges: Seq<Edge<D, S>>,
)
    requires
        forall|i: int| 0 <= i < changes.len() ==> !is_structural_edge_change(#[trigger] changes[i]),
    ensures
        edge_ids(apply_edge_changes_spec(changes, edges)) == edge_ids(edges),
    decreases changes.len(),
{
    if changes.len() > 0 {
        let prefix = changes.drop_last();
        assert forall|i: int| 0 <= i < prefix.len() implies !is_structural_edge_change(
            #[trigger] prefix[i],
        ) by {
            assert(prefix[i] == changes[i]);
        }
        lemma_non_structural_edge_changes_keep_ids(prefix, edges);
        let m = apply_edge_changes_spec(prefix, edges);
        let c = changes.last();
        assert(!is_structural_edge_change(changes[changes.len() - 1]));
        let r = edge_change_step(m, c);
        let id = edge_change_id(c);
        lemma_first_index(edge_ids(m), id@);
        assert(edge_ids(r) =~= edge_ids(m));
    }
}

/// After removing `id`, no edge with that id is left, and every edge with
/// another id is still there.
pub proof fn lemma_remove_edge<D, S>(edges: Seq<Edge<D, S>>, id: Seq<char>)
    ensures
        forall|k: int|
            0 <= k < without_edge(edges, id).len() ==> (#[trigger] without_edge(edges, id)[k]).id@
                != id,
        forall|k: int|
            0 <= k < edges.len() && edges[k].id@ != id ==> without_edge(edges, id).contains(
                #[trigger] edges[k],
            ),
{
    broadcast use vstd::seq_lib::group_filter_ensures;

}

/// Filtering keeps a sequence whole when every element passes.
proof fn lemma_filter_all_pass<A>(s: Seq<A>, p: spec_fn(A) -> bool)
    requires
        forall|k: int| 0 <= k < s.len() ==> p(#[trigger] s[k]),
    ensures
        s.filter(p) == s,
    decreases s.len(),
{
    if s.len() > 0 {
        let pre = s.drop_last();
        assert forall|k: int| 0 <= k < pre.len() implies p(#[trigger] pre[k]) by {
            assert(pre[k] == s[k]);
        }
        lemma_filter_all_pass(pre, p);
        pre.lemma_filter_push(s.last(), p);
        assert(pre.push(s.last()) =~= s);
    }
}

/// Filtering keeps a sequence whole when every element passes.
pub proof fn lemma_filter_all_pass_pub<A>(s: Seq<A>, p: spec_fn(A) -> bool)
    requires
        forall|k: int| 0 <= k < s.len() ==> p(#[trigger] s[k]),
    ensures
        s.filter(p) == s,
{
    lemma_filter_all_pass(s, p);
}

/// Filtering out an inserted element that fails the predicate, from a
/// sequence whose elements all pass, gives the sequence back.
proof fn lemma_filter_insert_undone<A>(s: Seq<A>, k: int, x: A, p: spec_fn(A) -> bool)
    requires
        0 <= k <= s.len(),
        !p(x),
        forall|j: int| 0 <= j < s.len() ==> p(#[trigger] s[j]),
    ensures
        s.insert(k, x).filter(p) == s,
{
    let a = s.take(k);
    let b = s.skip(k);
    assert(s.insert(k, x) =~= a.push(x) + b);
    Seq::filter_distributes_over_add(a.push(x), b, p);
    a.lemma_filter_push(x, p);
    assert forall|j: int| 0 <= j < a.len() implies p(#[trigger] a[j]) by {
        assert(a[j] == s[j]);
    }
    assert forall|j: int| 0 <= j < b.len() implies p(#[trigger] b[j]) by {
        assert(b[j] == s[k + j]);
    }
    lemma_filter_all_pass(a, p);
    lemma_filter_all_pass(b, p);
    assert(a + b =~= s);
}

/// Removing a node just added undoes the addition: when no node has its id
/// yet, adding it (anywhere) and then removing its id gives back the list.
pub proof fn lemma_add_then_remove_node<D, S>(
    nodes: Seq<Node<D, S>>,
    node: Node<D, S>,
    index: Option<usize>,
)
    requires
        !node_ids(nodes).contains(node.id@),
    ensures
        apply_node_changes_spec(
            seq![NodeChange::Add { node, index }, NodeChange::Remove { id: node.id }],
            nodes,
        ) == nodes,
{
    let changes = seq![NodeChange::Add { node, index }, NodeChange::Remove { id: node.id }];
    let k = insert_index(index, nodes.len() as int);
    let c1 = changes.drop_last();
    assert(c1.drop_last() =~= Seq::<NodeChange<D, S>>::empty());
    assert(c1.last() == NodeChange::Add { node, index });
    assert(apply_node_changes_spec(c1.drop_last(), nodes) == nodes);
    assert(apply_node_changes_spec(c1, nodes) == nodes.insert(k, node));
    assert(changes.last() == NodeChange::<D, S>::Remove { id: node.id });
    assert(apply_node_changes_spec(changes, nodes) == without_node(nodes.insert(k, node), node.id@));
    assert forall|j: int| 0 <= j < nodes.len() implies node_id_differs::<D, S>(node.id@)(
        #[trigger] nodes[j],
    ) by {
        assert(node_ids(nodes)[j] == nodes[j].id@);
    }
    lemma_filter_insert_undone(
        nodes,
        insert_index(index, nodes.len() as int),
        node,
        node_id_differs(node.id@),
    );
}

/// Removing an edge just added undoes the addition: when no edge has its id
/// yet, adding it (anywhere) and then removing its id gives back the list.
pub proof fn lemma_add_then_remove_edge<D, S>(
    edges: Seq<Edge<D, S>>,
    edge: Edge<D, S>,
    index: Option<usize>,
)
    requires
        !edge_ids(edges).contains(edge.id@),
    ensures
        apply_edge_changes_spec(
            seq![EdgeChange::Add { edge, index }, EdgeChange::Remove { id: edge.id }],
            edges,
        ) == edges,
{
    let changes = seq![EdgeChange::Add { edge, index }, EdgeChange::Remove { id: edge.id }];
    let k = insert_index(index, edges.len() as int);
    let c1 = changes.drop_last();
    assert(c1.drop_last() =~= Seq::<EdgeChange<D, S>>::empty());
    assert(c1.last() == EdgeChange::Add { edge, index });
    assert(apply_edge_changes_spec(c1.drop_last(), edges) == edges);
    assert(apply_edge_changes_spec(c1, edges) == edges.insert(k, edge));
    assert(changes.last() == EdgeChange::<D, S>::Remove { id: edge.id });
    assert(apply_edge_changes_spec(changes, edges) == without_edge(edges.insert(k, edge), edge.id@));
    let p = edge_id_differs::<D, S>(edge.id@);
    assert forall|j: int| 0 <= j < edges.len() implies p(#[trigger] edges[j]) by {
        assert(edge_ids(edges)[j] == edges[j].id@);
    }
    lemma_filter_insert_undone(edges, insert_index(index, edges.len() as int), edge, p);
    assert(without_edge(edges.insert(insert_index(index, edges.len() as int), edge), edge.id@)
        == edges.insert(insert_index(index, edges.len() as int), edge).filter(p));
}

/// `u` follows `t`: the same ids place by place, and every edge of `t`
/// that no change brought in is, unflagged, the same edge in `u`.
pub open spec fn tagged_edges_follow<D, S>(t: Seq<(Edge<D, S>, bool)>, u: Seq<(Edge<D, S>, bool)>) -> bool {
    &&& t.len() == u.len()
    &&& forall|i: int| 0 <= i < t.len() ==> (#[trigger] t[i]).0.id@ == u[i].0.id@
    &&& forall|i: int| 0 <= i < t.len() && !(#[trigger] t[i]).1 ==> !u[i].1 && u[i].0 == t[i].0
}

proof fn lemma_follow_filter_edges<D, S>(t: Seq<(Edge<D, S>, bool)>, u: Seq<(Edge<D, S>, bool)>, id: Seq<char>)
    requires
        tagged_edges_follow(t, u),
    ensures
        tagged_edges_follow(t.filter(tagged_edge_id_differs(id)), u.filter(tagged_edge_id_differs(id))),
    decreases t.len(),
{
    reveal(Seq::filter);
    if t.len() > 0 {
        let tp = t.drop_last();
        let up = u.drop_last();
        assert forall|i: int| 0 <= i < tp.len() implies (#[trigger] tp[i]).0.id@ == up[i].0.id@ by {
            assert(tp[i] == t[i]);
        }
        assert forall|i: int| 0 <= i < tp.len() && !(#[trigger] tp[i]).1 implies !up[i].1 && up[i].0
            == tp[i].0 by {
            assert(tp[i] == t[i]);
        }
        lemma_follow_filter_edges(tp, up, id);
        assert(t[t.len() - 1].0.id@ == u[u.len() - 1].0.id@);
    }
}

proof fn lemma_follow_step_edges<D, S>(t: Seq<(Edge<D, S>, bool)>, u: Seq<(Edge<D, S>, bool)>, c: EdgeChange<D, S>)
    requires
        tagged_edges_follow(t, u),
    ensures
        tagged_edges_follow(tagged_edge_step(t, c), tagged_edge_step(u, c)),
{
    let nt = untag_edges(t);
    let nu = untag_edges(u);
    assert(edge_ids(nt) =~= edge_ids(nu)) by {
        assert forall|i: int| 0 <= i < nt.len() implies edge_ids(nt)[i] == edge_ids(nu)[i] by {
            assert(nt[i] == t[i].0);
            assert(nu[i] == u[i].0);
        }
    }
    lemma_first_index(edge_ids(nt), edge_change_id(c)@);
    match c {
        EdgeChange::Remove { id } => {
            lemma_follow_filter_edges(t, u, id@);
        },
        EdgeChange::Add { edge, index } => {
            let k = insert_index(index, t.len() as int);
            let t2 = tagged_edge_step(t, c);
            let u2 = tagged_edge_step(u, c);
            assert forall|i: int| 0 <= i < t2.len() implies (#[trigger] t2[i]).0.id@ == u2[i].0.id@ by {
                if i > k {
                    assert(t2[i] == t[i - 1] && u2[i] == u[i - 1]);
                }
            }
            assert forall|i: int| 0 <= i < t2.len() && !(#[trigger] t2[i]).1 implies !u2[i].1 && u2[i].0
                == t2[i].0 by {
                if i > k {
                    assert(t2[i] == t[i - 1] && u2[i] == u[i - 1]);
                }
            }
        },
        _ => {
            if let Some(i) = first_index(edge_ids(nt), edge_change_id(c)@) {
                assert(nt[i] == t[i].0);
                assert(nu[i] == u[i].0);
            }
        },
    }
}

proof fn lemma_follow_changes_edges<D, S>(
    changes: Seq<EdgeChange<D, S>>,
    t: Seq<(Edge<D, S>, bool)>,
    u: Seq<(Edge<D, S>, bool)>,
)
    requires
        tagged_edges_follow(t, u),
    ensures
        tagged_edges_follow(tagged_edge_changes(changes, t), tagged_edge_changes(changes, u)),
    decreases changes.len(),
{
    if changes.len() > 0 {
        lemma_follow_changes_edges(changes.drop_last(), t, u);
        lemma_follow_step_edges(
            tagged_edge_changes(changes.drop_last(), t),
            tagged_edge_changes(changes.drop_last(), u),
            changes.last(),
        );
    }
}

proof fn lemma_tagged_edge_changes_compose<D, S>(
    a: Seq<EdgeChange<D, S>>,
    b: Seq<EdgeChange<D, S>>,
    t: Seq<(Edge<D, S>, bool)>,
)
    ensures
        tagged_edge_changes(a + b, t) == tagged_edge_changes(b, tagged_edge_changes(a, t)),
    decreases b.len(),
{
    if b.len() == 0 {
        assert(a + b =~= a);
    } else {
        lemma_tagged_edge_changes_compose(a, b.drop_last(), t);
        assert((a + b).drop_last() =~= a + b.drop_last());
        assert((a + b).last() == b.last());
    }
}

/// Applying `a` and then `b` gives the same edges as applying `a + b` at
/// once, except for the clones made of edges an `Add` or `Replace`
/// brought in: when `mid` is what [`apply_edge_changes`] makes of `edges`
/// with `a`, and `fin` what it makes of `mid` with `b`, every edge of
/// `fin` that no change of `a + b` brought in is exactly the edge at the
/// same place of `apply_edge_changes_spec(a + b, edges)`, which is where
/// `apply_edge_changes` with `a + b` puts that same edge.
pub proof fn lemma_edge_runs_compose<D: Clone, S>(
    a: Seq<EdgeChange<D, S>>,
    b: Seq<EdgeChange<D, S>>,
    edges: Seq<Edge<D, S>>,
    mid: Seq<Edge<D, S>>,
    fin: Seq<Edge<D, S>>,
)
    requires
        edges_match(apply_edge_changes_spec(a, edges), mid),
        forall|i: int|
            0 <= i < mid.len() && !(#[trigger] brought_edges(a, edges)[i]) ==> mid[i]
                == apply_edge_changes_spec(a, edges)[i],
        edges_match(apply_edge_changes_spec(b, mid), fin),
        forall|i: int|
            0 <= i < fin.len() && !(#[trigger] brought_edges(b, mid)[i]) ==> fin[i]
                == apply_edge_changes_spec(b, mid)[i],
    ensures
        fin.len() == apply_edge_changes_spec(a + b, edges).len(),
        brought_edges(a + b, edges).len() == fin.len(),
        forall|i: int|
            0 <= i < fin.len() && !(#[trigger] brought_edges(a + b, edges)[i]) ==> fin[i]
                == apply_edge_changes_spec(a + b, edges)[i],
{
    let t1 = tagged_edge_changes(a, tag_edges(edges));
    lemma_untag_edge_changes(a, edges);
    lemma_untag_edge_changes(b, mid);
    lemma_untag_edge_changes(a + b, edges);
    lemma_tagged_edge_changes_compose(a, b, tag_edges(edges));
    assert forall|i: int| 0 <= i < t1.len() implies (#[trigger] t1[i]).0.id@ == tag_edges(mid)[i].0.id@
        && (!t1[i].1 ==> !tag_edges(mid)[i].1 && tag_edges(mid)[i].0 == t1[i].0) by {
        assert(untag_edges(t1)[i] == t1[i].0);
        assert(edge_clone_of(apply_edge_changes_spec(a, edges)[i], mid[i]));
        assert(brought_edges(a, edges)[i] == t1[i].1);
    }
    lemma_follow_changes_edges(b, t1, tag_edges(mid));
    let t2 = tagged_edge_changes(b, t1);
    let u2 = tagged_edge_changes(b, tag_edges(mid));
    assert forall|i: int|
        0 <= i < fin.len() && !(#[trigger] brought_edges(a + b, edges)[i]) implies fin[i]
        == apply_edge_changes_spec(a + b, edges)[i] by {
        assert(brought_edges(a + b, edges)[i] == t2[i].1);
        assert(brought_edges(b, mid)[i] == u2[i].1);
        assert(untag_edges(u2)[i] == u2[i].0);
        assert(untag_edges(t2)[i] == t2[i].0);
    }
}


/// An anchor change on the edge `id` (the first with that id, at `i`)
/// writes each anchor it carries a patch for, clearing included: a patch
/// `Some(x)` leaves that anchor equal to `x`, whether `x` sets one or clears
/// it, and no patch leaves it as it was. Nothing else changes.
pub proof fn lemma_anchor_change_sets<D, S>(
    edges: Seq<Edge<D, S>>,
    id: EdgeId,
    source_anchor: Option<Option<EdgeAnchor<S>>>,
    target_anchor: Option<Option<EdgeAnchor<S>>>,
    i: int,
)
    requires
        0 <= i < edges.len(),
        edges[i].id@ == id@,
        forall|j: int| 0 <= j < i ==> edges[j].id@ != id@,
    ensures
        ({
            let r = apply_edge_changes_spec(
                seq![EdgeChange::Anchor { id, source_anchor, target_anchor }],
                edges,
            );
            &&& r.len() == edges.len()
            &&& forall|j: int| 0 <= j < edges.len() && j != i ==> r[j] == edges[j]
            &&& r[i].target_anchor == match target_anchor {
                Some(x) => x,
                None => edges[i].target_anchor,
            }
            &&& r[i].source_anchor == match source_anchor {
                Some(x) => x,
                None => edges[i].source_anchor,
            }
            &&& r[i].id == edges[i].id && r[i].source == edges[i].source && r[i].target
                == edges[i].target && r[i].selected == edges[i].selected
        }),
{
    let c = EdgeChange::Anchor { id, source_anchor, target_anchor };
    let cs = seq![c];
    assert(cs.drop_last() =~= Seq::<EdgeChange<D, S>>::empty());
    assert(cs.last() == c);
    assert(apply_edge_changes_spec(cs.drop_last(), edges) == edges);
    lemma_first_index_is(edge_ids(edges), id@, i);
}

} // verus!
