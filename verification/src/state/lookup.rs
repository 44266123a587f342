//! The node lookup: every node of the graph once, by id, paired with its
//! computed internal state, and the queries over it.

use vstd::prelude::*;

use crate::state::changes::{
    apply_node_changes_spec, first_index, is_first_index, is_structural_node_change,
    lemma_first_index, lemma_first_index_is, node_change_step, node_ids,
};
use crate::types::edge::Edge;
use crate::types::handle::{Handle, HandleType};
use crate::types::ids::NodeId;
use crate::types::changes::NodeChange;
use crate::types::node::{node_clone_of, InternalNode, Node, NodeHandleBounds, NodeInternals};
use crate::types::position::Point;

verus! {

/// The ids of lookup entries, in order.
pub open spec fn entry_ids<D, S>(s: Seq<InternalNode<D, S>>) -> Seq<Seq<char>> {
    s.map_values(|e: InternalNode<D, S>| e.node.id@)
}

/// The entry of `s` whose id is `id`, if there is one.
pub open spec fn entry_of<D, S>(s: Seq<InternalNode<D, S>>, id: Seq<char>) -> Option<
    InternalNode<D, S>,
> {
    match first_index(entry_ids(s), id) {
        Some(i) => Some(s[i]),
        None => None,
    }
}

/// The internal state of every node, at most one entry per id.
///
/// Entries keep the order in which their ids were first inserted; the
/// queries below report nodes in that order.
#[derive(Debug)]
pub struct NodeLookup<D, S> {
    entries: Vec<InternalNode<D, S>>,
}

impl<D, S> View for NodeLookup<D, S> {
    type V = Seq<InternalNode<D, S>>;

    closed spec fn view(&self) -> Seq<InternalNode<D, S>> {
        self.entries@
    }
}

/// In a list without duplicate ids, the entry at position `i` is the one
/// found for its id.
proof fn lemma_unique_index(ids: Seq<Seq<char>>, i: int)
    requires
        ids.no_duplicates(),
        0 <= i < ids.len(),
    ensures
        first_index(ids, ids[i]) == Some(i),
{
    lemma_first_index_is(ids, ids[i], i);
}

/// Position of the first entry whose id is `id`.
fn find_entry_index<D, S>(entries: &Vec<InternalNode<D, S>>, id: &NodeId) -> (r: Option<usize>)
    ensures
        match r {
            Some(i) => i < entries@.len() && first_index(entry_ids(entries@), id@) == Some(i as int),
            None => first_index(entry_ids(entries@), id@) is None,
        },
{
    let ghost ids = entry_ids(entries@);
    let mut i: usize = 0;
    while i < entries.len()
        invariant
            i <= entries@.len(),
            ids == entry_ids(entries@),
            forall|j: int| 0 <= j < i ==> ids[j] != id@,
        decreases entries@.len() - i,
    {
        if entries[i].node.id == *id {
            proof {
                lemma_first_index_is(ids, id@, i as int);
            }
            return Some(i);
        }
        i = i + 1;
    }
    proof {
        lemma_first_index(ids, id@);
    }
    None
}

impl<D, S> NodeLookup<D, S> {
    /// No id occurs twice.
    #[verifier::type_invariant]
    closed spec fn unique_ids(self) -> bool {
        entry_ids(self.entries@).no_duplicates()
    }

    /// The entry for `id`, as a map would give it.
    pub open spec fn spec_get(&self, id: Seq<char>) -> Option<InternalNode<D, S>> {
        entry_of(self@, id)
    }

    /// An empty lookup.
    pub fn new() -> (r: Self)
        ensures
            r@.len() == 0,
    {
        NodeLookup { entries: Vec::new() }
    }

    /// Number of nodes.
    pub fn len(&self) -> (r: usize)
        ensures
            r == self@.len(),
    {
        self.entries.len()
    }

    /// Every id occurs at most once.
    pub fn ids_unique(&self)
        ensures
            entry_ids(self@).no_duplicates(),
    {
        proof {
            use_type_invariant(self);
        }
    }

    /// The `i`-th entry, in insertion order.
    pub fn entry(&self, i: usize) -> (r: &InternalNode<D, S>)
        requires
            i < self@.len(),
        ensures
            *r == self@[i as int],
    {
        &self.entries[i]
    }

    /// Position of `id` among the entries.
    fn index_of(&self, id: &NodeId) -> (r: Option<usize>)
        ensures
            match r {
                Some(i) => i < self@.len() && first_index(entry_ids(self@), id@) == Some(i as int),
                None => first_index(entry_ids(self@), id@) is None,
            },
    {
        find_entry_index(&self.entries, id)
    }

    /// The entry for `id`, if the node is present.
    pub fn get(&self, id: &NodeId) -> (r: Option<&InternalNode<D, S>>)
        ensures
            match r {
                Some(e) => self.spec_get(id@) == Some(*e),
                None => self.spec_get(id@) is None,
            },
    {
        match self.index_of(id) {
            Some(i) => Some(&self.entries[i]),
            None => None,
        }
    }

    /// The key under which `id` is stored, if the node is present.
    pub fn get_key(&self, id: &NodeId) -> (r: Option<&NodeId>)
        ensures
            match r {
                Some(k) => self.spec_get(id@) is Some && k@ == id@,
                None => self.spec_get(id@) is None,
            },
    {
        match self.index_of(id) {
            Some(i) => {
                proof {
                    lemma_first_index(entry_ids(self@), id@);
                }
                Some(&self.entries[i].node.id)
            },
            None => None,
        }
    }

    /// Whether a node with this id is present.
    pub fn contains_key(&self, id: &NodeId) -> (r: bool)
        ensures
            r == self.spec_get(id@) is Some,
    {
        self.index_of(id).is_some()
    }

    /// Remove every entry.
    pub fn clear(&mut self)
        ensures
            final(self)@.len() == 0,
    {
        self.entries = Vec::new();
    }

    /// Insert `entry` under its node's id, replacing the entry already stored
    /// for that id (which keeps its place) or adding it at the end.
    pub fn insert(&mut self, entry: InternalNode<D, S>)
        ensures
            final(self)@ == match first_index(entry_ids(old(self)@), entry.node.id@) {
                Some(i) => old(self)@.update(i, entry),
                None => old(self)@.push(entry),
            },
    {
        proof {
            use_type_invariant(&*self);
        }
        let ghost ids = entry_ids(self@);
        let ghost id = entry.node.id@;
        match self.index_of(&entry.node.id) {
            Some(i) => {
                proof {
                    lemma_first_index(ids, id);
                    assert(entry_ids(self@.update(i as int, entry)) =~= ids);
                }
                let mut v = Vec::new();
                std::mem::swap(&mut v, &mut self.entries);
                v.set(i, entry);
                self.entries = v;
            },
            None => {
                proof {
                    lemma_first_index(ids, id);
                    let nids = entry_ids(self@.push(entry));
                    assert(nids =~= ids.push(id));
                    assert forall|a: int, b: int|
                        0 <= a < nids.len() && 0 <= b < nids.len() && a != b implies nids[a]
                        != nids[b] by {
                        if a < ids.len() && b < ids.len() {
                            assert(ids[a] != ids[b]);
                        }
                    }
                }
                let mut v = Vec::new();
                std::mem::swap(&mut v, &mut self.entries);
                v.push(entry);
                self.entries = v;
            },
        }
    }
}

/// The string views of a list of ids.
pub open spec fn ids_of(v: Seq<NodeId>) -> Seq<Seq<char>> {
    v.map_values(|x: NodeId| x@)
}

/// One more element of a prefix passes through `filter` exactly when it
/// satisfies the predicate.
pub proof fn lemma_filter_take_step<A>(s: Seq<A>, p: spec_fn(A) -> bool, i: int)
    requires
        0 <= i < s.len(),
    ensures
        s.take(i + 1).filter(p) == if p(s[i]) {
            s.take(i).filter(p).push(s[i])
        } else {
            s.take(i).filter(p)
        },
{
    reveal(Seq::filter);
    assert(s.take(i + 1).drop_last() =~= s.take(i));
    assert(s.take(i + 1).last() == s[i]);
}

/// Ids, in lookup order, of the entries that satisfy `p`.
pub open spec fn ids_where<D, S>(
    s: Seq<InternalNode<D, S>>,
    p: spec_fn(InternalNode<D, S>) -> bool,
) -> Seq<Seq<char>> {
    entry_ids(s.filter(p))
}

/// Entries that are selected.
pub open spec fn is_selected_entry<D, S>() -> spec_fn(InternalNode<D, S>) -> bool {
    |e: InternalNode<D, S>| e.node.selected
}

/// Entries that are not hidden.
pub open spec fn is_visible_entry<D, S>() -> spec_fn(InternalNode<D, S>) -> bool {
    |e: InternalNode<D, S>| !e.node.hidden
}

/// Return the absolute (world-space) position of a node, or `None` if the id
/// is not found.
pub fn get_node_position<D, S: Copy>(node_lookup: &NodeLookup<D, S>, id: &NodeId) -> (r: Option<
    Point<S>,
>)
    ensures
        r == match node_lookup.spec_get(id@) {
            Some(e) => Some(e.internals.position_absolute),
            None => None::<Point<S>>,
        },
{
    match node_lookup.get(id) {
        Some(n) => Some(n.internals.position_absolute),
        None => None,
    }
}

/// Return `true` if a node with the given id exists and is not hidden.
pub fn is_node_visible<D, S>(node_lookup: &NodeLookup<D, S>, id: &NodeId) -> (r: bool)
    ensures
        r == (node_lookup.spec_get(id@) is Some && !node_lookup.spec_get(id@)->0.node.hidden),
{
    match node_lookup.get(id) {
        Some(n) => !n.node.hidden,
        None => false,
    }
}

/// Return `true` if the node is currently selected.
pub fn is_node_selected<D, S>(node_lookup: &NodeLookup<D, S>, id: &NodeId) -> (r: bool)
    ensures
        r == (node_lookup.spec_get(id@) is Some && node_lookup.spec_get(id@)->0.node.selected),
{
    match node_lookup.get(id) {
        Some(n) => n.node.selected,
        None => false,
    }
}

/// Return the IDs of all currently selected nodes, in lookup order.
pub fn selected_node_ids<D, S>(node_lookup: &NodeLookup<D, S>) -> (r: Vec<NodeId>)
    ensures
        ids_of(r@) == ids_where(node_lookup@, is_selected_entry()),
{
    let ghost s = node_lookup@;
    let mut r: Vec<NodeId> = Vec::new();
    let mut i: usize = 0;
    while i < node_lookup.len()
        invariant
            s == node_lookup@,
            i <= s.len(),
            ids_of(r@) == entry_ids(s.take(i as int).filter(is_selected_entry())),
        decreases s.len() - i,
    {
        let e = node_lookup.entry(i);
        proof {
            lemma_filter_take_step(s, is_selected_entry(), i as int);
        }
        if e.node.selected {
            r.push(e.node.id.clone());
            proof {
                let ghost prev = s.take(i as int).filter(is_selected_entry());
                assert(is_selected_entry::<D, S>()(s[i as int]));
                assert(s.take(i + 1).filter(is_selected_entry()) == prev.push(s[i as int]));
                assert(entry_ids(prev.push(s[i as int])) =~= entry_ids(prev).push(s[i as int].node.id@));
                assert(ids_of(r@) =~= entry_ids(s.take(i + 1).filter(is_selected_entry())));
            }
        }
        i = i + 1;
    }
    proof {
        assert(s.take(i as int) =~= s);
    }
    r
}

/// Return the IDs of all visible (non-hidden) nodes, in lookup order.
pub fn visible_node_ids<D, S>(node_lookup: &NodeLookup<D, S>) -> (r: Vec<NodeId>)
    ensures
        ids_of(r@) == ids_where(node_lookup@, is_visible_entry()),
{
    let ghost s = node_lookup@;
    let mut r: Vec<NodeId> = Vec::new();
    let mut i: usize = 0;
    while i < node_lookup.len()
        invariant
            s == node_lookup@,
            i <= s.len(),
            ids_of(r@) == entry_ids(s.take(i as int).filter(is_visible_entry())),
        decreases s.len() - i,
    {
        let e = node_lookup.entry(i);
        proof {
            lemma_filter_take_step(s, is_visible_entry(), i as int);
        }
        if !e.node.hidden {
            r.push(e.node.id.clone());
            proof {
                let ghost prev = s.take(i as int).filter(is_visible_entry());
                assert(is_visible_entry::<D, S>()(s[i as int]));
                assert(s.take(i + 1).filter(is_visible_entry()) == prev.push(s[i as int]));
                assert(entry_ids(prev.push(s[i as int])) =~= entry_ids(prev).push(s[i as int].node.id@));
                assert(ids_of(r@) =~= entry_ids(s.take(i + 1).filter(is_visible_entry())));
            }
        }
        i = i + 1;
    }
    proof {
        assert(s.take(i as int) =~= s);
    }
    r
}

/// The z-order of the node with id `id`.
pub open spec fn z_of<D, S>(s: Seq<InternalNode<D, S>>, id: Seq<char>) -> i32 {
    entry_of(s, id)->0.internals.z
}

/// `order` lists entry positions `0..n` of `s`, each once, by ascending z.
spec fn z_order<D, S>(s: Seq<InternalNode<D, S>>, order: Seq<usize>, n: int) -> bool {
    &&& order.len() == n
    &&& order.no_duplicates()
    &&& forall|t: int| 0 <= t < order.len() ==> order[t] < n
    &&& forall|k: int| 0 <= k < n ==> #[trigger] order.contains(k as usize)
    &&& forall|a: int, b: int|
        0 <= a < b < order.len() ==> s[#[trigger] order[a] as int].internals.z <= s[#[trigger] order[b] as int].internals.z
    &&& forall|a: int, b: int|
        0 <= a < b < order.len() && s[#[trigger] order[a] as int].internals.z
            == s[#[trigger] order[b] as int].internals.z ==> order[a] < order[b]
}

/// Position of `id` among the entries (meaningful when present).
pub open spec fn pos_of<D, S>(s: Seq<InternalNode<D, S>>, id: Seq<char>) -> int {
    first_index(entry_ids(s), id)->0
}

/// `ids` lists the ids of `s`, each once, by ascending z-order; ids with
/// equal z-order keep their lookup order.
pub open spec fn z_sorted<D, S>(s: Seq<InternalNode<D, S>>, ids: Seq<Seq<char>>) -> bool {
    &&& ids.len() == s.len()
    &&& ids.no_duplicates()
    &&& forall|k: int| 0 <= k < ids.len() ==> entry_ids(s).contains(#[trigger] ids[k])
    &&& forall|j: int| 0 <= j < s.len() ==> ids.contains(#[trigger] entry_ids(s)[j])
    &&& forall|a: int, b: int|
        0 <= a < b < ids.len() ==> z_of(s, #[trigger] ids[a]) <= z_of(s, #[trigger] ids[b])
    &&& forall|a: int, b: int|
        0 <= a < b < ids.len() && z_of(s, #[trigger] ids[a]) == z_of(s, #[trigger] ids[b])
            ==> pos_of(s, ids[a]) < pos_of(s, ids[b])
}

/// The node `id` is present in `s` and not hidden.
pub open spec fn shown_in<D, S>(s: Seq<InternalNode<D, S>>, id: Seq<char>) -> bool {
    entry_of(s, id) matches Some(e) && !e.node.hidden
}

/// Of `ids`, in their order, those whose node is present and not hidden:
/// the nodes the canvas draws.
pub fn visible_ids<D, S>(node_lookup: &NodeLookup<D, S>, ids: &[NodeId]) -> (r: Vec<NodeId>)
    ensures
        ids_of(r@) == ids_of(ids@).filter(|id: Seq<char>| shown_in(node_lookup@, id)),
{
    let ghost p = |id: Seq<char>| shown_in(node_lookup@, id);
    let ghost all = ids_of(ids@);
    let mut r: Vec<NodeId> = Vec::new();
    let mut i: usize = 0;
    while i < ids.len()
        invariant
            i <= ids@.len(),
            all == ids_of(ids@),
            p == (|id: Seq<char>| shown_in(node_lookup@, id)),
            ids_of(r@) == all.take(i as int).filter(p),
        decreases ids@.len() - i,
    {
        proof {
            lemma_filter_take_step(all, p, i as int);
        }
        let shown = match node_lookup.get(&ids[i]) {
            Some(e) => !e.node.hidden,
            None => false,
        };
        if shown {
            let ghost before = r@;
            r.push(ids[i].clone());
            proof {
                assert(ids_of(r@) =~= ids_of(before).push(ids@[i as int]@));
            }
        }
        i = i + 1;
    }
    proof {
        assert(all.take(i as int) =~= all);
    }
    r
}

/// Return all node IDs, sorted by z-index ascending (lowest drawn first);
/// nodes with equal z keep their lookup order.
pub fn sorted_by_z<D, S>(node_lookup: &NodeLookup<D, S>) -> (r: Vec<NodeId>)
    ensures
        z_sorted(node_lookup@, ids_of(r@)),
{
    node_lookup.ids_unique();
    let ghost s = node_lookup@;
    let ghost ids = entry_ids(s);
    let n = node_lookup.len();
    let mut order: Vec<usize> = Vec::new();
    let mut i: usize = 0;
    while i < n
        invariant
            s == node_lookup@,
            n == s.len(),
            i <= n,
            z_order(s, order@, i as int),
        decreases n - i,
    {
        let zi = node_lookup.entry(i).internals.z;
        let mut p: usize = 0;
        while p < order.len() && node_lookup.entry(order[p]).internals.z <= zi
            invariant
                s == node_lookup@,
                n == s.len(),
                i < n,
                zi == s[i as int].internals.z,
                z_order(s, order@, i as int),
                p <= order@.len(),
                forall|t: int| 0 <= t < p ==> s[order@[t] as int].internals.z <= zi,
            decreases order@.len() - p,
        {
            p = p + 1;
        }
        let ghost before = order@;
        proof {
            assert forall|t: int| p <= t < before.len() implies zi < s[before[t] as int].internals.z by {
                if t > p {
                    assert(s[before[p as int] as int].internals.z <= s[before[t] as int].internals.z);
                }
            }
        }
        order.insert(p, i);
        proof {
            let o = order@;
            assert forall|t: int| 0 <= t < o.len() implies o[t] < i + 1 by {
                if t < p {
                    assert(o[t] == before[t]);
                } else if t > p {
                    assert(o[t] == before[t - 1]);
                }
            }
            assert forall|k: int| 0 <= k < i + 1 implies #[trigger] o.contains(k as usize) by {
                if k < i {
                    assert(before.contains(k as usize));
                    let t = choose|t: int| 0 <= t < before.len() && before[t] == k as usize;
                    if t < p {
                        assert(o[t] == k as usize);
                    } else {
                        assert(o[t + 1] == k as usize);
                    }
                } else {
                    assert(o[p as int] == k as usize);
                }
            }
            assert forall|a: int, b: int| 0 <= a < o.len() && 0 <= b < o.len() && a != b implies #[trigger] o[a]
                != #[trigger] o[b] by {
                if a != p && b != p {
                    let aa = if a < p { a } else { a - 1 };
                    let bb = if b < p { b } else { b - 1 };
                    assert(o[a] == before[aa]);
                    assert(o[b] == before[bb]);
                } else if a == p {
                    let bb = if b < p { b } else { b - 1 };
                    assert(o[b] == before[bb]);
                } else {
                    let aa = if a < p { a } else { a - 1 };
                    assert(o[a] == before[aa]);
                }
            }
            assert forall|a: int, b: int|
                0 <= a < b < o.len() && s[#[trigger] o[a] as int].internals.z
                    == s[#[trigger] o[b] as int].internals.z implies o[a] < o[b] by {
                if b < p {
                    assert(o[a] == before[a] && o[b] == before[b]);
                } else if a > p {
                    assert(o[a] == before[a - 1] && o[b] == before[b - 1]);
                } else if a == p {
                    assert(o[b] == before[b - 1]);
                } else if b == p {
                    assert(o[a] == before[a]);
                } else {
                    assert(o[a] == before[a] && o[b] == before[b - 1]);
                }
            }
            assert forall|a: int, b: int| 0 <= a < b < o.len() implies s[#[trigger] o[a] as int].internals.z
                <= s[#[trigger] o[b] as int].internals.z by {
                if b < p {
                    assert(o[a] == before[a] && o[b] == before[b]);
                } else if a > p {
                    assert(o[a] == before[a - 1] && o[b] == before[b - 1]);
                } else if a == p {
                    assert(o[b] == before[b - 1]);
                } else if b == p {
                    assert(o[a] == before[a]);
                } else {
                    assert(o[a] == before[a] && o[b] == before[b - 1]);
                }
            }
        }
        i = i + 1;
    }
    let mut r: Vec<NodeId> = Vec::new();
    let mut k: usize = 0;
    while k < n
        invariant
            s == node_lookup@,
            ids == entry_ids(s),
            ids.no_duplicates(),
            n == s.len(),
            z_order(s, order@, n as int),
            k <= n,
            r@.len() == k,
            forall|t: int| 0 <= t < k ==> (#[trigger] r@[t])@ == ids[order@[t] as int],
        decreases n - k,
    {
        r.push(node_lookup.entry(order[k]).node.id.clone());
        k = k + 1;
    }
    proof {
        let o = order@;
        assert forall|t: int| 0 <= t < r@.len() implies entry_ids(s).contains(#[trigger] r@[t]@) by {
            assert(ids[o[t] as int] == r@[t]@);
        }
        assert forall|j: int| 0 <= j < s.len() implies ids_of(r@).contains(#[trigger] ids[j]) by {
            assert(o.contains(j as usize));
            let t = choose|t: int| 0 <= t < o.len() && o[t] == j as usize;
            assert(ids_of(r@)[t] == ids[j]);
        }
        assert forall|a: int, b: int|
            0 <= a < ids_of(r@).len() && 0 <= b < ids_of(r@).len() && a != b implies ids_of(r@)[a]
            != ids_of(r@)[b] by {
            assert(o[a] != o[b]);
            assert(ids_of(r@)[a] == ids[o[a] as int]);
            assert(ids_of(r@)[b] == ids[o[b] as int]);
        }
        let rs = ids_of(r@);
        assert forall|a: int, b: int| 0 <= a < b < rs.len() implies z_of(s, #[trigger] rs[a])
            <= z_of(s, #[trigger] rs[b]) && (z_of(s, rs[a]) == z_of(s, rs[b]) ==> pos_of(s, rs[a])
            < pos_of(s, rs[b])) by {
            lemma_unique_index(ids, o[a] as int);
            lemma_unique_index(ids, o[b] as int);
            assert(rs[a] == ids[o[a] as int]);
            assert(rs[b] == ids[o[b] as int]);
        }
        assert forall|k: int| 0 <= k < rs.len() implies entry_ids(s).contains(#[trigger] rs[k]) by {
            assert(rs[k] == r@[k]@);
        }
    }
    r
}

/// Edges leaving `node_id` whose target is in the lookup.
pub open spec fn leaves_to_known<D, S, ED, ES>(
    s: Seq<InternalNode<D, S>>,
    node_id: Seq<char>,
) -> spec_fn(Edge<ED, ES>) -> bool {
    |e: Edge<ED, ES>| e.source@ == node_id && entry_of(s, e.target@) is Some
}

/// Edges entering `node_id` whose source is in the lookup.
pub open spec fn enters_from_known<D, S, ED, ES>(
    s: Seq<InternalNode<D, S>>,
    node_id: Seq<char>,
) -> spec_fn(Edge<ED, ES>) -> bool {
    |e: Edge<ED, ES>| e.target@ == node_id && entry_of(s, e.source@) is Some
}

/// Edges that touch `node_id` at either end.
pub open spec fn touches<ED, ES>(node_id: Seq<char>) -> spec_fn(Edge<ED, ES>) -> bool {
    |e: Edge<ED, ES>| e.source@ == node_id || e.target@ == node_id
}

/// The string views of a list of borrowed ids.
pub open spec fn ref_ids_of(v: Seq<&NodeId>) -> Seq<Seq<char>> {
    v.map_values(|x: &NodeId| x@)
}

/// Return the IDs of all nodes that have an edge **from** `node_id`, one per
/// such edge, in edge order; edges whose target is not in the lookup are
/// skipped.
pub fn outgoing_node_ids<'a, ND, ED, S>(
    node_id: &NodeId,
    node_lookup: &'a NodeLookup<ND, S>,
    edges: &'a [Edge<ED, S>],
) -> (r: Vec<&'a NodeId>)
    ensures
        ref_ids_of(r@) == edges@.filter(leaves_to_known(node_lookup@, node_id@)).map_values(
            |e: Edge<ED, S>| e.target@,
        ),
{
    let ghost s = node_lookup@;
    let ghost p = leaves_to_known::<ND, S, ED, S>(s, node_id@);
    let mut r: Vec<&'a NodeId> = Vec::new();
    let mut i: usize = 0;
    while i < edges.len()
        invariant
            s == node_lookup@,
            p == leaves_to_known::<ND, S, ED, S>(s, node_id@),
            i <= edges@.len(),
            ref_ids_of(r@) == edges@.take(i as int).filter(p).map_values(
                |e: Edge<ED, S>| e.target@,
            ),
        decreases edges@.len() - i,
    {
        let e = &edges[i];
        proof {
            lemma_filter_take_step(edges@, p, i as int);
        }
        if e.source == *node_id {
            if let Some(k) = node_lookup.get_key(&e.target) {
                r.push(k);
                proof {
                    let prev = edges@.take(i as int).filter(p);
                    assert(p(edges@[i as int]));
                    assert(prev.push(edges@[i as int]).map_values(|e: Edge<ED, S>| e.target@)
                        =~= prev.map_values(|e: Edge<ED, S>| e.target@).push(e.target@));
                    assert(ref_ids_of(r@) =~= edges@.take(i + 1).filter(p).map_values(
                        |e: Edge<ED, S>| e.target@,
                    ));
                }
            }
        }
        i = i + 1;
    }
    proof {
        assert(edges@.take(i as int) =~= edges@);
    }
    r
}

/// Return the IDs of all nodes that have an edge **to** `node_id`, one per
/// such edge, in edge order; edges whose source is not in the lookup are
/// skipped.
pub fn incoming_node_ids<'a, ND, ED, S>(
    node_id: &NodeId,
    node_lookup: &'a NodeLookup<ND, S>,
    edges: &'a [Edge<ED, S>],
) -> (r: Vec<&'a NodeId>)
    ensures
        ref_ids_of(r@) == edges@.filter(enters_from_known(node_lookup@, node_id@)).map_values(
            |e: Edge<ED, S>| e.source@,
        ),
{
    let ghost s = node_lookup@;
    let ghost p = enters_from_known::<ND, S, ED, S>(s, node_id@);
    let mut r: Vec<&'a NodeId> = Vec::new();
    let mut i: usize = 0;
    while i < edges.len()
        invariant
            s == node_lookup@,
            p == enters_from_known::<ND, S, ED, S>(s, node_id@),
            i <= edges@.len(),
            ref_ids_of(r@) == edges@.take(i as int).filter(p).map_values(
                |e: Edge<ED, S>| e.source@,
            ),
        decreases edges@.len() - i,
    {
        let e = &edges[i];
        proof {
            lemma_filter_take_step(edges@, p, i as int);
        }
        if e.target == *node_id {
            if let Some(k) = node_lookup.get_key(&e.source) {
                r.push(k);
                proof {
                    let prev = edges@.take(i as int).filter(p);
                    assert(p(edges@[i as int]));
                    assert(prev.push(edges@[i as int]).map_values(|e: Edge<ED, S>| e.source@)
                        =~= prev.map_values(|e: Edge<ED, S>| e.source@).push(e.source@));
                    assert(ref_ids_of(r@) =~= edges@.take(i + 1).filter(p).map_values(
                        |e: Edge<ED, S>| e.source@,
                    ));
                }
            }
        }
        i = i + 1;
    }
    proof {
        assert(edges@.take(i as int) =~= edges@);
    }
    r
}

/// Return all edges that are connected to `node_id` (as source or target),
/// in edge order.
pub fn connected_edges<'a, ED, S>(node_id: &NodeId, edges: &'a [Edge<ED, S>]) -> (r: Vec<
    &'a Edge<ED, S>,
>)
    ensures
        r@.map_values(|e: &Edge<ED, S>| *e) == edges@.filter(touches(node_id@)),
{
    let ghost p = touches::<ED, S>(node_id@);
    let mut r: Vec<&'a Edge<ED, S>> = Vec::new();
    let mut i: usize = 0;
    while i < edges.len()
        invariant
            p == touches::<ED, S>(node_id@),
            i <= edges@.len(),
            r@.map_values(|e: &Edge<ED, S>| *e) == edges@.take(i as int).filter(p),
        decreases edges@.len() - i,
    {
        let e = &edges[i];
        proof {
            lemma_filter_take_step(edges@, p, i as int);
        }
        if e.source == *node_id || e.target == *node_id {
            r.push(e);
            proof {
                assert(p(edges@[i as int]));
                assert(r@.map_values(|e: &Edge<ED, S>| *e) =~= edges@.take(i + 1).filter(p));
            }
        }
        i = i + 1;
    }
    proof {
        assert(edges@.take(i as int) =~= edges@);
    }
    r
}

/// Return `true` if `node_id` has at least one source handle.
pub fn has_source_handle<D, S>(node_lookup: &NodeLookup<D, S>, node_id: &NodeId) -> (r: bool)
    ensures
        r == (node_lookup.spec_get(node_id@) is Some
            && node_lookup.spec_get(node_id@)->0.internals.handle_bounds.source@.len() > 0),
{
    match node_lookup.get(node_id) {
        Some(n) => n.internals.handle_bounds.source.len() > 0,
        None => false,
    }
}

/// Return `true` if `node_id` has at least one target handle.
pub fn has_target_handle<D, S>(node_lookup: &NodeLookup<D, S>, node_id: &NodeId) -> (r: bool)
    ensures
        r == (node_lookup.spec_get(node_id@) is Some
            && node_lookup.spec_get(node_id@)->0.internals.handle_bounds.target@.len() > 0),
{
    match node_lookup.get(node_id) {
        Some(n) => n.internals.handle_bounds.target.len() > 0,
        None => false,
    }
}

/// The handles of the given type resolved for an entry.
pub open spec fn handles_of<D, S>(e: InternalNode<D, S>, handle_type: HandleType) -> Seq<Handle<S>> {
    match handle_type {
        HandleType::Source => e.internals.handle_bounds.source@,
        HandleType::Target => e.internals.handle_bounds.target@,
    }
}

/// `h` carries the id `hid`.
pub open spec fn has_handle_id<S>(h: Handle<S>, hid: Seq<char>) -> bool {
    h.id is Some && h.id->0@ == hid
}

/// `i` is the first handle of `hs` with id `hid`.
pub open spec fn is_first_handle<S>(hs: Seq<Handle<S>>, hid: Seq<char>, i: int) -> bool {
    &&& 0 <= i < hs.len()
    &&& has_handle_id(hs[i], hid)
    &&& forall|j: int| 0 <= j < i ==> !has_handle_id(hs[j], hid)
}

/// Return the handle of a node that `handle_id` names: among the node's
/// handles of type `handle_type`, the first one with that id, or the first
/// one at all when `handle_id` is `None`. `None` when the node or the handle
/// is not found.
pub fn find_handle<'a, D, S>(
    node_lookup: &'a NodeLookup<D, S>,
    node_id: &NodeId,
    handle_type: HandleType,
    handle_id: Option<&str>,
) -> (r: Option<&'a Handle<S>>)
    ensures
        node_lookup.spec_get(node_id@) is None ==> r is None,
        node_lookup.spec_get(node_id@) matches Some(e) ==> {
            let hs = handles_of(e, handle_type);
            match handle_id {
                None => if hs.len() > 0 {
                    r == Some(&hs[0])
                } else {
                    r is None
                },
                Some(hid) => match r {
                    Some(h) => exists|i: int| is_first_handle(hs, hid@, i) && *h == hs[i],
                    None => forall|i: int| 0 <= i < hs.len() ==> !has_handle_id(hs[i], hid@),
                },
            }
        },
{
    let node = match node_lookup.get(node_id) {
        Some(n) => n,
        None => return None,
    };
    let handles = match handle_type {
        HandleType::Source => &node.internals.handle_bounds.source,
        HandleType::Target => &node.internals.handle_bounds.target,
    };
    match handle_id {
        None => {
            if handles.len() > 0 {
                Some(&handles[0])
            } else {
                None
            }
        },
        Some(hid) => {
            let wanted = hid.to_owned();
            let mut i: usize = 0;
            while i < handles.len()
                invariant
                    i <= handles@.len(),
                    wanted@ == hid@,
                    handle_id == Some(hid),
                    node_lookup.spec_get(node_id@) == Some(*node),
                    handles@ == handles_of(*node, handle_type),
                    forall|j: int| 0 <= j < i ==> !has_handle_id(handles@[j], hid@),
                decreases handles@.len() - i,
            {
                let found = match &handles[i].id {
                    Some(x) => *x == wanted,
                    None => false,
                };
                if found {
                    proof {
                        assert(is_first_handle(handles@, hid@, i as int));
                        assert(exists|k: int|
                            is_first_handle(handles@, hid@, k) && handles@[i as int] == handles@[k]);
                    }
                    return Some(&handles[i]);
                }
                i = i + 1;
            }
            None
        },
    }
}

// ───────────────────────────── building ─────────────────────────────

/// What inserting `e` does to a list of entries: it replaces the entry with
/// the same id in place, or is added at the end.
pub open spec fn insert_entry<D, S>(s: Seq<InternalNode<D, S>>, e: InternalNode<D, S>) -> Seq<
    InternalNode<D, S>,
> {
    match first_index(entry_ids(s), e.node.id@) {
        Some(i) => s.update(i, e),
        None => s.push(e),
    }
}

/// The internal state a node starts with: its absolute position is its own
/// position, its z-order its `z_index` (0 when unset).
pub open spec fn initial_entry<D, S>(n: Node<D, S>, hb: NodeHandleBounds<S>) -> InternalNode<
    D,
    S,
> {
    InternalNode {
        node: n,
        internals: NodeInternals {
            position_absolute: n.position,
            z: match n.z_index {
                Some(z) => z,
                None => 0,
            },
            handle_bounds: hb,
        },
    }
}

/// The entries built from `nodes` (with their handle geometry `bounds`), by
/// inserting each node in order: a later node with an id already present
/// replaces the earlier one.
pub open spec fn build_entries<D, S>(
    nodes: Seq<Node<D, S>>,
    bounds: Seq<NodeHandleBounds<S>>,
) -> Seq<InternalNode<D, S>>
    decreases nodes.len(),
{
    if nodes.len() == 0 {
        Seq::empty()
    } else {
        insert_entry(
            build_entries(nodes.drop_last(), bounds.take(nodes.len() - 1)),
            initial_entry(nodes.last(), bounds[nodes.len() - 1]),
        )
    }
}

/// `b` is `a` with its node cloned.
pub open spec fn entry_clone_of<D: Clone, S>(a: InternalNode<D, S>, b: InternalNode<D, S>) -> bool {
    &&& node_clone_of(a.node, b.node)
    &&& b.internals == a.internals
}

/// `b` holds the entries of `a`, in order, each with its node cloned.
pub open spec fn entries_match<D: Clone, S>(
    a: Seq<InternalNode<D, S>>,
    b: Seq<InternalNode<D, S>>,
) -> bool {
    &&& a.len() == b.len()
    &&& forall|i: int| 0 <= i < a.len() ==> #[trigger] entry_clone_of(a[i], b[i])
}

proof fn lemma_entries_match_ids<D: Clone, S>(a: Seq<InternalNode<D, S>>, b: Seq<InternalNode<D, S>>)
    requires
        entries_match(a, b),
    ensures
        entry_ids(a) == entry_ids(b),
{
    assert forall|i: int| 0 <= i < a.len() implies entry_ids(a)[i] == entry_ids(b)[i] by {
        assert(entry_clone_of(a[i], b[i]));
    }
    assert(entry_ids(a) =~= entry_ids(b));
}

impl<D: Clone, S: Copy> NodeLookup<D, S> {
    /// Build the lookup from the node list: each node (cloned) with its handle
    /// geometry `bounds[i]`, absolute position equal to its position and
    /// z-order its `z_index` or 0; a later node replaces an earlier one with
    /// the same id.
    pub fn from_nodes(nodes: &Vec<Node<D, S>>, bounds: Vec<NodeHandleBounds<S>>) -> (r: Self)
        requires
            bounds@.len() == nodes@.len(),
        ensures
            entries_match(build_entries(nodes@, bounds@), r@),
    {
        let mut r = NodeLookup::new();
        let mut bounds = bounds;
        let ghost ob = bounds@;
        proof {
            assert(nodes@.take(0) =~= Seq::<Node<D, S>>::empty());
        }
        let mut i: usize = 0;
        while i < nodes.len()
            invariant
                i <= nodes@.len(),
                ob.len() == nodes@.len(),
                bounds@ == ob.skip(i as int),
                entries_match(build_entries(nodes@.take(i as int), ob.take(i as int)), r@),
            decreases nodes@.len() - i,
        {
            let hb = bounds.remove(0);
            let n = &nodes[i];
            let e = InternalNode {
                node: n.clone(),
                internals: NodeInternals {
                    position_absolute: n.position,
                    z: match n.z_index {
                        Some(z) => z,
                        None => 0,
                    },
                    handle_bounds: hb,
                },
            };
            let ghost model = build_entries(nodes@.take(i as int), ob.take(i as int));
            let ghost before = r@;
            proof {
                lemma_entries_match_ids(model, before);
                assert(hb == ob[i as int]);
            }
            r.insert(e);
            proof {
                assert(bounds@ =~= ob.skip(i + 1));
                let t = nodes@.take(i + 1);
                assert(t.drop_last() =~= nodes@.take(i as int));
                assert(ob.take(i + 1).take(i as int) =~= ob.take(i as int));
                assert(t.last() == nodes@[i as int]);
                let spec_e = initial_entry(nodes@[i as int], ob[i as int]);
                assert(entry_clone_of(spec_e, e));
                let m2 = build_entries(t, ob.take(i + 1));
                assert(m2 == insert_entry(model, spec_e));
                lemma_first_index(entry_ids(model), spec_e.node.id@);
                assert forall|j: int| 0 <= j < m2.len() implies #[trigger] entry_clone_of(
                    m2[j],
                    r@[j],
                ) by {
                    if j < model.len() {
                        assert(entry_clone_of(model[j], before[j]));
                    }
                }
            }
            i = i + 1;
        }
        proof {
            assert(nodes@.take(i as int) =~= nodes@);
            assert(ob.take(i as int) =~= ob);
        }
        r
    }
}

// ───────────────────────────── parents ─────────────────────────────

/// A child node whose absolute position is its parent's absolute position
/// plus its own (relative) position.
#[derive(Debug)]
pub struct ParentOffset<S> {
    /// The child node.
    pub child: NodeId,
    /// The parent's absolute position, as it was before parents were resolved.
    pub parent_position: Point<S>,
}

/// The entry of `n`'s parent in `s0`, when `n` has a parent that is present.
pub open spec fn parent_entry<D, S>(s0: Seq<InternalNode<D, S>>, n: Node<D, S>) -> Option<
    InternalNode<D, S>,
> {
    match n.parent_id {
        Some(pid) => entry_of(s0, pid@),
        None => None,
    }
}

/// Raise the entry of `n` above z-order `pz` when it is not already above.
pub open spec fn raise_child<D, S>(s: Seq<InternalNode<D, S>>, n: Node<D, S>, pz: i32) -> Seq<
    InternalNode<D, S>,
> {
    match first_index(entry_ids(s), n.id@) {
        Some(c) => if s[c].internals.z <= pz {
            s.update(
                c,
                InternalNode {
                    internals: NodeInternals { z: (pz + 1) as i32, ..s[c].internals },
                    ..s[c]
                },
            )
        } else {
            s
        },
        None => s,
    }
}

/// The entries after resolving parents for `nodes` in order: each child
/// present whose parent is present is drawn above the parent's z-order as it
/// was in `s0` (single-level: a parent's own raise is not seen by its
/// children in the same pass).
pub open spec fn resolve_parents_spec<D, S>(
    s0: Seq<InternalNode<D, S>>,
    nodes: Seq<Node<D, S>>,
) -> Seq<InternalNode<D, S>>
    decreases nodes.len(),
{
    if nodes.len() == 0 {
        s0
    } else {
        let s = resolve_parents_spec(s0, nodes.drop_last());
        match parent_entry(s0, nodes.last()) {
            Some(pe) => raise_child(s, nodes.last(), pe.internals.z),
            None => s,
        }
    }
}

/// The (child id, parent absolute position) pairs that parent resolution
/// reports, in node order.
pub open spec fn parent_offsets_spec<D, S>(
    s0: Seq<InternalNode<D, S>>,
    nodes: Seq<Node<D, S>>,
) -> Seq<(Seq<char>, Point<S>)>
    decreases nodes.len(),
{
    if nodes.len() == 0 {
        Seq::empty()
    } else {
        let r = parent_offsets_spec(s0, nodes.drop_last());
        let n = nodes.last();
        match parent_entry(s0, n) {
            Some(pe) => if entry_of(s0, n.id@) is Some {
                r.push((n.id@, pe.internals.position_absolute))
            } else {
                r
            },
            None => r,
        }
    }
}

/// Every parent that resolution reads has a z-order below `i32::MAX`, so
/// that its children can be drawn one above it.
pub open spec fn parents_below_max_z<D, S>(
    s0: Seq<InternalNode<D, S>>,
    nodes: Seq<Node<D, S>>,
) -> bool {
    forall|k: int|
        0 <= k < nodes.len() ==> (parent_entry(s0, #[trigger] nodes[k]) matches Some(pe)
            ==> pe.internals.z < i32::MAX)
}

/// Raising entries never changes which ids are present, or where.
proof fn lemma_resolve_keeps_ids<D, S>(s0: Seq<InternalNode<D, S>>, nodes: Seq<Node<D, S>>)
    ensures
        entry_ids(resolve_parents_spec(s0, nodes)) == entry_ids(s0),
    decreases nodes.len(),
{
    if nodes.len() > 0 {
        lemma_resolve_keeps_ids(s0, nodes.drop_last());
        let s = resolve_parents_spec(s0, nodes.drop_last());
        lemma_first_index(entry_ids(s), nodes.last().id@);
        assert(entry_ids(resolve_parents_spec(s0, nodes)) =~= entry_ids(s));
    }
}

impl<D, S: Copy> NodeLookup<D, S> {
    /// Whether [`NodeLookup::resolve_parents`] may be called for `nodes`: no
    /// parent it reads is at z-order `i32::MAX`.
    pub fn can_resolve_parents(&self, nodes: &Vec<Node<D, S>>) -> (r: bool)
        ensures
            r == parents_below_max_z(self@, nodes@),
    {
        let mut k: usize = 0;
        while k < nodes.len()
            invariant
                k <= nodes@.len(),
                forall|j: int|
                    0 <= j < k ==> (parent_entry(self@, #[trigger] nodes@[j]) matches Some(pe)
                        ==> pe.internals.z < i32::MAX),
            decreases nodes@.len() - k,
        {
            if let Some(pid) = &nodes[k].parent_id {
                if let Some(pe) = self.get(pid) {
                    if pe.internals.z == i32::MAX {
                        return false;
                    }
                }
            }
            k = k + 1;
        }
        true
    }

    /// Resolve parent relationships (single level) for `nodes`: every child
    /// present whose parent is present is raised above the parent's z-order,
    /// and reported with the parent's absolute position, so that its own
    /// absolute position can be offset by it.
    pub fn resolve_parents(&mut self, nodes: &Vec<Node<D, S>>) -> (r: Vec<ParentOffset<S>>)
        requires
            parents_below_max_z(old(self)@, nodes@),
        ensures
            final(self)@ == resolve_parents_spec(old(self)@, nodes@),
            r@.map_values(|o: ParentOffset<S>| (o.child@, o.parent_position))
                == parent_offsets_spec(old(self)@, nodes@),
    {
        proof {
            use_type_invariant(&*self);
        }
        let ghost s0 = self@;
        // Parent data is read before any child is raised.
        let mut parent_data: Vec<Option<(Point<S>, i32)>> = Vec::new();
        let mut k: usize = 0;
        while k < nodes.len()
            invariant
                s0 == self@,
                k <= nodes@.len(),
                parent_data@.len() == k,
                forall|j: int|
                    0 <= j < k ==> #[trigger] parent_data@[j] == match parent_entry(
                        s0,
                        nodes@[j],
                    ) {
                        Some(pe) => Some((pe.internals.position_absolute, pe.internals.z)),
                        None => None,
                    },
            decreases nodes@.len() - k,
        {
            let d = match &nodes[k].parent_id {
                Some(pid) => match self.get(pid) {
                    Some(pe) => Some((pe.internals.position_absolute, pe.internals.z)),
                    None => None,
                },
                None => None,
            };
            parent_data.push(d);
            k = k + 1;
        }
        let mut entries: Vec<InternalNode<D, S>> = Vec::new();
        std::mem::swap(&mut entries, &mut self.entries);
        let mut out: Vec<ParentOffset<S>> = Vec::new();
        let mut k: usize = 0;
        proof {
            assert(nodes@.take(0) =~= Seq::<Node<D, S>>::empty());
            assert(out@.map_values(|o: ParentOffset<S>| (o.child@, o.parent_position))
                =~= parent_offsets_spec(s0, nodes@.take(0)));
        }
        while k < nodes.len()
            invariant
                k <= nodes@.len(),
                parent_data@.len() == nodes@.len(),
                parents_below_max_z(s0, nodes@),
                entry_ids(s0).no_duplicates(),
                forall|j: int|
                    0 <= j < nodes@.len() ==> #[trigger] parent_data@[j] == match parent_entry(
                        s0,
                        nodes@[j],
                    ) {
                        Some(pe) => Some((pe.internals.position_absolute, pe.internals.z)),
                        None => None,
                    },
                entries@ == resolve_parents_spec(s0, nodes@.take(k as int)),
                out@.map_values(|o: ParentOffset<S>| (o.child@, o.parent_position))
                    == parent_offsets_spec(s0, nodes@.take(k as int)),
            decreases nodes@.len() - k,
        {
            let ghost before = entries@;
            let ghost before_out = out@;
            proof {
                lemma_resolve_keeps_ids(s0, nodes@.take(k as int));
                assert(nodes@.take(k + 1).drop_last() =~= nodes@.take(k as int));
                assert(nodes@.take(k + 1).last() == nodes@[k as int]);
                lemma_first_index(entry_ids(before), nodes@[k as int].id@);
            }
            if let Some((pp, pz)) = parent_data[k] {
                proof {
                    assert(parent_data@[k as int] == Some((pp, pz)));
                }
                let found = find_entry_index(&entries, &nodes[k].id);
                if let Some(c) = found {
                    let mut e = entries.remove(c);
                    if e.internals.z <= pz {
                        e.internals.z = pz + 1;
                    }
                    entries.insert(c, e);
                    out.push(ParentOffset { child: nodes[k].id.clone(), parent_position: pp });
                    proof {
                        lemma_unique_index(entry_ids(s0), c as int);
                        assert(entry_of(s0, nodes@[k as int].id@) is Some);
                        assert(entries@ =~= resolve_parents_spec(s0, nodes@.take(k + 1)));
                        assert(out@.map_values(|o: ParentOffset<S>| (o.child@, o.parent_position))
                            =~= parent_offsets_spec(s0, nodes@.take(k + 1)));
                    }
                } else {
                    proof {
                        assert(entry_of(s0, nodes@[k as int].id@) is None);
                        assert(entries@ =~= resolve_parents_spec(s0, nodes@.take(k + 1)));
                        assert(out@.map_values(|o: ParentOffset<S>| (o.child@, o.parent_position))
                            =~= parent_offsets_spec(s0, nodes@.take(k + 1)));
                    }
                }
            } else {
                proof {
                    assert(entries@ =~= resolve_parents_spec(s0, nodes@.take(k + 1)));
                    assert(out@.map_values(|o: ParentOffset<S>| (o.child@, o.parent_position))
                        =~= parent_offsets_spec(s0, nodes@.take(k + 1)));
                }
            }
            k = k + 1;
        }
        proof {
            assert(nodes@.take(k as int) =~= nodes@);
            lemma_resolve_keeps_ids(s0, nodes@);
        }
        self.entries = entries;
        out
    }
}

// ───────────────────────────── in-place updates ─────────────────────────────

/// What a non-structural node change does to the lookup entry of its node:
/// a new position is also the new absolute position; dimensions set the
/// measured and explicit size; selection sets the flag. Other changes, and
/// changes for ids not present, leave the entries as they are.
pub open spec fn lookup_change_step<D, S>(s: Seq<InternalNode<D, S>>, c: NodeChange<D, S>) -> Seq<
    InternalNode<D, S>,
> {
    match c {
        NodeChange::Position { id, position, dragging } => match first_index(entry_ids(s), id@) {
            Some(i) => s.update(
                i,
                InternalNode {
                    node: Node {
                        position: match position {
                            Some(p) => p,
                            None => s[i].node.position,
                        },
                        dragging: match dragging {
                            Some(d) => d,
                            None => s[i].node.dragging,
                        },
                        ..s[i].node
                    },
                    internals: NodeInternals {
                        position_absolute: match position {
                            Some(p) => p,
                            None => s[i].internals.position_absolute,
                        },
                        ..s[i].internals
                    },
                },
            ),
            None => s,
        },
        NodeChange::Dimensions { id, dimensions } => match first_index(entry_ids(s), id@) {
            Some(i) => s.update(
                i,
                InternalNode {
                    node: Node {
                        measured: dimensions,
                        width: match dimensions {
                            Some(d) => Some(d.width),
                            None => s[i].node.width,
                        },
                        height: match dimensions {
                            Some(d) => Some(d.height),
                            None => s[i].node.height,
                        },
                        ..s[i].node
                    },
                    ..s[i]
                },
            ),
            None => s,
        },
        NodeChange::Select { id, selected } => match first_index(entry_ids(s), id@) {
            Some(i) => s.update(i, InternalNode { node: Node { selected, ..s[i].node }, ..s[i] }),
            None => s,
        },
        _ => s,
    }
}

/// The entries after applying the non-structural part of `changes` in order.
pub open spec fn lookup_changes_spec<D, S>(
    changes: Seq<NodeChange<D, S>>,
    s: Seq<InternalNode<D, S>>,
) -> Seq<InternalNode<D, S>>
    decreases changes.len(),
{
    if changes.len() == 0 {
        s
    } else {
        lookup_change_step(lookup_changes_spec(changes.drop_last(), s), changes.last())
    }
}

/// The change moves a node that is present.
pub open spec fn moves_present_node<D, S>(s: Seq<InternalNode<D, S>>, c: NodeChange<D, S>) -> bool {
    c matches NodeChange::Position { id, position, .. } && position is Some && entry_of(s, id@) is Some
}

/// The change resizes a node that is present.
pub open spec fn resizes_present_node<D, S>(s: Seq<InternalNode<D, S>>, c: NodeChange<D, S>) -> bool {
    c matches NodeChange::Dimensions { id, .. } && entry_of(s, id@) is Some
}

/// Ids of the present nodes that `changes` resize, in change order.
pub open spec fn resized_ids<D, S>(
    changes: Seq<NodeChange<D, S>>,
    s: Seq<InternalNode<D, S>>,
) -> Seq<Seq<char>>
    decreases changes.len(),
{
    if changes.len() == 0 {
        Seq::empty()
    } else {
        let r = resized_ids(changes.drop_last(), s);
        if resizes_present_node(s, changes.last()) {
            r.push(changes.last()->Dimensions_id@)
        } else {
            r
        }
    }
}

/// `b` holds the same nodes as `a`, in the same order: only the computed
/// internal state (absolute position, z-order, handle geometry) may differ.
pub open spec fn same_nodes<D, S>(a: Seq<InternalNode<D, S>>, b: Seq<InternalNode<D, S>>) -> bool {
    &&& a.len() == b.len()
    &&& forall|i: int| 0 <= i < a.len() ==> (#[trigger] b[i]).node == a[i].node
}

/// Resolving parents changes only internal state.
proof fn lemma_resolve_same_nodes<D, S>(s0: Seq<InternalNode<D, S>>, nodes: Seq<Node<D, S>>)
    ensures
        same_nodes(s0, resolve_parents_spec(s0, nodes)),
    decreases nodes.len(),
{
    if nodes.len() > 0 {
        lemma_resolve_same_nodes(s0, nodes.drop_last());
        let s = resolve_parents_spec(s0, nodes.drop_last());
        lemma_first_index(entry_ids(s), nodes.last().id@);
    }
}

/// Resolving parents changes z-orders only: every entry keeps its node and
/// its absolute position.
proof fn lemma_resolve_keeps_positions<D, S>(s0: Seq<InternalNode<D, S>>, nodes: Seq<Node<D, S>>)
    ensures
        same_nodes(s0, resolve_parents_spec(s0, nodes)),
        forall|i: int|
            0 <= i < s0.len() ==> (#[trigger] resolve_parents_spec(s0, nodes)[i]).internals.position_absolute
                == s0[i].internals.position_absolute,
    decreases nodes.len(),
{
    lemma_resolve_same_nodes(s0, nodes);
    if nodes.len() > 0 {
        lemma_resolve_keeps_positions(s0, nodes.drop_last());
        let s = resolve_parents_spec(s0, nodes.drop_last());
        lemma_first_index(entry_ids(s), nodes.last().id@);
    }
}

/// Two lookups with the same nodes and absolute positions, entry by entry,
/// report the same parent offsets.
proof fn lemma_offsets_agree<D, S>(
    a: Seq<InternalNode<D, S>>,
    b: Seq<InternalNode<D, S>>,
    nodes: Seq<Node<D, S>>,
)
    requires
        same_nodes(a, b),
        forall|i: int|
            0 <= i < a.len() ==> (#[trigger] b[i]).internals.position_absolute
                == a[i].internals.position_absolute,
    ensures
        parent_offsets_spec(a, nodes) == parent_offsets_spec(b, nodes),
    decreases nodes.len(),
{
    assert(entry_ids(a) =~= entry_ids(b));
    if nodes.len() > 0 {
        lemma_offsets_agree(a, b, nodes.drop_last());
        let n = nodes.last();
        lemma_first_index(entry_ids(a), n.id@);
        if let Some(pid) = n.parent_id {
            lemma_first_index(entry_ids(a), pid@);
        }
    }
}

/// Parent resolution leaves the parent offsets as they were: the offsets
/// reported for a lookup are those of the lookup after resolution.
pub proof fn lemma_offsets_after_resolve<D, S>(s0: Seq<InternalNode<D, S>>, nodes: Seq<Node<D, S>>)
    ensures
        parent_offsets_spec(resolve_parents_spec(s0, nodes), nodes) == parent_offsets_spec(s0, nodes),
{
    lemma_resolve_keeps_positions(s0, nodes);
    lemma_offsets_agree(s0, resolve_parents_spec(s0, nodes), nodes);
}

/// What the in-place update of the lookup leaves to be done: parent offsets
/// to recompute, and handle geometry to rebuild for resized nodes.
#[derive(Debug)]
pub struct IncrementalUpdate {
    /// Some node present was moved, so absolute positions of children must be
    /// recomputed.
    pub needs_parent_update: bool,
    /// Nodes whose dimensions changed, in change order.
    pub resized: Vec<NodeId>,
}

proof fn lemma_lookup_changes_keep_ids<D, S>(
    changes: Seq<NodeChange<D, S>>,
    s: Seq<InternalNode<D, S>>,
)
    ensures
        entry_ids(lookup_changes_spec(changes, s)) == entry_ids(s),
    decreases changes.len(),
{
    if changes.len() > 0 {
        lemma_lookup_changes_keep_ids(changes.drop_last(), s);
        let m = lookup_changes_spec(changes.drop_last(), s);
        let c = changes.last();
        let id = crate::state::changes::node_change_id(c);
        lemma_first_index(entry_ids(m), id@);
        assert(entry_ids(lookup_change_step(m, c)) =~= entry_ids(m));
    }
}

impl<D, S: Copy> NodeLookup<D, S> {
    /// Apply position, dimension and selection changes to the entries in
    /// place (structural changes are ignored: they need a rebuild).
    pub fn apply_incremental_updates(&mut self, changes: &[NodeChange<D, S>]) -> (r:
        IncrementalUpdate)
        ensures
            final(self)@ == lookup_changes_spec(changes@, old(self)@),
            r.needs_parent_update == exists|k: int|
                0 <= k < changes@.len() && moves_present_node(old(self)@, #[trigger] changes@[k]),
            ids_of(r.resized@) == resized_ids(changes@, old(self)@),
    {
        proof {
            use_type_invariant(&*self);
        }
        let ghost s0 = self@;
        let mut entries: Vec<InternalNode<D, S>> = Vec::new();
        std::mem::swap(&mut entries, &mut self.entries);
        let mut needs_parent_update = false;
        let mut resized: Vec<NodeId> = Vec::new();
        proof {
            assert(changes@.take(0) =~= Seq::<NodeChange<D, S>>::empty());
        }
        let mut ci: usize = 0;
        while ci < changes.len()
            invariant
                ci <= changes@.len(),
                entry_ids(s0).no_duplicates(),
                entries@ == lookup_changes_spec(changes@.take(ci as int), s0),
                needs_parent_update == exists|k: int|
                    0 <= k < ci && moves_present_node(s0, #[trigger] changes@[k]),
                ids_of(resized@) == resized_ids(changes@.take(ci as int), s0),
            decreases changes@.len() - ci,
        {
            let ghost before = entries@;
            proof {
                lemma_lookup_changes_keep_ids(changes@.take(ci as int), s0);
                assert(changes@.take(ci + 1).drop_last() =~= changes@.take(ci as int));
                assert(changes@.take(ci + 1).last() == changes@[ci as int]);
                let id = crate::state::changes::node_change_id(changes@[ci as int]);
                lemma_first_index(entry_ids(before), id@);
            }
            match &changes[ci] {
                NodeChange::Position { id, position, dragging } => {
                    if let Some(i) = find_entry_index(&entries, id) {
                        let mut e = entries.remove(i);
                        if let Some(pos) = position {
                            e.node.position = *pos;
                            e.internals.position_absolute = *pos;
                            needs_parent_update = true;
                        }
                        if let Some(d) = dragging {
                            e.node.dragging = *d;
                        }
                        entries.insert(i, e);
                        proof {
                            assert(entries@ =~= lookup_change_step(before, changes@[ci as int]));
                        }
                    }
                },
                NodeChange::Dimensions { id, dimensions } => {
                    if let Some(i) = find_entry_index(&entries, id) {
                        let mut e = entries.remove(i);
                        e.node.measured = *dimensions;
                        if let Some(d) = dimensions {
                            e.node.width = Some(d.width);
                            e.node.height = Some(d.height);
                        }
                        entries.insert(i, e);
                        resized.push(id.clone());
                        proof {
                            assert(entries@ =~= lookup_change_step(before, changes@[ci as int]));
                            assert(ids_of(resized@) =~= resized_ids(changes@.take(ci + 1), s0));
                        }
                    }
                },
                NodeChange::Select { id, selected } => {
                    if let Some(i) = find_entry_index(&entries, id) {
                        let mut e = entries.remove(i);
                        e.node.selected = *selected;
                        entries.insert(i, e);
                        proof {
                            assert(entries@ =~= lookup_change_step(before, changes@[ci as int]));
                        }
                    }
                },
                _ => {},
            }
            proof {
                assert(entries@ =~= lookup_changes_spec(changes@.take(ci + 1), s0));
                assert(ids_of(resized@) =~= resized_ids(changes@.take(ci + 1), s0));
                if moves_present_node(s0, changes@[ci as int]) {
                    assert(needs_parent_update);
                }
            }
            ci = ci + 1;
        }
        proof {
            assert(changes@.take(ci as int) =~= changes@);
            lemma_lookup_changes_keep_ids(changes@, s0);
        }
        self.entries = entries;
        IncrementalUpdate { needs_parent_update, resized }
    }

    /// Set the absolute position of the node `id`, if present.
    pub fn set_position_absolute(&mut self, id: &NodeId, position: Point<S>)
        ensures
            same_nodes(old(self)@, final(self)@),
            final(self)@ == match first_index(entry_ids(old(self)@), id@) {
                Some(i) => old(self)@.update(
                    i,
                    InternalNode {
                        internals: NodeInternals {
                            position_absolute: position,
                            ..old(self)@[i].internals
                        },
                        ..old(self)@[i]
                    },
                ),
                None => old(self)@,
            },
    {
        proof {
            use_type_invariant(&*self);
        }
        let ghost s0 = self@;
        if let Some(i) = self.index_of(id) {
            let mut entries: Vec<InternalNode<D, S>> = Vec::new();
            std::mem::swap(&mut entries, &mut self.entries);
            let mut e = entries.remove(i);
            e.internals.position_absolute = position;
            entries.insert(i, e);
            proof {
                assert(entry_ids(entries@) =~= entry_ids(s0));
            }
            self.entries = entries;
        }
    }

    /// Set the resolved handle geometry of the node `id`, if present.
    pub fn set_handle_bounds(&mut self, id: &NodeId, handle_bounds: NodeHandleBounds<S>)
        ensures
            same_nodes(old(self)@, final(self)@),
            final(self)@ == match first_index(entry_ids(old(self)@), id@) {
                Some(i) => old(self)@.update(
                    i,
                    InternalNode {
                        internals: NodeInternals { handle_bounds, ..old(self)@[i].internals },
                        ..old(self)@[i]
                    },
                ),
                None => old(self)@,
            },
    {
        proof {
            use_type_invariant(&*self);
        }
        let ghost s0 = self@;
        if let Some(i) = self.index_of(id) {
            let mut entries: Vec<InternalNode<D, S>> = Vec::new();
            std::mem::swap(&mut entries, &mut self.entries);
            let mut e = entries.remove(i);
            e.internals.handle_bounds = handle_bounds;
            entries.insert(i, e);
            proof {
                assert(entry_ids(entries@) =~= entry_ids(s0));
            }
            self.entries = entries;
        }
    }
}

// ───────────────────────────── keeping the lookup in sync ─────────────────────────────

/// The lookup mirrors the node list: node ids are unique, every entry is a
/// clone of the node with its id, and every node has an entry.
pub open spec fn lookup_in_sync<D: Clone, S>(
    nodes: Seq<Node<D, S>>,
    s: Seq<InternalNode<D, S>>,
) -> bool {
    &&& node_ids(nodes).no_duplicates()
    &&& entry_ids(s).no_duplicates()
    &&& forall|i: int|
        0 <= i < s.len() ==> (first_index(node_ids(nodes), #[trigger] entry_ids(s)[i]) matches Some(
            k,
        ) && node_clone_of(nodes[k], s[i].node))
    &&& forall|k: int|
        0 <= k < nodes.len() ==> first_index(entry_ids(s), #[trigger] node_ids(nodes)[k]) is Some
}

proof fn lemma_build_unique<D, S>(nodes: Seq<Node<D, S>>, bounds: Seq<NodeHandleBounds<S>>)
    requires
        node_ids(nodes).no_duplicates(),
        bounds.len() == nodes.len(),
    ensures
        build_entries(nodes, bounds).len() == nodes.len(),
        forall|i: int|
            0 <= i < nodes.len() ==> #[trigger] build_entries(nodes, bounds)[i] == initial_entry(
                nodes[i],
                bounds[i],
            ),
    decreases nodes.len(),
{
    if nodes.len() > 0 {
        let pre = nodes.drop_last();
        let pb = bounds.take(nodes.len() - 1);
        assert(node_ids(pre) =~= node_ids(nodes).drop_last());
        lemma_build_unique(pre, pb);
        let m = build_entries(pre, pb);
        assert(entry_ids(m) =~= node_ids(pre));
        lemma_first_index(entry_ids(m), nodes.last().id@);
        if let Some(j) = first_index(entry_ids(m), nodes.last().id@) {
            assert(node_ids(nodes)[j] == node_ids(nodes)[nodes.len() - 1]);
        }
    }
}

/// A lookup built from a node list with unique ids is in sync with it.
pub proof fn lemma_from_nodes_in_sync<D: Clone, S>(
    nodes: Seq<Node<D, S>>,
    bounds: Seq<NodeHandleBounds<S>>,
    s: Seq<InternalNode<D, S>>,
)
    requires
        node_ids(nodes).no_duplicates(),
        bounds.len() == nodes.len(),
        entries_match(build_entries(nodes, bounds), s),
    ensures
        lookup_in_sync(nodes, s),
{
    lemma_build_unique(nodes, bounds);
    let b = build_entries(nodes, bounds);
    lemma_entries_match_ids(b, s);
    assert(entry_ids(b) =~= node_ids(nodes));
    assert forall|i: int| 0 <= i < s.len() implies (first_index(
        node_ids(nodes),
        #[trigger] entry_ids(s)[i],
    ) matches Some(k) && node_clone_of(nodes[k], s[i].node)) by {
        lemma_first_index_is(node_ids(nodes), node_ids(nodes)[i], i);
        assert(entry_clone_of(b[i], s[i]));
    }
    assert forall|k: int| 0 <= k < nodes.len() implies first_index(
        entry_ids(s),
        #[trigger] node_ids(nodes)[k],
    ) is Some by {
        lemma_first_index_is(entry_ids(s), entry_ids(s)[k], k);
    }
}

proof fn lemma_step_in_sync<D: Clone, S>(
    nodes: Seq<Node<D, S>>,
    s: Seq<InternalNode<D, S>>,
    c: NodeChange<D, S>,
)
    requires
        lookup_in_sync(nodes, s),
        !is_structural_node_change(c),
    ensures
        lookup_in_sync(node_change_step(nodes, c), lookup_change_step(s, c)),
{
    let id = crate::state::changes::node_change_id(c);
    let n2 = node_change_step(nodes, c);
    let s2 = lookup_change_step(s, c);
    lemma_first_index(node_ids(nodes), id@);
    lemma_first_index(entry_ids(s), id@);
    assert(node_ids(n2) =~= node_ids(nodes));
    assert(entry_ids(s2) =~= entry_ids(s));
    let nk = first_index(node_ids(nodes), id@);
    let sj = first_index(entry_ids(s), id@);
    // The node and the entry with the changed id are both present or both absent.
    if let Some(k) = nk {
        assert(first_index(entry_ids(s), node_ids(nodes)[k]) is Some);
    }
    if let Some(j) = sj {
        assert(first_index(node_ids(nodes), entry_ids(s)[j]) is Some);
    }
    assert forall|i: int| 0 <= i < s2.len() implies (first_index(
        node_ids(n2),
        #[trigger] entry_ids(s2)[i],
    ) matches Some(k) && node_clone_of(n2[k], s2[i].node)) by {
        assert(entry_ids(s2)[i] == entry_ids(s)[i]);
        let k = first_index(node_ids(nodes), entry_ids(s)[i])->0;
        lemma_first_index(node_ids(nodes), entry_ids(s)[i]);
        assert(node_clone_of(nodes[k], s[i].node));
        if sj == Some(i) {
            assert(nk == Some(k));
        } else {
            if let Some(j) = sj {
                assert(entry_ids(s)[i] != entry_ids(s)[j]);
            }
            if let Some(kk) = nk {
                assert(node_ids(nodes)[kk] == id@);
                assert(kk != k);
            }
        }
    }
    assert forall|k: int| 0 <= k < n2.len() implies first_index(
        entry_ids(s2),
        #[trigger] node_ids(n2)[k],
    ) is Some by {
        assert(node_ids(n2)[k] == node_ids(nodes)[k]);
    }
}

/// The fast path of the graph state is sound: when the lookup is in sync
/// with the node list, applying only position, dimension and selection
/// changes to the node list and the same changes in place to the lookup
/// keeps them in sync.
pub proof fn lemma_incremental_keeps_sync<D: Clone, S>(
    changes: Seq<NodeChange<D, S>>,
    nodes: Seq<Node<D, S>>,
    s: Seq<InternalNode<D, S>>,
)
    requires
        lookup_in_sync(nodes, s),
        forall|i: int| 0 <= i < changes.len() ==> !is_structural_node_change(#[trigger] changes[i]),
    ensures
        lookup_in_sync(apply_node_changes_spec(changes, nodes), lookup_changes_spec(changes, s)),
    decreases changes.len(),
{
    if changes.len() > 0 {
        let pre = changes.drop_last();
        assert forall|i: int| 0 <= i < pre.len() implies !is_structural_node_change(
            #[trigger] pre[i],
        ) by {
            assert(pre[i] == changes[i]);
        }
        lemma_incremental_keeps_sync(pre, nodes, s);
        assert(!is_structural_node_change(changes[changes.len() - 1]));
        lemma_step_in_sync(
            apply_node_changes_spec(pre, nodes),
            lookup_changes_spec(pre, s),
            changes.last(),
        );
    }
}

/// Recomputing internal state keeps the lookup in sync with the node list:
/// when only absolute positions, z-orders and handle geometry differ
/// (as after [`NodeLookup::set_position_absolute`] and
/// [`NodeLookup::set_handle_bounds`]), a lookup in sync stays in sync.
pub proof fn lemma_internals_keep_sync<D: Clone, S>(
    nodes: Seq<Node<D, S>>,
    s: Seq<InternalNode<D, S>>,
    s2: Seq<InternalNode<D, S>>,
)
    requires
        lookup_in_sync(nodes, s),
        same_nodes(s, s2),
    ensures
        lookup_in_sync(nodes, s2),
{
    assert(entry_ids(s2) =~= entry_ids(s));
    assert forall|i: int| 0 <= i < s2.len() implies (first_index(
        node_ids(nodes),
        #[trigger] entry_ids(s2)[i],
    ) matches Some(k) && node_clone_of(nodes[k], s2[i].node)) by {
        assert(entry_ids(s2)[i] == entry_ids(s)[i]);
        assert(s2[i].node == s[i].node);
    }
}

/// Resolving parents keeps the lookup in sync with the node list.
pub proof fn lemma_resolve_parents_keeps_sync<D: Clone, S>(
    nodes: Seq<Node<D, S>>,
    s: Seq<InternalNode<D, S>>,
)
    requires
        lookup_in_sync(nodes, s),
    ensures
        lookup_in_sync(nodes, resolve_parents_spec(s, nodes)),
{
    lemma_resolve_same_nodes(s, nodes);
    lemma_internals_keep_sync(nodes, s, resolve_parents_spec(s, nodes));
}

/// Two sequences of distinct elements with the same members, each ordered
/// by the asymmetric relation `before`, are equal.
proof fn lemma_strict_order_unique<A>(r1: Seq<A>, r2: Seq<A>, before: spec_fn(A, A) -> bool)
    requires
        r1.len() == r2.len(),
        r1.no_duplicates(),
        r2.no_duplicates(),
        forall|x: A| r1.contains(x) <==> r2.contains(x),
        forall|a: int, b: int| 0 <= a < b < r1.len() ==> before(#[trigger] r1[a], #[trigger] r1[b]),
        forall|a: int, b: int| 0 <= a < b < r2.len() ==> before(#[trigger] r2[a], #[trigger] r2[b]),
        forall|x: A, y: A| !(#[trigger] before(x, y) && #[trigger] before(y, x)),
    ensures
        r1 == r2,
    decreases r1.len(),
{
    if r1.len() > 0 {
        let x1 = r1[0];
        let x2 = r2[0];
        if x1 != x2 {
            assert(r1.contains(x1));
            let j = choose|j: int| 0 <= j < r2.len() && r2[j] == x1;
            assert(before(r2[0], r2[j]));
            assert(r2.contains(x2));
            let i = choose|i: int| 0 <= i < r1.len() && r1[i] == x2;
            assert(before(r1[0], r1[i]));
        }
        let t1 = r1.drop_first();
        let t2 = r2.drop_first();
        assert forall|x: A| t1.contains(x) <==> t2.contains(x) by {
            if t1.contains(x) {
                let i = choose|i: int| 0 <= i < t1.len() && t1[i] == x;
                assert(r1[i + 1] == x);
                assert(x != x1);
                assert(r1.contains(x));
                let j = choose|j: int| 0 <= j < r2.len() && r2[j] == x;
                assert(j != 0);
                assert(t2[j - 1] == x);
            }
            if t2.contains(x) {
                let j = choose|j: int| 0 <= j < t2.len() && t2[j] == x;
                assert(r2[j + 1] == x);
                assert(x != x2);
                assert(r2.contains(x));
                let i = choose|i: int| 0 <= i < r1.len() && r1[i] == x;
                assert(i != 0);
                assert(t1[i - 1] == x);
            }
        }
        assert forall|a: int, b: int| 0 <= a < b < t1.len() implies before(
            #[trigger] t1[a],
            #[trigger] t1[b],
        ) by {
            assert(t1[a] == r1[a + 1] && t1[b] == r1[b + 1]);
        }
        assert forall|a: int, b: int| 0 <= a < b < t2.len() implies before(
            #[trigger] t2[a],
            #[trigger] t2[b],
        ) by {
            assert(t2[a] == r2[a + 1] && t2[b] == r2[b + 1]);
        }
        lemma_strict_order_unique(t1, t2, before);
        assert(r1 =~= seq![x1] + t1);
        assert(r2 =~= seq![x2] + t2);
    }
}

/// Drawn before: lower z-order, or equal z-order and earlier in the lookup.
pub open spec fn z_before<D, S>(s: Seq<InternalNode<D, S>>) -> spec_fn(Seq<char>, Seq<char>) -> bool {
    |x: Seq<char>, y: Seq<char>|
        z_of(s, x) < z_of(s, y) || (z_of(s, x) == z_of(s, y) && pos_of(s, x) < pos_of(s, y))
}

/// The z-sorted order of a lookup is unique: what [`sorted_by_z`] returns is
/// determined by the entries' ids, z-orders and places.
pub proof fn lemma_z_sorted_unique<D, S>(
    s: Seq<InternalNode<D, S>>,
    a: Seq<Seq<char>>,
    b: Seq<Seq<char>>,
)
    requires
        z_sorted(s, a),
        z_sorted(s, b),
    ensures
        a == b,
{
    let before = z_before(s);
    assert forall|x: Seq<char>| a.contains(x) <==> b.contains(x) by {
        if a.contains(x) {
            let k = choose|k: int| 0 <= k < a.len() && a[k] == x;
            assert(entry_ids(s).contains(a[k]));
            let j = choose|j: int| 0 <= j < s.len() && entry_ids(s)[j] == x;
            assert(b.contains(entry_ids(s)[j]));
        }
        if b.contains(x) {
            let k = choose|k: int| 0 <= k < b.len() && b[k] == x;
            assert(entry_ids(s).contains(b[k]));
            let j = choose|j: int| 0 <= j < s.len() && entry_ids(s)[j] == x;
            assert(a.contains(entry_ids(s)[j]));
        }
    }
    assert forall|i: int, j: int| 0 <= i < j < a.len() implies before(#[trigger] a[i], #[trigger] a[j]) by {
        assert(z_of(s, a[i]) <= z_of(s, a[j]));
    }
    assert forall|i: int, j: int| 0 <= i < j < b.len() implies before(#[trigger] b[i], #[trigger] b[j]) by {
        assert(z_of(s, b[i]) <= z_of(s, b[j]));
    }
    lemma_strict_order_unique(a, b, before);
}

/// In-place updates change no entry's id, place or z-order.
proof fn lemma_lookup_changes_keep_z<D, S>(changes: Seq<NodeChange<D, S>>, s: Seq<InternalNode<D, S>>)
    ensures
        lookup_changes_spec(changes, s).len() == s.len(),
        forall|i: int|
            0 <= i < s.len() ==> (#[trigger] lookup_changes_spec(changes, s)[i]).internals.z
                == s[i].internals.z && lookup_changes_spec(changes, s)[i].node.id@ == s[i].node.id@,
    decreases changes.len(),
{
    if changes.len() > 0 {
        lemma_lookup_changes_keep_z(changes.drop_last(), s);
        let m = lookup_changes_spec(changes.drop_last(), s);
        lemma_first_index(entry_ids(m), crate::state::changes::node_change_id(changes.last())@);
    }
}

/// Entries keep their ids, places and z-orders: any z-sorted order of the
/// first is one of the second.
proof fn lemma_same_z_keeps_sorted<D, S>(
    s: Seq<InternalNode<D, S>>,
    s2: Seq<InternalNode<D, S>>,
    ids: Seq<Seq<char>>,
)
    requires
        z_sorted(s, ids),
        s2.len() == s.len(),
        forall|i: int|
            0 <= i < s.len() ==> (#[trigger] s2[i]).internals.z == s[i].internals.z && s2[i].node.id@
                == s[i].node.id@,
    ensures
        z_sorted(s2, ids),
{
    assert(entry_ids(s2) =~= entry_ids(s));
    assert forall|id: Seq<char>| #[trigger] z_of(s2, id) == z_of(s, id) && pos_of(s2, id) == pos_of(s, id) by {
        lemma_first_index(entry_ids(s), id);
    }
}

/// Every child present is already drawn above its parent, when present.
pub open spec fn parents_settled<D, S>(s: Seq<InternalNode<D, S>>, nodes: Seq<Node<D, S>>) -> bool {
    forall|k: int|
        0 <= k < nodes.len() ==> (parent_entry(s, #[trigger] nodes[k]) matches Some(pe) ==> (entry_of(
            s,
            nodes[k].id@,
        ) matches Some(ce) ==> ce.internals.z > pe.internals.z))
}

/// With every child already above its parent, resolving parents changes
/// nothing.
proof fn lemma_settled_resolve_identity<D, S>(s: Seq<InternalNode<D, S>>, nodes: Seq<Node<D, S>>)
    requires
        parents_settled(s, nodes),
    ensures
        resolve_parents_spec(s, nodes) == s,
    decreases nodes.len(),
{
    if nodes.len() > 0 {
        let pre = nodes.drop_last();
        assert forall|k: int| 0 <= k < pre.len() implies (parent_entry(s, #[trigger] pre[k]) matches Some(
            pe,
        ) ==> (entry_of(s, pre[k].id@) matches Some(ce) ==> ce.internals.z > pe.internals.z)) by {
            assert(pre[k] == nodes[k]);
        }
        lemma_settled_resolve_identity(s, pre);
        let n = nodes.last();
        assert(n == nodes[nodes.len() - 1]);
        lemma_first_index(entry_ids(s), n.id@);
    }
}

/// The z-sorted order cached before in-place updates (positions, sizes,
/// selection) stays valid through them and through the parent resolution
/// that follows, as long as every child is then already above its parent.
pub proof fn lemma_cached_order_stays_valid<D, S>(
    changes: Seq<NodeChange<D, S>>,
    s: Seq<InternalNode<D, S>>,
    nodes: Seq<Node<D, S>>,
    ids: Seq<Seq<char>>,
)
    requires
        z_sorted(s, ids),
        parents_settled(lookup_changes_spec(changes, s), nodes),
    ensures
        z_sorted(resolve_parents_spec(lookup_changes_spec(changes, s), nodes), ids),
{
    lemma_lookup_changes_keep_z(changes, s);
    lemma_same_z_keeps_sorted(s, lookup_changes_spec(changes, s), ids);
    lemma_settled_resolve_identity(lookup_changes_spec(changes, s), nodes);
}

/// No parent has a parent of its own: a node named as a parent has none.
pub open spec fn single_level<D, S>(nodes: Seq<Node<D, S>>) -> bool {
    forall|k: int, j: int|
        #![trigger nodes[k], nodes[j]]
        0 <= k < nodes.len() && 0 <= j < nodes.len() && (nodes[k].parent_id matches Some(pid)
            && nodes[j].id@ == pid@) ==> nodes[j].parent_id is None
}

/// Resolving parents never lowers a z-order.
proof fn lemma_resolve_monotone<D, S>(s0: Seq<InternalNode<D, S>>, nodes: Seq<Node<D, S>>)
    requires
        parents_below_max_z(s0, nodes),
    ensures
        resolve_parents_spec(s0, nodes).len() == s0.len(),
        forall|i: int|
            0 <= i < s0.len() ==> (#[trigger] resolve_parents_spec(s0, nodes)[i]).internals.z
                >= s0[i].internals.z,
    decreases nodes.len(),
{
    if nodes.len() > 0 {
        let pre = nodes.drop_last();
        assert forall|k: int| 0 <= k < pre.len() implies (parent_entry(s0, #[trigger] pre[k]) matches Some(
            pe,
        ) ==> pe.internals.z < i32::MAX) by {
            assert(pre[k] == nodes[k]);
        }
        lemma_resolve_monotone(s0, pre);
        let s = resolve_parents_spec(s0, pre);
        let n = nodes.last();
        assert(n == nodes[nodes.len() - 1]);
        lemma_first_index(entry_ids(s), n.id@);
    }
}

/// After resolution, the entry of a child whose parent is present sits
/// above the parent's z-order before resolution.
proof fn lemma_resolve_child_above<D, S>(s0: Seq<InternalNode<D, S>>, nodes: Seq<Node<D, S>>, k: int)
    requires
        parents_below_max_z(s0, nodes),
        0 <= k < nodes.len(),
        parent_entry(s0, nodes[k]) is Some,
        entry_of(s0, nodes[k].id@) is Some,
    ensures
        first_index(entry_ids(s0), nodes[k].id@) matches Some(c) && resolve_parents_spec(
            s0,
            nodes,
        )[c].internals.z > parent_entry(s0, nodes[k])->0.internals.z,
    decreases nodes.len(),
{
    let pre = nodes.drop_last();
    let n = nodes.last();
    assert(n == nodes[nodes.len() - 1]);
    assert forall|j: int| 0 <= j < pre.len() implies (parent_entry(s0, #[trigger] pre[j]) matches Some(
        pe,
    ) ==> pe.internals.z < i32::MAX) by {
        assert(pre[j] == nodes[j]);
    }
    lemma_resolve_keeps_ids(s0, pre);
    lemma_resolve_monotone(s0, pre);
    let s = resolve_parents_spec(s0, pre);
    lemma_first_index(entry_ids(s0), nodes[k].id@);
    lemma_first_index(entry_ids(s), n.id@);
    if k < nodes.len() - 1 {
        assert(pre[k] == nodes[k]);
        lemma_resolve_child_above(s0, pre, k);
    }
}

/// An entry none of whose nodes has a parent present keeps its z-order.
proof fn lemma_resolve_unraised<D, S>(s0: Seq<InternalNode<D, S>>, nodes: Seq<Node<D, S>>, i: int)
    requires
        0 <= i < s0.len(),
        forall|k: int|
            0 <= k < nodes.len() && (#[trigger] nodes[k]).id@ == entry_ids(s0)[i] ==> parent_entry(
                s0,
                nodes[k],
            ) is None,
    ensures
        resolve_parents_spec(s0, nodes)[i].internals.z == s0[i].internals.z,
    decreases nodes.len(),
{
    if nodes.len() > 0 {
        let pre = nodes.drop_last();
        assert forall|k: int|
            0 <= k < pre.len() && (#[trigger] pre[k]).id@ == entry_ids(s0)[i] implies parent_entry(
            s0,
            pre[k],
        ) is None by {
            assert(pre[k] == nodes[k]);
        }
        lemma_resolve_unraised(s0, pre, i);
        lemma_resolve_keeps_ids(s0, pre);
        let s = resolve_parents_spec(s0, pre);
        let n = nodes.last();
        assert(n == nodes[nodes.len() - 1]);
        lemma_first_index(entry_ids(s), n.id@);
        assert(entry_ids(s)[i] == entry_ids(s0)[i]);
    }
}

/// With no parent having a parent of its own, resolving parents draws every
/// child present above its parent.
pub proof fn lemma_single_level_settles<D, S>(s0: Seq<InternalNode<D, S>>, nodes: Seq<Node<D, S>>)
    requires
        parents_below_max_z(s0, nodes),
        single_level(nodes),
    ensures
        parents_settled(resolve_parents_spec(s0, nodes), nodes),
{
    let r = resolve_parents_spec(s0, nodes);
    lemma_resolve_keeps_ids(s0, nodes);
    lemma_resolve_monotone(s0, nodes);
    assert forall|k: int| 0 <= k < nodes.len() implies (parent_entry(r, #[trigger] nodes[k]) matches Some(
        pe,
    ) ==> (entry_of(r, nodes[k].id@) matches Some(ce) ==> ce.internals.z > pe.internals.z)) by {
        let n = nodes[k];
        if let Some(pid) = n.parent_id {
            lemma_first_index(entry_ids(s0), pid@);
            lemma_first_index(entry_ids(s0), n.id@);
            if first_index(entry_ids(s0), pid@) is Some && first_index(entry_ids(s0), n.id@) is Some {
                let ip = first_index(entry_ids(s0), pid@)->0;
                lemma_resolve_child_above(s0, nodes, k);
                assert forall|j: int|
                    0 <= j < nodes.len() && (#[trigger] nodes[j]).id@ == entry_ids(s0)[ip]
                        implies parent_entry(s0, nodes[j]) is None by {
                    assert(nodes[j].parent_id is None);
                }
                lemma_resolve_unraised(s0, nodes, ip);
            }
        }
    }
}

/// Applying node changes keeps the lookup in step with the node list, on
/// both paths the graph state takes: after a structural change (an add,
/// removal or replacement) the lookup is rebuilt from the new list, with
/// any handle geometry, and its parents resolved; otherwise the same
/// changes are applied to the lookup in place and its parents resolved
/// again. Either way the result is in sync with the new list, provided its
/// ids are distinct.
pub proof fn lemma_apply_changes_keeps_sync<D: Clone, S>(
    changes: Seq<NodeChange<D, S>>,
    nodes: Seq<Node<D, S>>,
    s: Seq<InternalNode<D, S>>,
    bounds: Seq<NodeHandleBounds<S>>,
    rebuilt: Seq<InternalNode<D, S>>,
)
    requires
        lookup_in_sync(nodes, s),
        node_ids(apply_node_changes_spec(changes, nodes)).no_duplicates(),
        bounds.len() == apply_node_changes_spec(changes, nodes).len(),
        entries_match(build_entries(apply_node_changes_spec(changes, nodes), bounds), rebuilt),
    ensures
        (exists|k: int| 0 <= k < changes.len() && is_structural_node_change(#[trigger] changes[k]))
            ==> lookup_in_sync(
            apply_node_changes_spec(changes, nodes),
            resolve_parents_spec(rebuilt, apply_node_changes_spec(changes, nodes)),
        ),
        (forall|k: int| 0 <= k < changes.len() ==> !is_structural_node_change(#[trigger] changes[k]))
            ==> lookup_in_sync(
            apply_node_changes_spec(changes, nodes),
            resolve_parents_spec(
                lookup_changes_spec(changes, s),
                apply_node_changes_spec(changes, nodes),
            ),
        ),
{
    let n2 = apply_node_changes_spec(changes, nodes);
    lemma_from_nodes_in_sync(n2, bounds, rebuilt);
    lemma_resolve_parents_keeps_sync(n2, rebuilt);
    if forall|k: int| 0 <= k < changes.len() ==> !is_structural_node_change(#[trigger] changes[k]) {
        lemma_incremental_keeps_sync(changes, nodes, s);
        lemma_resolve_parents_keeps_sync(n2, lookup_changes_spec(changes, s));
    }
}

} // verus!
