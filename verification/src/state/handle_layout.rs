//! Where each handle of a node goes along its side: handles of one type on
//! one side are spread evenly, so each needs to know how many share its side
//! and its rank among them.

use vstd::prelude::*;

use crate::canvas::opt_view;
use crate::types::handle::{clone_opt_string, Handle, HandleType, NodeHandle};
use crate::types::node::Node;
use crate::types::position::Position;

verus! {

/// The slot of one handle among the handles of its type on its side.
#[derive(Debug, Clone, Copy, PartialEq, Eq, Structural)]
pub struct HandleSlot {
    /// Index of the handle in the node's handle list.
    pub handle_index: usize,
    /// Number of handles of the same type on the same side.
    pub count: usize,
    /// Rank of the handle among them (0 for the first).
    pub index: usize,
}

/// How many of the first `end` handles have type `t` and sit on side `p`.
pub open spec fn count_on_side<S>(hs: Seq<NodeHandle<S>>, t: HandleType, p: Position, end: int) -> nat
    decreases end,
{
    if end <= 0 {
        0
    } else {
        count_on_side(hs, t, p, end - 1) + if hs[end - 1].handle_type == t && hs[end - 1].position
            == p {
            1nat
        } else {
            0nat
        }
    }
}

/// The slots of the handles of type `t` among the first `end` handles, in
/// handle order.
pub open spec fn slots_spec<S>(hs: Seq<NodeHandle<S>>, t: HandleType, end: int) -> Seq<HandleSlot>
    decreases end,
{
    if end <= 0 {
        Seq::empty()
    } else {
        let r = slots_spec(hs, t, end - 1);
        let h = hs[end - 1];
        if h.handle_type == t {
            r.push(
                HandleSlot {
                    handle_index: (end - 1) as usize,
                    count: count_on_side(hs, t, h.position, hs.len() as int) as usize,
                    index: count_on_side(hs, t, h.position, end - 1) as usize,
                },
            )
        } else {
            r
        }
    }
}

proof fn lemma_count_bound<S>(hs: Seq<NodeHandle<S>>, t: HandleType, p: Position, end: int)
    requires
        0 <= end <= hs.len(),
    ensures
        count_on_side(hs, t, p, end) <= end,
    decreases end,
{
    if end > 0 {
        lemma_count_bound(hs, t, p, end - 1);
    }
}

/// Number of handles of type `t` on side `p` among the first `end`.
fn count_handles<S>(hs: &Vec<NodeHandle<S>>, t: HandleType, p: Position, end: usize) -> (r: usize)
    requires
        end <= hs@.len(),
    ensures
        r == count_on_side(hs@, t, p, end as int),
{
    let mut c: usize = 0;
    let mut i: usize = 0;
    while i < end
        invariant
            i <= end <= hs@.len(),
            c == count_on_side(hs@, t, p, i as int),
        decreases end - i,
    {
        proof {
            lemma_count_bound(hs@, t, p, i as int);
        }
        if hs[i].handle_type == t && hs[i].position == p {
            c = c + 1;
        }
        i = i + 1;
    }
    c
}

/// The slot of every handle of type `handle_type`, in handle order: how
/// many handles of that type share its side, and its rank among them.
pub fn handle_slots<S>(handles: &Vec<NodeHandle<S>>, handle_type: HandleType) -> (r: Vec<
    HandleSlot,
>)
    ensures
        r@ == slots_spec(handles@, handle_type, handles@.len() as int),
{
    let mut r: Vec<HandleSlot> = Vec::new();
    let mut i: usize = 0;
    while i < handles.len()
        invariant
            i <= handles@.len(),
            r@ == slots_spec(handles@, handle_type, i as int),
        decreases handles@.len() - i,
    {
        let h = &handles[i];
        if h.handle_type == handle_type {
            let count = count_handles(handles, handle_type, h.position, handles.len());
            let index = count_handles(handles, handle_type, h.position, i);
            r.push(HandleSlot { handle_index: i, count, index });
        }
        i = i + 1;
    }
    r
}

/// Each slot's rank is below the number of handles sharing its side, and
/// its handle has the slot's type: the even spacing never runs off the side.
pub proof fn lemma_slot_rank_below_count<S>(hs: Seq<NodeHandle<S>>, t: HandleType, end: int)
    requires
        0 <= end <= hs.len(),
        hs.len() <= usize::MAX,
    ensures
        forall|k: int|
            0 <= k < slots_spec(hs, t, end).len() ==> {
                let s = #[trigger] slots_spec(hs, t, end)[k];
                &&& s.handle_index < end
                &&& hs[s.handle_index as int].handle_type == t
                &&& s.index < s.count
            },
    decreases end,
{
    if end > 0 {
        lemma_slot_rank_below_count(hs, t, end - 1);
        let h = hs[end - 1];
        if h.handle_type == t {
            lemma_count_monotone(hs, t, h.position, end, hs.len() as int);
            lemma_count_bound(hs, t, h.position, hs.len() as int);
            lemma_count_bound(hs, t, h.position, end - 1);
            assert(count_on_side(hs, t, h.position, end) == count_on_side(hs, t, h.position, end - 1)
                + 1);
            let r = slots_spec(hs, t, end - 1);
            let last = slots_spec(hs, t, end)[r.len() as int];
            assert(last.handle_index == end - 1);
            assert(last.index < last.count);
            assert forall|k: int| 0 <= k < slots_spec(hs, t, end).len() implies {
                let s = #[trigger] slots_spec(hs, t, end)[k];
                &&& s.handle_index < end
                &&& hs[s.handle_index as int].handle_type == t
                &&& s.index < s.count
            } by {
                if k < r.len() {
                    assert(slots_spec(hs, t, end)[k] == r[k]);
                }
            }
        }
    }
}

proof fn lemma_count_monotone<S>(hs: Seq<NodeHandle<S>>, t: HandleType, p: Position, a: int, b: int)
    requires
        0 <= a <= b <= hs.len(),
    ensures
        count_on_side(hs, t, p, a) <= count_on_side(hs, t, p, b),
    decreases b - a,
{
    if a < b {
        lemma_count_monotone(hs, t, p, a, b - 1);
    }
}

/// `h` is the resolved handle for slot `sl` of `node`'s handles of type
/// `t`: the user handle's id and side, the node's id, offset `off` within
/// the node, and size `size` by `size`.
pub open spec fn placed_handle<D, S>(
    h: Handle<S>,
    node: Node<D, S>,
    t: HandleType,
    sl: HandleSlot,
    off: (S, S),
    size: S,
) -> bool {
    let nh = node.handles@[sl.handle_index as int];
    &&& opt_view(h.id) == opt_view(nh.id)
    &&& h.node_id@ == node.id@
    &&& h.x == off.0
    &&& h.y == off.1
    &&& h.position == nh.position
    &&& h.handle_type == t
    &&& h.width == size
    &&& h.height == size
}

/// The resolved handles of type `t` of `node`, one per slot of
/// [`handle_slots`], in handle order; `offsets[k]` is where the caller
/// placed the `k`-th within the node, and every handle is `size` square.
pub fn place_handles<D, S: Copy>(
    node: &Node<D, S>,
    t: HandleType,
    offsets: &[(S, S)],
    size: S,
) -> (r: Vec<Handle<S>>)
    requires
        offsets@.len() == slots_spec(node.handles@, t, node.handles@.len() as int).len(),
    ensures
        r@.len() == offsets@.len(),
        forall|k: int|
            0 <= k < r@.len() ==> placed_handle(
                #[trigger] r@[k],
                *node,
                t,
                slots_spec(node.handles@, t, node.handles@.len() as int)[k],
                offsets@[k],
                size,
            ),
{
    let slots = handle_slots(&node.handles, t);
    let n = node.handles.len();
    proof {
        assert(node.handles@.len() == n);
        lemma_slot_rank_below_count(node.handles@, t, node.handles@.len() as int);
    }
    let mut r: Vec<Handle<S>> = Vec::new();
    let mut k: usize = 0;
    while k < slots.len()
        invariant
            k <= slots@.len(),
            slots@ == slots_spec(node.handles@, t, node.handles@.len() as int),
            offsets@.len() == slots@.len(),
            forall|j: int| 0 <= j < slots@.len() ==> (#[trigger] slots@[j]).handle_index < node.handles@.len(),
            r@.len() == k,
            forall|j: int|
                0 <= j < k ==> placed_handle(#[trigger] r@[j], *node, t, slots@[j], offsets@[j], size),
        decreases slots@.len() - k,
    {
        let sl = slots[k];
        let nh = &node.handles[sl.handle_index];
        let (x, y) = offsets[k];
        r.push(
            Handle {
                id: clone_opt_string(&nh.id),
                node_id: node.id.to_string(),
                x,
                y,
                position: nh.position,
                handle_type: t,
                width: size,
                height: size,
            },
        );
        k = k + 1;
    }
    r
}

} // verus!
