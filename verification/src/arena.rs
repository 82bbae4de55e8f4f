//! The node arena and the contracts under which the tree uses it.
//!
//! The arena is `indextree::Arena`. Nothing in it is verified here: each function
//! below states what the arena does, over a model of its live nodes.

use vstd::prelude::*;
use indextree::Arena;
use indextree::NodeId;
use crate::span::SpanNode;

verus! {

/// `indextree::Arena`: the arena that holds the nodes.
#[verifier::external_type_specification]
#[verifier::external_body]
#[verifier::reject_recursive_types(T)]
pub struct ExArena<T>(indextree::Arena<T>);

/// `indextree::NodeId`: the id of a node. An id is never used for another node.
#[verifier::external_type_specification]
#[verifier::external_body]
pub struct ExNodeId(indextree::NodeId);

/// What the arena records of one live node.
///
/// `depth` is the number of nodes above the node, as `NodeId::depth` counts
/// them; `weight` is the number of nodes in its subtree, the node included, as
/// `NodeId::descendant_count` counts them. The arena keeps its nodes a forest,
/// so a child is one deeper than its parent and weighs less.
pub ghost struct Slot {
    pub parent: Option<NodeId>,
    pub children: Seq<NodeId>,
    pub depth: nat,
    pub weight: nat,
    pub data: SpanNode,
}

/// The live nodes of an arena, each with its links and its data.
pub uninterp spec fn arena_slots(a: Arena<SpanNode>) -> Map<NodeId, Slot>;

/// The live nodes of an arena in the order in which the arena walks its slots.
pub uninterp spec fn arena_order(a: Arena<SpanNode>) -> Seq<NodeId>;

/// The number of slots that removed nodes have left behind for new nodes to
/// take. Where there is none, a new node takes a new slot behind all others.
pub uninterp spec fn arena_spare(a: Arena<SpanNode>) -> nat;

/// The number that a node id shows when printed: the one-based index of its slot.
pub uninterp spec fn node_number(n: NodeId) -> nat;

/// `n` is the id of a live node of `a`.
pub open spec fn is_live(a: Arena<SpanNode>, n: NodeId) -> bool {
    arena_slots(a).dom().contains(n)
}

/// The parent of a live node, if it has one.
pub open spec fn parent_of(a: Arena<SpanNode>, n: NodeId) -> Option<NodeId> {
    arena_slots(a)[n].parent
}

/// The children of a live node, first child first.
pub open spec fn children_of(a: Arena<SpanNode>, n: NodeId) -> Seq<NodeId> {
    arena_slots(a)[n].children
}

/// What a live node holds.
pub open spec fn data_of(a: Arena<SpanNode>, n: NodeId) -> SpanNode {
    arena_slots(a)[n].data
}

/// The number of nodes above a live node.
pub open spec fn depth_of(a: Arena<SpanNode>, n: NodeId) -> nat {
    arena_slots(a)[n].depth
}

/// The number of nodes in the subtree of a live node.
pub open spec fn weight_of(a: Arena<SpanNode>, n: NodeId) -> nat {
    arena_slots(a)[n].weight
}

/// The links of one live node agree with those of its parent and of its children.
pub open spec fn node_ok(a: Arena<SpanNode>, n: NodeId) -> bool {
    &&& children_of(a, n).no_duplicates()
    &&& match parent_of(a, n) {
        Some(p) => {
            &&& is_live(a, p)
            &&& children_of(a, p).contains(n)
            &&& depth_of(a, n) == depth_of(a, p) + 1
            &&& weight_of(a, n) < weight_of(a, p)
        },
        None => depth_of(a, n) == 0,
    }
    &&& forall|i: int|
        0 <= i < children_of(a, n).len() ==> {
            &&& is_live(a, #[trigger] children_of(a, n)[i])
            &&& parent_of(a, children_of(a, n)[i]) == Some(n)
        }
}

/// The live nodes form a forest, and the walk order lists each of them once.
pub open spec fn forest_ok(a: Arena<SpanNode>) -> bool {
    &&& arena_slots(a).dom().finite()
    &&& arena_order(a).no_duplicates()
    &&& arena_order(a).to_set() == arena_slots(a).dom()
    &&& forall|n: NodeId| #[trigger] is_live(a, n) ==> node_ok(a, n)
}

/// `x` is `y` or stands above it.
pub open spec fn is_ancestor_or_self(a: Arena<SpanNode>, x: NodeId, y: NodeId) -> bool
    decreases depth_of(a, y),
{
    x == y || match parent_of(a, y) {
        Some(p) => depth_of(a, p) < depth_of(a, y) && is_ancestor_or_self(a, x, p),
        None => false,
    }
}

/// The children of `m` once `n` has left its parent.
pub open spec fn children_without(a: Arena<SpanNode>, m: NodeId, n: NodeId) -> Seq<NodeId> {
    if parent_of(a, n) == Some(m) {
        children_of(a, m).remove_value(n)
    } else {
        children_of(a, m)
    }
}

/// `a` has no live node and no slot.
pub open spec fn no_nodes(a: Arena<SpanNode>) -> bool {
    &&& arena_slots(a) == Map::<NodeId, Slot>::empty()
    &&& arena_order(a) == Seq::<NodeId>::empty()
    &&& arena_spare(a) == 0
}

/// `a` and `b` have the same live nodes, with the same links and data.
pub open spec fn same_nodes(a: Arena<SpanNode>, b: Arena<SpanNode>) -> bool {
    &&& arena_slots(a) == arena_slots(b)
    &&& arena_order(a) == arena_order(b)
}

/// `b` is `a` with a new node `id` that holds `data` and has no links.
pub open spec fn node_added(a: Arena<SpanNode>, b: Arena<SpanNode>, data: SpanNode, id: NodeId) -> bool {
    &&& !is_live(a, id)
    &&& arena_slots(b).dom() == arena_slots(a).dom().insert(id)
    &&& parent_of(b, id) is None
    &&& children_of(b, id) == Seq::<NodeId>::empty()
    &&& data_of(b, id) == data
    &&& forall|n: NodeId| #[trigger] is_live(a, n) ==> arena_slots(b)[n] == arena_slots(a)[n]
    &&& forest_ok(a) ==> forest_ok(b)
    &&& arena_spare(a) == 0 ==> arena_spare(b) == 0 && arena_order(b) == arena_order(a).push(id)
}

/// `b` is `a` with `n` cut loose from its parent; nothing else moves.
pub open spec fn node_detached(a: Arena<SpanNode>, b: Arena<SpanNode>, n: NodeId) -> bool {
    if !is_live(a, n) {
        same_nodes(a, b)
    } else {
        &&& arena_slots(b).dom() == arena_slots(a).dom()
        &&& arena_order(b) == arena_order(a)
        &&& forall|m: NodeId| #[trigger] is_live(a, m) ==> {
            &&& data_of(b, m) == data_of(a, m)
            &&& parent_of(b, m) == (if m == n { None } else { parent_of(a, m) })
            &&& children_of(b, m) == children_without(a, m, n)
        }
        &&& forest_ok(a) ==> forest_ok(b)
        &&& arena_spare(b) == arena_spare(a)
    }
}

/// `b` is `a` without the parentless node `n`; the children of `n` lose their parent.
pub open spec fn node_removed(a: Arena<SpanNode>, b: Arena<SpanNode>, n: NodeId) -> bool {
    if !is_live(a, n) {
        same_nodes(a, b)
    } else {
        &&& arena_slots(b).dom() == arena_slots(a).dom().remove(n)
        &&& arena_order(b) == arena_order(a).remove_value(n)
        &&& forall|m: NodeId| #[trigger] is_live(b, m) ==> {
            &&& data_of(b, m) == data_of(a, m)
            &&& parent_of(b, m) == (if parent_of(a, m) == Some(n) { None } else { parent_of(a, m) })
            &&& children_of(b, m) == children_of(a, m)
        }
        &&& forest_ok(a) ==> forest_ok(b)
    }
}

/// `b` is `a` with `c` moved to the front of the children of `p`.
pub open spec fn node_prepended(a: Arena<SpanNode>, b: Arena<SpanNode>, p: NodeId, c: NodeId) -> bool {
    &&& arena_slots(b).dom() == arena_slots(a).dom()
    &&& arena_order(b) == arena_order(a)
    &&& forall|m: NodeId| #[trigger] is_live(a, m) ==> {
        &&& data_of(b, m) == data_of(a, m)
        &&& parent_of(b, m) == (if m == c { Some(p) } else { parent_of(a, m) })
        &&& children_of(b, m) == (if m == p {
            seq![c] + children_without(a, m, c)
        } else {
            children_without(a, m, c)
        })
    }
    &&& forest_ok(a) ==> forest_ok(b)
    &&& arena_spare(b) == arena_spare(a)
}

/// `Arena::new`: an arena without nodes.
#[verifier::external_body]
pub(crate) fn arena_new() -> (arena: Arena<SpanNode>)
    ensures
        no_nodes(arena),
{
    Arena::new()
}

/// `Arena::new_node`: a new live node that holds `data`, without parent or
/// children, under an id that no live node has. The other nodes stay as they
/// are. The node takes a slot that a removed node left behind, or, where there is
/// none, a new slot behind all others.
#[verifier::external_body]
pub(crate) fn arena_new_node(arena: &mut Arena<SpanNode>, data: SpanNode) -> (id: NodeId)
    ensures
        node_added(*old(arena), *final(arena), data, id),
{
    arena.new_node(data)
}

/// `NodeId::detach`: cuts a live node loose from its parent and siblings, with its
/// subtree; does nothing for an id that is not live.
#[verifier::external_body]
pub(crate) fn arena_detach(arena: &mut Arena<SpanNode>, node: NodeId)
    ensures
        node_detached(*old(arena), *final(arena), node),
{
    node.detach(arena)
}

/// `NodeId::remove` on a node without parent: the node leaves the arena and its
/// children are left without parent; does nothing for an id that is not live.
#[verifier::external_body]
pub(crate) fn arena_remove(arena: &mut Arena<SpanNode>, node: NodeId)
    requires
        is_live(*old(arena), node) ==> parent_of(*old(arena), node) is None,
    ensures
        node_removed(*old(arena), *final(arena), node),
{
    node.remove(arena)
}

/// `NodeId::prepend`: moves `child`, with its subtree, to the front of the children
/// of `parent`. It panics where the two are equal, where either is not live and
/// where `child` stands above `parent`: those are left out.
#[verifier::external_body]
pub(crate) fn arena_prepend(arena: &mut Arena<SpanNode>, parent: NodeId, child: NodeId)
    requires
        forest_ok(*old(arena)),
        is_live(*old(arena), parent),
        is_live(*old(arena), child),
        !is_ancestor_or_self(*old(arena), child, parent),
    ensures
        node_prepended(*old(arena), *final(arena), parent, child),
{
    parent.prepend(child, arena)
}

/// `NodeId::children`, collected: the children of a live node, first child first.
#[verifier::external_body]
pub(crate) fn arena_children(arena: &Arena<SpanNode>, node: NodeId) -> (ids: Vec<NodeId>)
    requires
        is_live(*arena, node),
    ensures
        ids@ == arena_slots(*arena)[node].children,
{
    node.children(arena).collect()
}

/// `Node::parent` of the arena's entry for a live node.
#[verifier::external_body]
pub(crate) fn arena_parent(arena: &Arena<SpanNode>, node: NodeId) -> (parent: Option<NodeId>)
    requires
        is_live(*arena, node),
    ensures
        parent == arena_slots(*arena)[node].parent,
{
    arena[node].parent()
}

/// `Node::get` of the arena's entry for a live node: the data it holds.
#[verifier::external_body]
pub(crate) fn arena_data(arena: &Arena<SpanNode>, node: NodeId) -> (data: &SpanNode)
    requires
        is_live(*arena, node),
    ensures
        *data == arena_slots(*arena)[node].data,
{
    arena[node].get()
}

/// `NodeId::is_removed`, negated: whether the id belongs to a live node.
#[verifier::external_body]
pub(crate) fn arena_is_live(arena: &Arena<SpanNode>, node: NodeId) -> (live: bool)
    ensures
        live == arena_slots(*arena).dom().contains(node),
{
    !node.is_removed(arena)
}

/// `Arena::iter_node_ids`, collected: the ids of the live nodes in slot order.
#[verifier::external_body]
pub(crate) fn arena_ids(arena: &Arena<SpanNode>) -> (ids: Vec<NodeId>)
    ensures
        ids@ == arena_order(*arena),
{
    arena.iter_node_ids().collect()
}

/// `Clone` of the arena: the same nodes with the same links and data, in the
/// same slots.
#[verifier::external_body]
pub(crate) fn arena_clone(arena: &Arena<SpanNode>) -> (copy: Arena<SpanNode>)
    ensures
        same_nodes(copy, *arena),
        arena_spare(copy) == arena_spare(*arena),
{
    arena.clone()
}

/// `==` on node ids: two ids are equal when they are the same id.
#[verifier::external_body]
pub(crate) fn node_eq(a: NodeId, b: NodeId) -> (equal: bool)
    ensures
        equal == (a == b),
{
    a == b
}

/// The conversion of a node id to `usize`: the number it shows when printed.
#[verifier::external_body]
pub(crate) fn node_index(node: NodeId) -> (index: usize)
    ensures
        index == node_number(node),
{
    node.into()
}

} // verus!
