//! The tree as plain records, for writing it out: each node with its children,
//! children in the order in which they are shown.

use vstd::prelude::*;
use indextree::Arena;
use indextree::NodeId;
use crate::arena::{arena_slots, arena_order, node_number, Slot, is_live, weight_of, forest_ok};
use crate::arena::{arena_parent, arena_data, arena_ids, node_eq, node_index};
use crate::clock::{nanos_of, ticks_between, elapsed_ticks, ticks_nanos};
use crate::render::{shown_children, children_of_node};
use crate::span::{Span, SpanNode};
use crate::tree::detached_among;

verus! {

/// One node of a tree: its number, its span, the nanoseconds since its start,
/// and its children.
pub struct NodeRecord {
    pub id: usize,
    pub span: Span,
    pub elapsed_ns: u64,
    pub children: Vec<NodeRecord>,
}

/// A tree: the number of the current node, the main tree from the root down,
/// and the detached subtrees.
pub struct TreeRecord {
    pub current: usize,
    pub tree: NodeRecord,
    pub detached: Vec<NodeRecord>,
}

/// `record` is the record of the node `n` and of its subtree at the clock
/// reading `now`: its children are the records of the children of `n` as they
/// are shown.
///
/// `limit` bounds the weight of the nodes whose children are listed; in a forest
/// it is chosen above the weight of `n` and cuts nothing. `order` is the order
/// in which the arena walks its nodes.
pub open spec fn is_record_of(record: NodeRecord, slots: Map<NodeId, Slot>, order: Seq<NodeId>, n: NodeId, limit: nat, now: u64) -> bool
    decreases limit, 0nat,
{
    &&& record.id == node_number(n)
    &&& record.span == slots[n].data.span
    &&& record.elapsed_ns == nanos_of(ticks_between(slots[n].data.start_time, now))
    &&& if slots[n].weight < limit {
        are_records_of(record.children@, slots, order, shown_children(slots, order, n), slots[n].weight, now)
    } else {
        record.children@.len() == 0
    }
}

/// `records` are the records of `nodes`, one for one.
pub open spec fn are_records_of(records: Seq<NodeRecord>, slots: Map<NodeId, Slot>, order: Seq<NodeId>, nodes: Seq<(u64, NodeId)>, limit: nat, now: u64) -> bool
    decreases limit, 1nat,
{
    &&& records.len() == nodes.len()
    &&& forall|i: int| 0 <= i < records.len() ==> is_record_of(#[trigger] records[i], slots, order, nodes[i].1, limit, now)
}

/// `records` are the records of the subtrees of `roots`, one for one.
pub open spec fn are_subtree_records(records: Seq<NodeRecord>, slots: Map<NodeId, Slot>, order: Seq<NodeId>, roots: Seq<NodeId>, now: u64) -> bool {
    &&& records.len() == roots.len()
    &&& forall|i: int| 0 <= i < records.len() ==> is_record_of(#[trigger] records[i], slots, order, roots[i], slots[roots[i]].weight + 1, now)
}

/// The record of a live node and of its subtree.
fn record_node(arena: &Arena<SpanNode>, ids: &Vec<NodeId>, n: NodeId, now: u64, Ghost(limit): Ghost<nat>) -> (record: NodeRecord)
    requires
        forest_ok(*arena),
        ids@ == arena_order(*arena),
        is_live(*arena, n),
        weight_of(*arena, n) < limit,
    ensures
        is_record_of(record, arena_slots(*arena), arena_order(*arena), n, limit, now),
    decreases limit,
{
    let ghost slots = arena_slots(*arena);
    let ghost order = arena_order(*arena);
    let kids = children_of_node(arena, ids, n);
    let mut children: Vec<NodeRecord> = Vec::new();
    let mut i: usize = 0;
    while i < kids.len()
        invariant
            0 <= i <= kids.len(),
            forest_ok(*arena),
            slots == arena_slots(*arena),
            order == arena_order(*arena),
            ids@ == order,
            forall|j: int| 0 <= j < kids@.len() ==> is_live(*arena, (#[trigger] kids@[j]).1) && weight_of(*arena, kids@[j].1) < weight_of(*arena, n),
            weight_of(*arena, n) < limit,
            children@.len() == i,
            forall|j: int| 0 <= j < i ==> is_record_of(#[trigger] children@[j], slots, order, kids@[j].1, weight_of(*arena, n), now),
        decreases kids.len() - i,
    {
        proof {
            assert(is_live(*arena, kids@[i as int].1));
        }
        let child = record_node(arena, ids, kids[i].1, now, Ghost(weight_of(*arena, n)));
        children.push(child);
        i += 1;
    }
    let data = arena_data(arena, n);
    let ticks = elapsed_ticks(data.start_time, now);
    NodeRecord { id: node_index(n), span: data.span.clone(), elapsed_ns: ticks_nanos(ticks), children }
}

/// The records of the tree in `arena` with the given root and current node, at
/// the clock reading `now`.
pub(crate) fn record_tree(arena: &Arena<SpanNode>, root: NodeId, current: NodeId, now: u64) -> (record: TreeRecord)
    requires
        forest_ok(*arena),
        is_live(*arena, root),
    ensures
        record.current == node_number(current),
        is_record_of(record.tree, arena_slots(*arena), arena_order(*arena), root, weight_of(*arena, root) + 1, now),
        are_subtree_records(
            record.detached@,
            arena_slots(*arena),
            arena_order(*arena),
            detached_among(arena_slots(*arena), arena_order(*arena), root),
            now,
        ),
{
    let ghost slots = arena_slots(*arena);
    let ids = arena_ids(arena);
    let tree = record_node(arena, &ids, root, now, Ghost(weight_of(*arena, root) + 1));
    let mut detached: Vec<NodeRecord> = Vec::new();
    let mut i: usize = 0;
    proof {
        assert(ids@.take(0) =~= Seq::<NodeId>::empty());
    }
    while i < ids.len()
        invariant
            0 <= i <= ids.len(),
            forest_ok(*arena),
            slots == arena_slots(*arena),
            ids@ == arena_order(*arena),
            are_subtree_records(detached@, slots, ids@, detached_among(slots, ids@.take(i as int), root), now),
        decreases ids.len() - i,
    {
        let n = ids[i];
        proof {
            assert(arena_order(*arena).contains(ids@[i as int]));
            assert(arena_order(*arena).to_set().contains(n));
            assert(is_live(*arena, n));
            let upto = ids@.take(i as int + 1);
            assert(upto.drop_last() =~= ids@.take(i as int));
            assert(upto.last() == n);
        }
        if !node_eq(n, root) && arena_parent(arena, n).is_none() {
            let subtree = record_node(arena, &ids, n, now, Ghost(weight_of(*arena, n) + 1));
            detached.push(subtree);
        }
        i += 1;
    }
    proof {
        assert(ids@.take(ids@.len() as int) =~= ids@);
    }
    TreeRecord { current: node_index(current), tree, detached }
}

} // verus!
