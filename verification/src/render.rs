//! The text of a tree: one line per node, children below their parent in the
//! order of their start times, detached subtrees after the main tree.

use vstd::prelude::*;
use indextree::Arena;
use indextree::NodeId;
use itertools::Itertools;
use crate::arena::{arena_slots, arena_order, node_number, Slot, is_live, parent_of, data_of, weight_of, node_ok, forest_ok};
use crate::arena::{arena_parent, arena_data, arena_ids, node_eq, node_index};
use crate::clock::{duration_text, secs_of, subsec_nanos_of, ticks_between, elapsed_ticks, elapsed_text};
use crate::span::SpanNode;
use crate::text::{decimal_text, number_text};

verus! {

/// Ten seconds in ticks: a span that is not long-running is flagged as stale
/// once more than this has elapsed since its start.
pub const STALE_TICKS: u64 = 42_949_672_960;

/// `items` with `x` put behind the last item that does not start later.
pub open spec fn insert_by_start(items: Seq<(u64, NodeId)>, x: (u64, NodeId)) -> Seq<(u64, NodeId)>
    decreases items.len(),
{
    if items.len() == 0 {
        seq![x]
    } else if items.last().0 <= x.0 {
        items.push(x)
    } else {
        insert_by_start(items.drop_last(), x).push(items.last())
    }
}

/// `items` in ascending order of start time; items that start together keep
/// the order that they have in `items`.
pub open spec fn sorted_by_start(items: Seq<(u64, NodeId)>) -> Seq<(u64, NodeId)>
    decreases items.len(),
{
    if items.len() == 0 {
        items
    } else {
        insert_by_start(sorted_by_start(items.drop_last()), items.last())
    }
}

/// `Itertools::sorted_by_key` with the start time as key: a stable sort in
/// ascending order.
#[verifier::external_body]
pub(crate) fn sort_by_start(items: Vec<(u64, NodeId)>) -> (sorted: Vec<(u64, NodeId)>)
    ensures
        sorted@ == sorted_by_start(items@),
{
    items.into_iter().sorted_by_key(|item| item.0).collect()
}

/// Two spaces for each level of depth.
pub open spec fn indent_text(depth: nat) -> Seq<char>
    decreases depth,
{
    if depth == 0 {
        Seq::empty()
    } else {
        indent_text((depth - 1) as nat) + "  "@
    }
}

/// Whether a node at `depth`, `ticks` after its start, is flagged as stale.
pub open spec fn is_stale(long_running: bool, depth: nat, ticks: u64) -> bool {
    depth > 0 && !long_running && ticks > STALE_TICKS
}

/// The line of one node.
pub open spec fn line_text(data: SpanNode, depth: nat, is_current: bool, now: u64) -> Seq<char> {
    let ticks = ticks_between(data.start_time, now);
    indent_text(depth) + data.span.name_text() + " ["@ + (if is_stale(data.span.is_long_running, depth, ticks) {
        "!!! "@
    } else {
        Seq::empty()
    }) + duration_text(secs_of(ticks) as u64, subsec_nanos_of(ticks) as u32) + "]"@ + (if depth > 0
        && is_current {
        "  <== current"@
    } else {
        Seq::empty()
    }) + "\n"@
}

/// The children of `n` among `order`, in that order, each with its start time.
pub open spec fn timed_children(slots: Map<NodeId, Slot>, order: Seq<NodeId>, n: NodeId) -> Seq<(u64, NodeId)>
    decreases order.len(),
{
    if order.len() == 0 {
        Seq::empty()
    } else if slots[order.last()].parent == Some(n) {
        timed_children(slots, order.drop_last(), n).push((slots[order.last()].data.start_time, order.last()))
    } else {
        timed_children(slots, order.drop_last(), n)
    }
}

/// The children of `n` as they are shown: in ascending order of start time, and
/// those that start together in the order in which the arena walks them.
pub open spec fn shown_children(slots: Map<NodeId, Slot>, order: Seq<NodeId>, n: NodeId) -> Seq<(u64, NodeId)> {
    sorted_by_start(timed_children(slots, order, n))
}

/// The lines of `nodes` at `depth`, each followed by the lines of its subtree.
///
/// `limit` bounds the weight of the nodes whose children are shown; in a forest
/// it is chosen above the weight of every node of `nodes` and cuts nothing.
/// `order` is the order in which the arena walks its nodes.
pub open spec fn nodes_text(slots: Map<NodeId, Slot>, order: Seq<NodeId>, nodes: Seq<(u64, NodeId)>, limit: nat, depth: nat, current: NodeId, now: u64) -> Seq<char>
    decreases limit, nodes.len(),
{
    if nodes.len() == 0 {
        Seq::empty()
    } else {
        let n = nodes.last().1;
        nodes_text(slots, order, nodes.drop_last(), limit, depth, current, now)
            + line_text(slots[n].data, depth, n == current, now)
            + (if slots[n].weight < limit {
                nodes_text(slots, order, shown_children(slots, order, n), slots[n].weight, depth + 1, current, now)
            } else {
                Seq::empty()
            })
    }
}

/// The lines of the subtree of `n`, with `n` at `depth`.
pub open spec fn subtree_text(slots: Map<NodeId, Slot>, order: Seq<NodeId>, n: NodeId, depth: nat, current: NodeId, now: u64) -> Seq<char> {
    nodes_text(slots, order, seq![(slots[n].data.start_time, n)], slots[n].weight + 1, depth, current, now)
}

/// Whether `n` is a detached root: a node without parent that is not the root.
pub open spec fn is_detached_root(slots: Map<NodeId, Slot>, root: NodeId, n: NodeId) -> bool {
    n != root && slots[n].parent is None
}

/// For each detached root among `order`, a header line with its number and
/// then its subtree, one level deep. `all` is the order in which the arena walks
/// its nodes.
pub open spec fn detached_text(slots: Map<NodeId, Slot>, all: Seq<NodeId>, order: Seq<NodeId>, root: NodeId, current: NodeId, now: u64) -> Seq<char>
    decreases order.len(),
{
    if order.len() == 0 {
        Seq::empty()
    } else {
        let n = order.last();
        detached_text(slots, all, order.drop_last(), root, current, now) + (if is_detached_root(slots, root, n) {
            "[Detached "@ + decimal_text(node_number(n)) + "]\n"@ + subtree_text(slots, all, n, 1, current, now)
        } else {
            Seq::empty()
        })
    }
}

/// The text of a tree at the clock reading `now`.
pub open spec fn tree_text(slots: Map<NodeId, Slot>, order: Seq<NodeId>, root: NodeId, current: NodeId, now: u64) -> Seq<char> {
    subtree_text(slots, order, root, 0, current, now) + detached_text(slots, order, order, root, current, now)
}

/// A node that is the parent of none of `order` has no children among them.
pub proof fn lemma_no_children_among(slots: Map<NodeId, Slot>, order: Seq<NodeId>, n: NodeId)
    requires
        forall|i: int| 0 <= i < order.len() ==> slots[#[trigger] order[i]].parent != Some(n),
    ensures
        timed_children(slots, order, n) == Seq::<(u64, NodeId)>::empty(),
    decreases order.len(),
{
    if order.len() > 0 {
        assert(order.last() == order[order.len() - 1]);
        assert forall|i: int| 0 <= i < order.drop_last().len() implies slots[#[trigger] order.drop_last()[i]].parent
            != Some(n) by {
            assert(order.drop_last()[i] == order[i]);
        }
        lemma_no_children_among(slots, order.drop_last(), n);
    }
}

/// Two children of `parent` that come last in the arena's walk order, where
/// no node before them is a child of `parent`, are shown in that order if the
/// first did not start later than the second: also where they started together.
pub proof fn lemma_two_children_shown_in_walk_order(slots: Map<NodeId, Slot>, order: Seq<NodeId>, parent: NodeId, first: NodeId, second: NodeId)
    requires
        order.len() >= 2,
        order[order.len() - 2] == first,
        order[order.len() - 1] == second,
        forall|i: int| 0 <= i < order.len() - 2 ==> slots[#[trigger] order[i]].parent != Some(parent),
        slots[first].parent == Some(parent),
        slots[second].parent == Some(parent),
        slots[first].data.start_time <= slots[second].data.start_time,
    ensures
        shown_children(slots, order, parent) == seq![(slots[first].data.start_time, first), (slots[second].data.start_time, second)],
{
    let upto_first = order.drop_last();
    let before = upto_first.drop_last();
    assert(upto_first.last() == first);
    assert(order.last() == second);
    assert forall|i: int| 0 <= i < before.len() implies slots[#[trigger] before[i]].parent != Some(parent) by {
        assert(before[i] == order[i]);
    }
    lemma_no_children_among(slots, before, parent);
    let one = seq![(slots[first].data.start_time, first)];
    let two = seq![(slots[first].data.start_time, first), (slots[second].data.start_time, second)];
    assert(timed_children(slots, upto_first, parent) =~= one);
    assert(timed_children(slots, order, parent) =~= two);
    assert(two.drop_last() =~= one);
    assert(one.drop_last() =~= Seq::<(u64, NodeId)>::empty());
    assert(sorted_by_start(one.drop_last()) =~= Seq::<(u64, NodeId)>::empty());
    assert(sorted_by_start(one) =~= one);
    assert(sorted_by_start(two) =~= two);
}

/// The lines of a node without children: its own line alone.
pub proof fn lemma_text_of_leaf(slots: Map<NodeId, Slot>, order: Seq<NodeId>, n: NodeId, depth: nat, current: NodeId, now: u64)
    requires
        forall|i: int| 0 <= i < order.len() ==> slots[#[trigger] order[i]].parent != Some(n),
    ensures
        subtree_text(slots, order, n, depth, current, now) == line_text(slots[n].data, depth, n == current, now),
{
    lemma_no_children_among(slots, order, n);
    let nodes = seq![(slots[n].data.start_time, n)];
    let none = Seq::<(u64, NodeId)>::empty();
    let line = line_text(slots[n].data, depth, n == current, now);
    assert(nodes.drop_last() =~= none);
    assert(nodes.last().1 == n);
    assert(shown_children(slots, order, n) =~= none);
    assert(nodes_text(slots, order, none, slots[n].weight, depth + 1, current, now) =~= Seq::<char>::empty());
    assert(nodes_text(slots, order, none, slots[n].weight + 1, depth, current, now) =~= Seq::<char>::empty());
    assert(nodes_text(slots, order, nodes, slots[n].weight + 1, depth, current, now) =~= Seq::<char>::empty() + line
        + Seq::<char>::empty());
    assert(Seq::<char>::empty() + line + Seq::<char>::empty() =~= line);
}

/// The text of a tree that holds its root, without children, and one detached
/// node, without children: the line of the root, the header with the number of
/// the detached node, and the line of that node one level deep, with the time
/// since its start.
pub proof fn lemma_text_of_root_and_detached_leaf(slots: Map<NodeId, Slot>, order: Seq<NodeId>, root: NodeId, leaf: NodeId, current: NodeId, now: u64)
    requires
        root != leaf,
        order == seq![root, leaf] || order == seq![leaf, root],
        slots[root].parent is None,
        slots[leaf].parent is None,
    ensures
        tree_text(slots, order, root, current, now) == line_text(slots[root].data, 0, root == current, now) + "[Detached "@
            + decimal_text(node_number(leaf)) + "]\n"@ + line_text(slots[leaf].data, 1, leaf == current, now),
{
    lemma_text_of_leaf(slots, order, root, 0, current, now);
    lemma_text_of_leaf(slots, order, leaf, 1, current, now);
    let header = "[Detached "@ + decimal_text(node_number(leaf)) + "]\n"@;
    let part = header + line_text(slots[leaf].data, 1, leaf == current, now);
    let none = Seq::<char>::empty();
    let first = order.drop_last();
    assert(first.drop_last() =~= Seq::<NodeId>::empty());
    assert(detached_text(slots, order, first.drop_last(), root, current, now) =~= none);
    if order == seq![root, leaf] {
        assert(first.last() == root);
        assert(order.last() == leaf);
        assert(detached_text(slots, order, first, root, current, now) =~= none + none);
        assert(detached_text(slots, order, order, root, current, now) =~= none + none + part);
    } else {
        assert(first.last() == leaf);
        assert(order.last() == root);
        assert(detached_text(slots, order, first, root, current, now) =~= none + part);
        assert(detached_text(slots, order, order, root, current, now) =~= none + part + none);
    }
    assert(detached_text(slots, order, order, root, current, now) =~= part);
    assert(line_text(slots[root].data, 0, root == current, now) + part =~= line_text(slots[root].data, 0, root == current, now)
        + "[Detached "@ + decimal_text(node_number(leaf)) + "]\n"@ + line_text(slots[leaf].data, 1, leaf == current, now));
}

/// The text of a tree depends on its nodes, its root, its current node and the
/// clock reading alone: two arenas with the same nodes give the same text.
pub proof fn lemma_same_nodes_same_text(a: Arena<SpanNode>, b: Arena<SpanNode>, root: NodeId, current: NodeId, now: u64)
    requires
        arena_slots(a) == arena_slots(b),
        arena_order(a) == arena_order(b),
    ensures
        tree_text(arena_slots(a), arena_order(a), root, current, now) == tree_text(arena_slots(b), arena_order(b), root, current, now),
{
}

/// A long-running span is never flagged as stale, however long ago it started,
/// and neither is a node at depth 0: its line holds no `!!! `.
pub proof fn lemma_long_running_is_never_flagged(data: SpanNode, depth: nat, is_current: bool, now: u64)
    requires
        data.span.is_long_running || depth == 0,
    ensures
        !is_stale(data.span.is_long_running, depth, ticks_between(data.start_time, now)),
        line_text(data, depth, is_current, now) == indent_text(depth) + data.span.name_text() + " ["@ + duration_text(
            secs_of(ticks_between(data.start_time, now)) as u64,
            subsec_nanos_of(ticks_between(data.start_time, now)) as u32,
        ) + "]"@ + (if depth > 0 && is_current {
            "  <== current"@
        } else {
            Seq::empty()
        }) + "\n"@,
{
    let head = indent_text(depth) + data.span.name_text() + " ["@;
    assert(head + Seq::<char>::empty() =~= head);
}

/// What is inserted into a list is in the list, and so is what was there.
pub proof fn lemma_insert_member(items: Seq<(u64, NodeId)>, x: (u64, NodeId), y: (u64, NodeId))
    ensures
        insert_by_start(items, x).len() == items.len() + 1,
        insert_by_start(items, x).contains(y) <==> (y == x || items.contains(y)),
    decreases items.len(),
{
    let r = insert_by_start(items, x);
    if items.len() == 0 {
        assert(r[0] == x);
        if r.contains(y) {
            let i = choose|i: int| 0 <= i < r.len() && r[i] == y;
        }
        if items.contains(y) {
            let i = choose|i: int| 0 <= i < items.len() && items[i] == y;
        }
    } else if items.last().0 <= x.0 {
        if r.contains(y) {
            let i = choose|i: int| 0 <= i < r.len() && r[i] == y;
            if i < items.len() {
                assert(items[i] == y);
            }
        }
        assert(r[items.len() as int] == x);
        if items.contains(y) {
            let i = choose|i: int| 0 <= i < items.len() && items[i] == y;
            assert(r[i] == y);
        }
    } else {
        let front = items.drop_last();
        lemma_insert_member(front, x, y);
        let inner = insert_by_start(front, x);
        assert(r == inner.push(items.last()));
        if r.contains(y) {
            let i = choose|i: int| 0 <= i < r.len() && r[i] == y;
            if i < inner.len() {
                assert(inner[i] == y);
                if y != x {
                    assert(front.contains(y));
                    let j = choose|j: int| 0 <= j < front.len() && front[j] == y;
                    assert(items[j] == y);
                }
            } else {
                assert(items[items.len() - 1] == y);
            }
        }
        if y == x {
            let i = choose|i: int| 0 <= i < inner.len() && inner[i] == x;
            assert(r[i] == x);
        }
        if items.contains(y) {
            let i = choose|i: int| 0 <= i < items.len() && items[i] == y;
            if i < front.len() {
                assert(front[i] == y);
                assert(inner.contains(y));
                let j = choose|j: int| 0 <= j < inner.len() && inner[j] == y;
                assert(r[j] == y);
            } else {
                assert(r[inner.len() as int] == y);
            }
        }
    }
}

/// Sorting keeps the items: the sorted list holds what the list held.
pub proof fn lemma_sorted_member(items: Seq<(u64, NodeId)>, y: (u64, NodeId))
    ensures
        sorted_by_start(items).len() == items.len(),
        sorted_by_start(items).contains(y) <==> items.contains(y),
    decreases items.len(),
{
    if items.len() > 0 {
        let front = items.drop_last();
        lemma_sorted_member(front, y);
        lemma_insert_member(sorted_by_start(front), items.last(), y);
        if items.contains(y) {
            let i = choose|i: int| 0 <= i < items.len() && items[i] == y;
            if i < front.len() {
                assert(front[i] == y);
            }
        }
        if front.contains(y) {
            let j = choose|j: int| 0 <= j < front.len() && front[j] == y;
            assert(items[j] == y);
        }
        assert(items[items.len() - 1] == items.last());
    } else {
        if items.contains(y) {
            let i = choose|i: int| 0 <= i < items.len() && items[i] == y;
        }
    }
}

/// Appends the line of one node to `out`.
fn push_line(out: &mut String, data: &SpanNode, indent: &String, nested: bool, is_current: bool, now: u64, Ghost(depth): Ghost<nat>)
    requires
        indent@ == indent_text(depth),
        nested == (depth > 0),
    ensures
        final(out)@ == old(out)@ + line_text(*data, depth, is_current, now),
{
    let ghost before = out@;
    let ticks = elapsed_ticks(data.start_time, now);
    out.push_str(indent.as_str());
    out.push_str(data.span.name());
    out.push_str(" [");
    if nested && !data.span.is_long_running && ticks > STALE_TICKS {
        out.push_str("!!! ");
    }
    let elapsed = elapsed_text(ticks);
    out.push_str(elapsed.as_str());
    out.push_str("]");
    if nested && is_current {
        out.push_str("  <== current");
    }
    out.push_str("\n");
    proof {
        assert(out@ =~= before + line_text(*data, depth, is_current, now));
    }
}

/// The children of a live node in the order in which the arena walks them, each
/// with its start time.
pub(crate) fn timed_children_of(arena: &Arena<SpanNode>, ids: &Vec<NodeId>, n: NodeId) -> (items: Vec<(u64, NodeId)>)
    requires
        forest_ok(*arena),
        ids@ == arena_order(*arena),
    ensures
        items@ == timed_children(arena_slots(*arena), arena_order(*arena), n),
        forall|j: int| 0 <= j < items@.len() ==> is_live(*arena, (#[trigger] items@[j]).1) && parent_of(*arena, items@[j].1) == Some(n),
{
    let ghost slots = arena_slots(*arena);
    let mut items: Vec<(u64, NodeId)> = Vec::new();
    let mut i: usize = 0;
    proof {
        assert(ids@.take(0) =~= Seq::<NodeId>::empty());
    }
    while i < ids.len()
        invariant
            0 <= i <= ids.len(),
            forest_ok(*arena),
            slots == arena_slots(*arena),
            ids@ == arena_order(*arena),
            items@ == timed_children(slots, ids@.take(i as int), n),
            forall|j: int| 0 <= j < items@.len() ==> is_live(*arena, (#[trigger] items@[j]).1) && parent_of(*arena, items@[j].1) == Some(n),
        decreases ids.len() - i,
    {
        let id = ids[i];
        proof {
            assert(arena_order(*arena).contains(ids@[i as int]));
            assert(arena_order(*arena).to_set().contains(id));
            assert(is_live(*arena, id));
            let upto = ids@.take(i as int + 1);
            assert(upto.drop_last() =~= ids@.take(i as int));
            assert(upto.last() == id);
        }
        let is_child = match arena_parent(arena, id) {
            Some(parent) => node_eq(parent, n),
            None => false,
        };
        if is_child {
            let data = arena_data(arena, id);
            items.push((data.start_time, id));
        }
        i += 1;
    }
    proof {
        assert(ids@.take(ids@.len() as int) =~= ids@);
    }
    items
}

/// The children of a live node as they are shown.
pub(crate) fn children_of_node(arena: &Arena<SpanNode>, ids: &Vec<NodeId>, n: NodeId) -> (sorted: Vec<(u64, NodeId)>)
    requires
        forest_ok(*arena),
        ids@ == arena_order(*arena),
        is_live(*arena, n),
    ensures
        sorted@ == shown_children(arena_slots(*arena), arena_order(*arena), n),
        forall|j: int| 0 <= j < sorted@.len() ==> is_live(*arena, (#[trigger] sorted@[j]).1) && weight_of(*arena, sorted@[j].1) < weight_of(*arena, n),
{
    let kids = timed_children_of(arena, ids, n);
    let sorted = sort_by_start(kids);
    proof {
        assert forall|j: int| 0 <= j < sorted@.len() implies is_live(*arena, (#[trigger] sorted@[j]).1) && weight_of(
            *arena,
            sorted@[j].1,
        ) < weight_of(*arena, n) by {
            lemma_sorted_member(kids@, sorted@[j]);
            assert(sorted@.contains(sorted@[j]));
            let k = choose|k: int| 0 <= k < kids@.len() && kids@[k] == sorted@[j];
            assert(is_live(*arena, kids@[k].1));
            assert(node_ok(*arena, kids@[k].1));
        }
    }
    sorted
}

/// Appends the lines of `nodes` and of their subtrees to `out`.
fn push_nodes(out: &mut String, arena: &Arena<SpanNode>, ids: &Vec<NodeId>, nodes: &Vec<(u64, NodeId)>, indent: &String, nested: bool, current: NodeId, now: u64, Ghost(limit): Ghost<nat>, Ghost(depth): Ghost<nat>)
    requires
        forest_ok(*arena),
        ids@ == arena_order(*arena),
        forall|j: int| 0 <= j < nodes@.len() ==> is_live(*arena, (#[trigger] nodes@[j]).1) && weight_of(*arena, nodes@[j].1) < limit,
        indent@ == indent_text(depth),
        nested == (depth > 0),
    ensures
        final(out)@ == old(out)@ + nodes_text(arena_slots(*arena), arena_order(*arena), nodes@, limit, depth, current, now),
    decreases limit,
{
    let ghost before = out@;
    let ghost slots = arena_slots(*arena);
    let ghost order = arena_order(*arena);
    let mut deeper = indent.clone();
    deeper.push_str("  ");
    let mut i: usize = 0;
    proof {
        assert(nodes@.take(0) =~= Seq::<(u64, NodeId)>::empty());
    }
    while i < nodes.len()
        invariant
            0 <= i <= nodes.len(),
            forest_ok(*arena),
            slots == arena_slots(*arena),
            order == arena_order(*arena),
            ids@ == order,
            forall|j: int| 0 <= j < nodes@.len() ==> is_live(*arena, (#[trigger] nodes@[j]).1) && weight_of(*arena, nodes@[j].1) < limit,
            deeper@ == indent_text(depth + 1),
            indent@ == indent_text(depth),
            nested == (depth > 0),
            out@ == before + nodes_text(slots, order, nodes@.take(i as int), limit, depth, current, now),
        decreases nodes.len() - i,
    {
        let n = nodes[i].1;
        let ghost so_far = out@;
        proof {
            assert(is_live(*arena, nodes@[i as int].1));
            assert(node_ok(*arena, n));
        }
        let data = arena_data(arena, n);
        push_line(out, data, indent, nested, node_eq(n, current), now, Ghost(depth));
        let sorted = children_of_node(arena, ids, n);
        push_nodes(out, arena, ids, &sorted, &deeper, true, current, now, Ghost(weight_of(*arena, n)), Ghost(depth + 1));
        proof {
            let upto = nodes@.take(i as int + 1);
            assert(upto.drop_last() =~= nodes@.take(i as int));
            assert(upto.last() == nodes@[i as int]);
            assert(out@ =~= before + nodes_text(slots, order, upto, limit, depth, current, now));
        }
        i += 1;
    }
    proof {
        assert(nodes@.take(nodes@.len() as int) =~= nodes@);
    }
}

/// Appends the lines of the subtree of a live node to `out`.
fn push_subtree(out: &mut String, arena: &Arena<SpanNode>, ids: &Vec<NodeId>, n: NodeId, indent: &String, nested: bool, current: NodeId, now: u64, Ghost(depth): Ghost<nat>)
    requires
        forest_ok(*arena),
        ids@ == arena_order(*arena),
        is_live(*arena, n),
        indent@ == indent_text(depth),
        nested == (depth > 0),
    ensures
        final(out)@ == old(out)@ + subtree_text(arena_slots(*arena), arena_order(*arena), n, depth, current, now),
{
    let data = arena_data(arena, n);
    let mut nodes: Vec<(u64, NodeId)> = Vec::new();
    nodes.push((data.start_time, n));
    proof {
        assert(nodes@ =~= seq![(data_of(*arena, n).start_time, n)]);
    }
    push_nodes(out, arena, ids, &nodes, indent, nested, current, now, Ghost(weight_of(*arena, n) + 1), Ghost(depth));
}

/// The text of the tree in `arena` with the given root and current node, at
/// the clock reading `now`.
pub(crate) fn render_tree(arena: &Arena<SpanNode>, root: NodeId, current: NodeId, now: u64) -> (text: String)
    requires
        forest_ok(*arena),
        is_live(*arena, root),
    ensures
        text@ == tree_text(arena_slots(*arena), arena_order(*arena), root, current, now),
{
    let ghost slots = arena_slots(*arena);
    let mut out = String::new();
    let top = String::new();
    let mut one = String::new();
    one.push_str("  ");
    proof {
        assert(top@ =~= indent_text(0));
        assert(one@ =~= indent_text(1)) by {
            assert(indent_text(1) == indent_text(0) + "  "@);
        }
    }
    let ids = arena_ids(arena);
    push_subtree(&mut out, arena, &ids, root, &top, false, current, now, Ghost(0));
    let ghost main = out@;
    let mut i: usize = 0;
    proof {
        assert(ids@.take(0) =~= Seq::<NodeId>::empty());
    }
    while i < ids.len()
        invariant
            0 <= i <= ids.len(),
            forest_ok(*arena),
            slots == arena_slots(*arena),
            ids@ == arena_order(*arena),
            one@ == indent_text(1),
            out@ == main + detached_text(slots, ids@, ids@.take(i as int), root, current, now),
        decreases ids.len() - i,
    {
        let n = ids[i];
        proof {
            assert(arena_order(*arena).contains(ids@[i as int]));
            assert(arena_order(*arena).to_set().contains(n));
            assert(is_live(*arena, n));
        }
        let ghost so_far = out@;
        if !node_eq(n, root) && arena_parent(arena, n).is_none() {
            out.push_str("[Detached ");
            let number = number_text(node_index(n) as u64);
            out.push_str(number.as_str());
            out.push_str("]\n");
            push_subtree(&mut out, arena, &ids, n, &one, true, current, now, Ghost(1));
        }
        proof {
            let upto = ids@.take(i as int + 1);
            assert(upto.drop_last() =~= ids@.take(i as int));
            assert(upto.last() == n);
            assert(out@ =~= main + detached_text(slots, ids@, upto, root, current, now));
        }
        i += 1;
    }
    proof {
        assert(ids@.take(ids@.len() as int) =~= ids@);
        assert(main == subtree_text(slots, ids@, root, 0, current, now));
    }
    out
}

} // verus!
