//! The await-tree of one task: a forest of span nodes with a root and a current node.

use vstd::prelude::*;
use indextree::Arena;
use indextree::NodeId;
use crate::arena::{arena_slots, arena_order, arena_spare, node_number, Slot, is_live, parent_of, children_of, data_of, depth_of, weight_of, node_ok, forest_ok, is_ancestor_or_self, children_without, same_nodes, node_prepended};
use crate::arena::{arena_new, arena_new_node, arena_detach, arena_remove, arena_prepend, arena_children, arena_parent, arena_is_live, arena_ids, arena_clone, node_eq};
use crate::clock::clock_now;
use crate::record::{TreeRecord, is_record_of, are_subtree_records, record_tree};
use crate::render::{is_detached_root, tree_text, line_text, render_tree, shown_children, lemma_two_children_shown_in_walk_order, lemma_text_of_root_and_detached_leaf};
use crate::text::decimal_text;
use crate::span::Span;
use crate::span::SpanNode;

verus! {

/// An await-tree for a task.
pub struct Tree {
    arena: Arena<SpanNode>,
    root: NodeId,
    current: NodeId,
}

/// `b` is `a` with the new node `id`, holding `data`, as the first child of `cur`.
pub open spec fn node_pushed(a: Arena<SpanNode>, b: Arena<SpanNode>, cur: NodeId, data: SpanNode, id: NodeId) -> bool {
    &&& !is_live(a, id)
    &&& arena_slots(b).dom() == arena_slots(a).dom().insert(id)
    &&& data_of(b, id) == data
    &&& parent_of(b, id) == Some(cur)
    &&& children_of(b, id) == Seq::<NodeId>::empty()
    &&& forall|m: NodeId| #[trigger] is_live(a, m) ==> {
        &&& data_of(b, m) == data_of(a, m)
        &&& parent_of(b, m) == parent_of(a, m)
        &&& children_of(b, m) == (if m == cur { seq![id] + children_of(a, m) } else { children_of(a, m) })
    }
}

/// `b` is `a` without the live node `n`: `n` has left its parent's children and
/// the arena, and its own children are left without a parent.
pub open spec fn node_dropped(a: Arena<SpanNode>, b: Arena<SpanNode>, n: NodeId) -> bool {
    &&& arena_slots(b).dom() == arena_slots(a).dom().remove(n)
    &&& arena_order(b) == arena_order(a).remove_value(n)
    &&& forall|m: NodeId| #[trigger] is_live(b, m) ==> {
        &&& data_of(b, m) == data_of(a, m)
        &&& parent_of(b, m) == (if parent_of(a, m) == Some(n) { None } else { parent_of(a, m) })
        &&& children_of(b, m) == children_without(a, m, n)
    }
}

/// A node without children stands above no other node.
pub proof fn lemma_leaf_is_no_ancestor(a: Arena<SpanNode>, x: NodeId, y: NodeId)
    requires
        forest_ok(a),
        is_live(a, y),
        children_of(a, x).len() == 0,
        x != y,
    ensures
        !is_ancestor_or_self(a, x, y),
    decreases depth_of(a, y),
{
    assert(node_ok(a, y));
    match parent_of(a, y) {
        Some(p) => {
            if depth_of(a, p) < depth_of(a, y) {
                if p == x {
                    assert(children_of(a, p).contains(y));
                } else {
                    lemma_leaf_is_no_ancestor(a, x, p);
                }
            }
        },
        None => {},
    }
}

/// A node stands no deeper than the nodes below it.
pub proof fn lemma_ancestor_is_not_deeper(a: Arena<SpanNode>, x: NodeId, y: NodeId)
    requires
        is_ancestor_or_self(a, x, y),
    ensures
        depth_of(a, x) <= depth_of(a, y),
    decreases depth_of(a, y),
{
    if x != y {
        lemma_ancestor_is_not_deeper(a, x, parent_of(a, y).unwrap());
    }
}

/// What stands above a node stands above the nodes below it.
pub proof fn lemma_ancestor_of_ancestor(a: Arena<SpanNode>, x: NodeId, m: NodeId, y: NodeId)
    requires
        is_ancestor_or_self(a, x, m),
        is_ancestor_or_self(a, m, y),
    ensures
        is_ancestor_or_self(a, x, y),
    decreases depth_of(a, y),
{
    if m != y {
        lemma_ancestor_of_ancestor(a, x, m, parent_of(a, y).unwrap());
    }
}

/// Where every node from `y` upwards is live in `b` and has the parent there
/// that it has in `a`, what stands above `y` in `a` stands above it in `b`.
pub proof fn lemma_chain_is_kept(a: Arena<SpanNode>, b: Arena<SpanNode>, x: NodeId, y: NodeId)
    requires
        forest_ok(b),
        is_ancestor_or_self(a, x, y),
        forall|m: NodeId| #[trigger] is_ancestor_or_self(a, m, y) ==> is_live(b, m) && parent_of(b, m) == parent_of(a, m),
    ensures
        is_ancestor_or_self(b, x, y),
    decreases depth_of(a, y),
{
    if x != y {
        let p = parent_of(a, y).unwrap();
        assert(is_ancestor_or_self(a, y, y));
        assert forall|m: NodeId| #[trigger] is_ancestor_or_self(a, m, p) implies is_live(b, m) && parent_of(b, m) == parent_of(a, m) by {
            assert(is_ancestor_or_self(a, m, y));
        }
        lemma_chain_is_kept(a, b, x, p);
        assert(node_ok(b, y));
    }
}

/// A live node has live nodes above it alone.
pub proof fn lemma_ancestors_are_live(a: Arena<SpanNode>, x: NodeId, y: NodeId)
    requires
        forest_ok(a),
        is_live(a, y),
        is_ancestor_or_self(a, x, y),
    ensures
        is_live(a, x),
    decreases depth_of(a, y),
{
    if x != y {
        assert(node_ok(a, y));
        lemma_ancestors_are_live(a, x, parent_of(a, y).unwrap());
    }
}

/// Soundness depends on the nodes alone.
pub proof fn lemma_same_nodes_ok(a: Arena<SpanNode>, b: Arena<SpanNode>)
    requires
        same_nodes(a, b),
        forest_ok(a),
    ensures
        forest_ok(b),
{
    assert forall|n: NodeId| #[trigger] is_live(b, n) implies node_ok(b, n) by {
        assert(is_live(a, n));
        assert(node_ok(a, n));
    }
}

/// Taking a node out of its parent's children and then out of the arena drops it.
fn detach_and_remove(arena: &mut Arena<SpanNode>, node: NodeId)
    requires
        forest_ok(*old(arena)),
    ensures
        forest_ok(*final(arena)),
        if is_live(*old(arena), node) {
            node_dropped(*old(arena), *final(arena), node)
        } else {
            same_nodes(*old(arena), *final(arena))
        },
{
    let ghost a = *arena;
    arena_detach(arena, node);
    let ghost a1 = *arena;
    arena_remove(arena, node);
    proof {
        if is_live(a, node) {
            assert(is_live(a1, node));
            assert forall|m: NodeId| #[trigger] is_live(*arena, m) implies {
                &&& data_of(*arena, m) == data_of(a, m)
                &&& parent_of(*arena, m) == (if parent_of(a, m) == Some(node) { None } else { parent_of(a, m) })
                &&& children_of(*arena, m) == children_without(a, m, node)
            } by {
                assert(is_live(a1, m));
                assert(is_live(a, m));
                assert(m != node);
            }
        } else {
            lemma_same_nodes_ok(a, a1);
            lemma_same_nodes_ok(a1, *arena);
        }
    }
}

/// The detached roots of a forest: its live nodes without parent, but for the root.
pub open spec fn detached_set(slots: Map<NodeId, Slot>, root: NodeId) -> Set<NodeId> {
    slots.dom().filter(|n: NodeId| is_detached_root(slots, root, n))
}

/// The detached roots among `order`, in that order.
pub open spec fn detached_among(slots: Map<NodeId, Slot>, order: Seq<NodeId>, root: NodeId) -> Seq<NodeId>
    decreases order.len(),
{
    if order.len() == 0 {
        order
    } else if is_detached_root(slots, root, order.last()) {
        detached_among(slots, order.drop_last(), root).push(order.last())
    } else {
        detached_among(slots, order.drop_last(), root)
    }
}

/// The detached roots among a list without repetition are, without repetition,
/// the detached roots in the set of the list.
pub proof fn lemma_detached_among_set(slots: Map<NodeId, Slot>, order: Seq<NodeId>, root: NodeId)
    requires
        order.no_duplicates(),
    ensures
        detached_among(slots, order, root).no_duplicates(),
        detached_among(slots, order, root).to_set() == order.to_set().filter(|n: NodeId| is_detached_root(slots, root, n)),
    decreases order.len(),
{
    let f = |n: NodeId| is_detached_root(slots, root, n);
    let out = detached_among(slots, order, root);
    if order.len() == 0 {
        assert(out.to_set() =~= order.to_set().filter(f));
    } else {
        let front = order.drop_last();
        let x = order.last();
        lemma_detached_among_set(slots, front, root);
        let inner = detached_among(slots, front, root);
        assert(forall|i: int| 0 <= i < front.len() ==> front[i] == order[i]);
        assert(!front.contains(x)) by {
            if front.contains(x) {
                let i = choose|i: int| 0 <= i < front.len() && front[i] == x;
                assert(order[i] == order[order.len() - 1]);
            }
        }
        assert(!inner.to_set().contains(x));
        assert(!inner.contains(x));
        assert(order =~= front.push(x));
        front.lemma_push_to_set_commute(x);
        if is_detached_root(slots, root, x) {
            inner.lemma_push_to_set_commute(x);
            assert(out.to_set() =~= order.to_set().filter(f));
            assert(out.no_duplicates());
        } else {
            assert(out.to_set() =~= order.to_set().filter(f));
        }
    }
}

/// The balance of one poll of a computation whose node is `node`. The poll
/// steps into the node, under `parent`; the computation inside is polled, which
/// removes no more nodes than it adds and leaves `node` live; then the node is
/// popped where the computation is ready, and stepped out of where it is not.
/// A ready poll leaves one node less than the inner poll left, a pending poll as
/// many, and no less than there were before; where the inner poll added none,
/// the poll as a whole removes one node or none.
pub proof fn lemma_poll_balance(
    before: Arena<SpanNode>,
    entered: Arena<SpanNode>,
    polled: Arena<SpanNode>,
    after: Arena<SpanNode>,
    parent: NodeId,
    node: NodeId,
    ready: bool,
)
    requires
        entered == before || node_prepended(before, entered, parent, node),
        arena_slots(polled).dom().finite(),
        arena_slots(polled).dom().len() >= arena_slots(entered).dom().len(),
        is_live(polled, node),
        if ready {
            node_dropped(polled, after, node)
        } else {
            after == polled
        },
    ensures
        ready ==> arena_slots(after).dom().len() == arena_slots(polled).dom().len() - 1,
        !ready ==> arena_slots(after).dom().len() == arena_slots(polled).dom().len(),
        !ready ==> arena_slots(after).dom().len() >= arena_slots(before).dom().len(),
        arena_slots(polled).dom().len() == arena_slots(entered).dom().len() ==> arena_slots(after).dom().len()
            == arena_slots(before).dom().len() - (if ready { 1nat } else { 0nat }),
{
}

/// Two spans pushed one after the other under a node without children, in a
/// tree that has lost no node, are shown in the order in which they were
/// pushed if the first did not start later than the second: also where they
/// started together.
pub proof fn lemma_siblings_shown_as_pushed(
    before: Tree,
    with_first: Tree,
    with_both: Tree,
    parent: NodeId,
    first: NodeId,
    first_data: SpanNode,
    second: NodeId,
    second_data: SpanNode,
)
    requires
        before.wf(),
        before.is_packed(),
        forall|m: NodeId| #[trigger] is_live(before.forest(), m) ==> parent_of(before.forest(), m) != Some(parent),
        node_pushed(before.forest(), with_first.forest(), parent, first_data, first),
        arena_order(with_first.forest()) == arena_order(before.forest()).push(first),
        node_pushed(with_first.forest(), with_both.forest(), parent, second_data, second),
        arena_order(with_both.forest()) == arena_order(with_first.forest()).push(second),
        first_data.start_time <= second_data.start_time,
    ensures
        shown_children(arena_slots(with_both.forest()), arena_order(with_both.forest()), parent) == seq![
            (first_data.start_time, first),
            (second_data.start_time, second),
        ],
{
    let a = before.forest();
    let b = with_first.forest();
    let c = with_both.forest();
    let order = arena_order(c);
    assert(is_live(b, first));
    assert forall|i: int| 0 <= i < order.len() - 2 implies arena_slots(c)[#[trigger] order[i]].parent != Some(parent) by {
        let m = order[i];
        assert(arena_order(a)[i] == m);
        assert(arena_order(a).contains(m));
        assert(arena_order(a).to_set().contains(m));
        assert(is_live(a, m));
        assert(is_live(b, m));
    }
    lemma_two_children_shown_in_walk_order(arena_slots(c), order, parent, first, second);
}

/// The text of a tree that is left with its root and one detached node: the
/// line of the root, a header with the number of the detached node, and the
/// line of that node one level deep, with the time since its start. No other
/// node is named.
pub proof fn lemma_text_with_one_detached_node(tree: Tree, leaf: NodeId, now: u64)
    requires
        tree.wf(),
        leaf != tree.root_id(),
        arena_slots(tree.forest()).dom() == set![tree.root_id(), leaf],
        parent_of(tree.forest(), leaf) is None,
    ensures
        tree_text(arena_slots(tree.forest()), arena_order(tree.forest()), tree.root_id(), tree.current_id(), now) == line_text(
            data_of(tree.forest(), tree.root_id()),
            0,
            tree.root_id() == tree.current_id(),
            now,
        ) + "[Detached "@ + decimal_text(node_number(leaf)) + "]\n"@ + line_text(
            data_of(tree.forest(), leaf),
            1,
            leaf == tree.current_id(),
            now,
        ),
{
    let order = arena_order(tree.forest());
    let root = tree.root_id();
    order.unique_seq_to_set();
    assert(set![root, leaf].len() == 2) by {
        assert(set![root, leaf] =~= set![root].insert(leaf));
    }
    assert(order.len() == 2);
    assert(order.to_set().contains(order[0]));
    assert(order.to_set().contains(order[1]));
    assert(order[0] != order[1]);
    assert(order =~= seq![order[0], order[1]]);
    lemma_text_of_root_and_detached_leaf(arena_slots(tree.forest()), order, root, leaf, tree.current_id(), now);
}

/// In a sound tree a current node other than the root has a parent.
pub proof fn lemma_below_root_has_parent(tree: Tree)
    requires
        tree.wf(),
        tree.current_id() != tree.root_id(),
    ensures
        parent_of(tree.forest(), tree.current_id()) is Some,
{
}

/// Dropping a node removes that node alone and leaves each of its children
/// behind as a detached root.
pub proof fn lemma_dropped_node_detaches_children(before: Tree, after: Tree, node: NodeId, child: NodeId)
    requires
        before.wf(),
        after.root_id() == before.root_id(),
        is_live(before.forest(), node),
        node_dropped(before.forest(), after.forest(), node),
        is_live(before.forest(), child),
        parent_of(before.forest(), child) == Some(node),
    ensures
        !is_live(after.forest(), node),
        after.node_count() == before.node_count() - 1,
        is_live(after.forest(), child),
        detached_set(arena_slots(after.forest()), after.root_id()).contains(child),
{
    assert(node_ok(before.forest(), child));
    assert(node_ok(before.forest(), node));
    assert(child != node);
    assert(is_live(after.forest(), child));
}

/// Dropping a node a second time changes nothing: the node is gone after the
/// first time.
pub proof fn lemma_dropped_node_stays_dropped(first: Tree, second: Tree, third: Tree, node: NodeId)
    requires
        first.wf(),
        is_live(first.forest(), node),
        node_dropped(first.forest(), second.forest(), node),
        if is_live(second.forest(), node) {
            node_dropped(second.forest(), third.forest(), node)
        } else {
            same_nodes(second.forest(), third.forest())
        },
    ensures
        !is_live(second.forest(), node),
        same_nodes(second.forest(), third.forest()),
        third.node_count() == second.node_count(),
{
}

/// Whether `node` is among `ids`.
fn contains_node(ids: &Vec<NodeId>, node: NodeId) -> (found: bool)
    ensures
        found == ids@.contains(node),
{
    let mut i: usize = 0;
    while i < ids.len()
        invariant
            0 <= i <= ids.len(),
            forall|j: int| 0 <= j < i ==> ids@[j] != node,
        decreases ids.len() - i,
    {
        if node_eq(ids[i], node) {
            return true;
        }
        i += 1;
    }
    false
}

impl Clone for Tree {
    fn clone(&self) -> (copy: Tree)
        ensures
            same_nodes(copy.forest(), self.forest()),
            copy.root_id() == self.root_id(),
            copy.current_id() == self.current_id(),
            self.wf() ==> copy.wf(),
    {
        self.snapshot()
    }
}

impl Tree {
    /// The arena of the tree, as contracts see it.
    pub closed spec fn forest(&self) -> Arena<SpanNode> {
        self.arena
    }

    /// The root node.
    pub closed spec fn root_id(&self) -> NodeId {
        self.root
    }

    /// The node whose computation is being polled.
    pub closed spec fn current_id(&self) -> NodeId {
        self.current
    }

    /// The tree has no slot that a removed node left behind: a new node comes
    /// last in the order in which the arena walks its nodes.
    pub open spec fn is_packed(&self) -> bool {
        arena_spare(self.forest()) == 0
    }

    /// The number of live nodes.
    pub open spec fn node_count(&self) -> nat {
        arena_slots(self.forest()).dom().len()
    }

    /// The tree is sound: its nodes form a forest, the root is live and has no
    /// parent, and the current node is live and is the root or stands below it.
    pub open spec fn wf(&self) -> bool {
        &&& forest_ok(self.forest())
        &&& is_live(self.forest(), self.root_id())
        &&& parent_of(self.forest(), self.root_id()) is None
        &&& is_live(self.forest(), self.current_id())
        &&& self.anchored()
    }

    /// The current node is the root or stands below it.
    pub open spec fn anchored(&self) -> bool {
        is_ancestor_or_self(self.forest(), self.root_id(), self.current_id())
    }

    /// A tree of one node, the root, which is also the current node.
    pub fn new(root_span: Span, start_time: u64) -> (tree: Tree)
        ensures
            tree.wf(),
            tree.is_packed(),
            arena_order(tree.forest()) == seq![tree.root_id()],
            tree.current_id() == tree.root_id(),
            arena_slots(tree.forest()).dom() == set![tree.root_id()],
            data_of(tree.forest(), tree.root_id()) == (SpanNode { span: root_span, start_time }),
            children_of(tree.forest(), tree.root_id()) == Seq::<NodeId>::empty(),
    {
        let mut arena = arena_new();
        proof {
            assert(arena_order(arena).to_set() =~= arena_slots(arena).dom());
        }
        let root = arena_new_node(&mut arena, SpanNode { span: root_span, start_time });
        assert(arena_slots(arena).dom() =~= set![root]);
        assert(arena_order(arena) =~= seq![root]);
        Tree { arena, root, current: root }
    }

    /// Pushes a new span as the first child of the current node, with the given
    /// start time, and makes it the current node. Returns its id.
    pub fn push_at(&mut self, span: Span, start_time: u64) -> (id: NodeId)
        requires
            old(self).wf(),
        ensures
            final(self).wf(),
            final(self).root_id() == old(self).root_id(),
            final(self).current_id() == id,
            node_pushed(old(self).forest(), final(self).forest(), old(self).current_id(), SpanNode { span, start_time }, id),
            final(self).node_count() == old(self).node_count() + 1,
            old(self).is_packed() ==> final(self).is_packed() && arena_order(final(self).forest()) == arena_order(old(self).forest()).push(id),
    {
        let ghost a = self.arena;
        let cur = self.current;
        let child = arena_new_node(&mut self.arena, SpanNode { span, start_time });
        let ghost a1 = self.arena;
        proof {
            assert(is_live(a, cur));
            assert(is_live(a1, cur));
            assert(is_live(a1, child));
            lemma_leaf_is_no_ancestor(a1, child, cur);
        }
        arena_prepend(&mut self.arena, cur, child);
        self.current = child;
        proof {
            let b = self.arena;
            assert(is_live(a1, child));
            assert forall|m: NodeId| #[trigger] is_live(a, m) implies {
                &&& data_of(b, m) == data_of(a, m)
                &&& parent_of(b, m) == parent_of(a, m)
                &&& children_of(b, m) == (if m == cur { seq![child] + children_of(a, m) } else { children_of(a, m) })
            } by {
                assert(is_live(a1, m));
            }
            assert(is_live(a, self.root));
            assert(is_live(a1, self.root));
            if is_ancestor_or_self(a, self.root, cur) {
                assert forall|m: NodeId| #[trigger] is_ancestor_or_self(a, m, cur) implies is_live(b, m) && parent_of(b, m) == parent_of(a, m) by {
                    lemma_ancestors_are_live(a, m, cur);
                }
                lemma_chain_is_kept(a, b, self.root, cur);
                assert(is_live(b, child));
                assert(node_ok(b, child));
            }
        }
        child
    }

    /// Pushes a new span as the first child of the current node, started now, and
    /// makes it the current node. Returns its id.
    pub fn push(&mut self, span: Span) -> (id: NodeId)
        requires
            old(self).wf(),
        ensures
            final(self).wf(),
            final(self).root_id() == old(self).root_id(),
            final(self).current_id() == id,
            node_pushed(old(self).forest(), final(self).forest(), old(self).current_id(), SpanNode { span, start_time: data_of(final(self).forest(), id).start_time }, id),
            final(self).node_count() == old(self).node_count() + 1,
            old(self).is_packed() ==> final(self).is_packed() && arena_order(final(self).forest()) == arena_order(old(self).forest()).push(id),
    {
        let node = SpanNode::new(span);
        self.push_at(node.span, node.start_time)
    }

    /// Steps into `child`, a node polled before, and makes it the current node.
    ///
    /// Where `child` is not among the children of the current node, it was last
    /// polled under another parent: it is moved, with its subtree, to the front of
    /// the children of the current node.
    pub fn step_in(&mut self, child: NodeId)
        requires
            old(self).wf(),
            is_live(old(self).forest(), child),
            !is_ancestor_or_self(old(self).forest(), child, old(self).current_id()),
        ensures
            final(self).wf(),
            final(self).root_id() == old(self).root_id(),
            final(self).current_id() == child,
            parent_of(final(self).forest(), child) == Some(old(self).current_id()),
            if children_of(old(self).forest(), old(self).current_id()).contains(child) {
                final(self).forest() == old(self).forest()
            } else {
                node_prepended(old(self).forest(), final(self).forest(), old(self).current_id(), child)
            },
            final(self).node_count() == old(self).node_count(),
            final(self).is_packed() == old(self).is_packed(),
            arena_order(final(self).forest()) == arena_order(old(self).forest()),
    {
        let ghost a = self.arena;
        let children = arena_children(&self.arena, self.current);
        if !contains_node(&children, child) {
            arena_prepend(&mut self.arena, self.current, child);
            proof {
                let b = self.arena;
                assert(is_live(a, self.root));
                assert(is_live(a, self.current));
                assert(is_live(a, child));
                if is_ancestor_or_self(a, self.root, self.current) {
                    assert forall|m: NodeId| #[trigger] is_ancestor_or_self(a, m, self.current) implies is_live(b, m) && parent_of(b, m) == parent_of(a, m) by {
                        lemma_ancestors_are_live(a, m, self.current);
                    }
                    lemma_chain_is_kept(a, b, self.root, self.current);
                    assert(is_live(b, child));
                    assert(node_ok(b, child));
                }
            }
        } else {
            proof {
                assert(node_ok(a, self.current));
                let i = choose|i: int| 0 <= i < children@.len() && children@[i] == child;
                assert(parent_of(a, children_of(a, self.current)[i]) == Some(self.current));
            }
        }
        self.current = child;
    }

    /// Steps out of the current node to its parent. The node stays in the tree,
    /// with its start time and its subtree.
    pub fn step_out(&mut self)
        requires
            old(self).wf(),
            old(self).current_id() != old(self).root_id(),
        ensures
            final(self).wf(),
            final(self).root_id() == old(self).root_id(),
            final(self).forest() == old(self).forest(),
            Some(final(self).current_id()) == parent_of(old(self).forest(), old(self).current_id()),
    {
        let parent = arena_parent(&self.arena, self.current);
        proof {
            assert(node_ok(self.arena, self.current));
        }
        match parent {
            Some(p) => {
                self.current = p;
            },
            None => {},
        }
    }

    /// Pops the current node: it leaves the tree, its children stay behind as
    /// detached roots, and its parent becomes the current node.
    pub fn pop(&mut self)
        requires
            old(self).wf(),
            old(self).current_id() != old(self).root_id(),
        ensures
            final(self).wf(),
            final(self).root_id() == old(self).root_id(),
            Some(final(self).current_id()) == parent_of(old(self).forest(), old(self).current_id()),
            node_dropped(old(self).forest(), final(self).forest(), old(self).current_id()),
            final(self).node_count() == old(self).node_count() - 1,
    {
        let ghost a = self.arena;
        let node = self.current;
        let parent = arena_parent(&self.arena, node);
        proof {
            assert(node_ok(a, node));
        }
        detach_and_remove(&mut self.arena, node);
        match parent {
            Some(p) => {
                self.current = p;
                proof {
                    assert(is_live(a, p));
                    assert(is_live(a, self.root));
                    assert(is_live(self.arena, self.root));
                    assert(is_live(self.arena, p));
                    if is_ancestor_or_self(a, self.root, node) {
                        let b = self.arena;
                        assert forall|m: NodeId| #[trigger] is_ancestor_or_self(a, m, p) implies is_live(b, m) && parent_of(b, m) == parent_of(a, m) by {
                            lemma_ancestors_are_live(a, m, p);
                            lemma_ancestor_is_not_deeper(a, m, p);
                            assert(node_ok(a, m));
                            if parent_of(a, m) == Some(node) {
                                assert(false);
                            }
                        }
                        lemma_chain_is_kept(a, b, self.root, p);
                    }
                }
            },
            None => {},
        }
    }

    /// Removes `node` from the tree and leaves its children behind as detached
    /// roots. For an id that is not live, nothing changes.
    pub fn remove_and_detach(&mut self, node: NodeId)
        requires
            old(self).wf(),
            !is_ancestor_or_self(old(self).forest(), node, old(self).current_id()),
        ensures
            final(self).wf(),
            final(self).root_id() == old(self).root_id(),
            final(self).current_id() == old(self).current_id(),
            if is_live(old(self).forest(), node) {
                node_dropped(old(self).forest(), final(self).forest(), node)
            } else {
                same_nodes(old(self).forest(), final(self).forest())
            },
            !is_live(final(self).forest(), node),
            final(self).node_count() == old(self).node_count() - (if is_live(old(self).forest(), node) { 1nat } else { 0nat }),
    {
        let ghost a = self.arena;
        detach_and_remove(&mut self.arena, node);
        proof {
            let b = self.arena;
            assert(is_live(a, self.root));
            assert(is_live(a, self.current));
            assert(is_live(b, self.root));
            assert(is_live(b, self.current));
            if is_ancestor_or_self(a, self.root, self.current) && !is_ancestor_or_self(a, node, self.current) {
                assert forall|m: NodeId| #[trigger] is_ancestor_or_self(a, m, self.current) implies is_live(b, m) && parent_of(b, m) == parent_of(a, m) by {
                    lemma_ancestors_are_live(a, m, self.current);
                    assert(node_ok(a, m));
                    if parent_of(a, m) == Some(node) {
                        assert(is_ancestor_or_self(a, node, node));
                        assert(is_ancestor_or_self(a, node, m));
                        lemma_ancestor_of_ancestor(a, node, m, self.current);
                    }
                    if is_live(a, node) {
                        assert(is_live(b, m));
                    }
                }
                lemma_chain_is_kept(a, b, self.root, self.current);
            }
        }
    }

    /// Whether `node` is a live node of this tree.
    pub fn is_live(&self, node: NodeId) -> (live: bool)
        ensures
            live == is_live(self.forest(), node),
    {
        arena_is_live(&self.arena, node)
    }

    /// The parent of a live node, if it has one.
    pub fn parent(&self, node: NodeId) -> (parent: Option<NodeId>)
        requires
            is_live(self.forest(), node),
        ensures
            parent == parent_of(self.forest(), node),
    {
        arena_parent(&self.arena, node)
    }

    /// Whether `node` is the current node or stands above it.
    pub fn is_above_current(&self, node: NodeId) -> (above: bool)
        requires
            self.wf(),
        ensures
            above == is_ancestor_or_self(self.forest(), node, self.current_id()),
    {
        let mut at = self.current;
        loop
            invariant
                self.wf(),
                is_live(self.forest(), at),
                is_ancestor_or_self(self.forest(), node, self.current_id()) == is_ancestor_or_self(self.forest(), node, at),
            decreases depth_of(self.forest(), at),
        {
            if node_eq(node, at) {
                return true;
            }
            proof {
                assert(node_ok(self.arena, at));
            }
            match arena_parent(&self.arena, at) {
                Some(p) => {
                    at = p;
                },
                None => {
                    return false;
                },
            }
        }
    }

    /// The number of live nodes.
    pub fn active_node_count(&self) -> (count: usize)
        requires
            self.wf(),
        ensures
            count == arena_slots(self.forest()).dom().len(),
    {
        let ids = arena_ids(&self.arena);
        proof {
            ids@.unique_seq_to_set();
        }
        ids.len()
    }

    /// The number of detached roots: live nodes without parent other than the root.
    pub fn detached_node_count(&self) -> (count: usize)
        requires
            self.wf(),
        ensures
            count == detached_set(arena_slots(self.forest()), self.root_id()).len(),
    {
        let roots = self.detached_roots();
        proof {
            lemma_detached_among_set(arena_slots(self.arena), arena_order(self.arena), self.root);
            roots@.unique_seq_to_set();
            assert(arena_order(self.arena).to_set().filter(|n: NodeId| is_detached_root(arena_slots(self.arena), self.root, n))
                =~= detached_set(arena_slots(self.arena), self.root));
        }
        roots.len()
    }

    /// The detached roots, in the order in which the arena walks its slots.
    pub fn detached_roots(&self) -> (roots: Vec<NodeId>)
        requires
            self.wf(),
        ensures
            roots@ == detached_among(arena_slots(self.forest()), arena_order(self.forest()), self.root_id()),
    {
        let ids = arena_ids(&self.arena);
        let mut roots: Vec<NodeId> = Vec::new();
        let mut i: usize = 0;
        proof {
            assert(ids@.take(0) =~= Seq::<NodeId>::empty());
        }
        while i < ids.len()
            invariant
                0 <= i <= ids.len(),
                self.wf(),
                ids@ == arena_order(self.arena),
                roots@ == detached_among(arena_slots(self.arena), ids@.take(i as int), self.root),
            decreases ids.len() - i,
        {
            let n = ids[i];
            proof {
                assert(arena_order(self.arena).contains(ids@[i as int]));
                assert(arena_order(self.arena).to_set().contains(n));
                let upto = ids@.take(i as int + 1);
                assert(upto.drop_last() =~= ids@.take(i as int));
                assert(upto.last() == n);
            }
            if !node_eq(n, self.root) && arena_parent(&self.arena, n).is_none() {
                roots.push(n);
            }
            i += 1;
        }
        proof {
            assert(ids@.take(ids@.len() as int) =~= ids@);
        }
        roots
    }

    /// The text of the tree at the clock reading `now`.
    pub fn render_at(&self, now: u64) -> (text: String)
        requires
            self.wf(),
        ensures
            text@ == tree_text(arena_slots(self.forest()), arena_order(self.forest()), self.root_id(), self.current_id(), now),
    {
        render_tree(&self.arena, self.root, self.current, now)
    }

    /// The text of the tree at the present reading of the clock.
    pub fn render(&self) -> (text: String)
        requires
            self.wf(),
        ensures
            exists|now: u64| text@ == tree_text(arena_slots(self.forest()), arena_order(self.forest()), self.root_id(), self.current_id(), now),
    {
        let now = clock_now();
        self.render_at(now)
    }

    /// `record` is this tree at the clock reading `now`: the number of the
    /// current node, the record of the root with its subtree, and the records of
    /// the detached roots with theirs, in the order in which the arena walks
    /// them.
    pub open spec fn is_recorded(&self, record: TreeRecord, now: u64) -> bool {
        &&& record.current == node_number(self.current_id())
        &&& is_record_of(
            record.tree,
            arena_slots(self.forest()),
            arena_order(self.forest()),
            self.root_id(),
            weight_of(self.forest(), self.root_id()) + 1,
            now,
        )
        &&& are_subtree_records(
            record.detached@,
            arena_slots(self.forest()),
            arena_order(self.forest()),
            detached_among(arena_slots(self.forest()), arena_order(self.forest()), self.root_id()),
            now,
        )
    }

    /// The tree as records at the clock reading `now`: the number of the current
    /// node, the main tree from the root down, and the detached subtrees.
    pub fn records_at(&self, now: u64) -> (record: TreeRecord)
        requires
            self.wf(),
        ensures
            self.is_recorded(record, now),
    {
        record_tree(&self.arena, self.root, self.current, now)
    }

    /// The tree as records at the present reading of the clock.
    pub fn records(&self) -> (record: TreeRecord)
        requires
            self.wf(),
        ensures
            exists|now: u64| self.is_recorded(record, now),
    {
        let now = clock_now();
        self.records_at(now)
    }

    /// A copy of the tree: the same nodes, root and current node.
    pub fn snapshot(&self) -> (copy: Tree)
        ensures
            same_nodes(copy.forest(), self.forest()),
            copy.root_id() == self.root_id(),
            copy.current_id() == self.current_id(),
            self.wf() ==> copy.wf(),
    {
        let arena = arena_clone(&self.arena);
        proof {
            if self.wf() {
                lemma_same_nodes_ok(self.arena, arena);
                assert forall|m: NodeId| #[trigger] is_ancestor_or_self(self.arena, m, self.current) implies is_live(arena, m)
                    && parent_of(arena, m) == parent_of(self.arena, m) by {
                    lemma_ancestors_are_live(self.arena, m, self.current);
                }
                lemma_chain_is_kept(self.arena, arena, self.root, self.current);
            }
        }
        Tree { arena, root: self.root, current: self.current }
    }

    /// The id of the current node.
    pub fn current(&self) -> (id: NodeId)
        ensures
            id == self.current_id(),
    {
        self.current
    }

    /// The id of the root node.
    pub fn root(&self) -> (id: NodeId)
        ensures
            id == self.root_id(),
    {
        self.root
    }
}

} // verus!
