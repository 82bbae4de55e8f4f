use await_tree::context::{ContextId, TreeContext};
use await_tree::span::Span;
use await_tree::tree::Tree;

const SEC: u64 = 1 << 32;

fn tree_with_root(name: &str) -> Tree {
    Tree::new(Span::new(name).long_running(), 0)
}

#[test]
fn new_tree_has_one_node() {
    let tree = tree_with_root("root");
    assert_eq!(tree.active_node_count(), 1);
    assert_eq!(tree.detached_node_count(), 0);
    assert!(tree.current() == tree.root());
    assert!(tree.is_live(tree.root()));
    assert_eq!(tree.parent(tree.root()), None);
}

#[test]
fn push_makes_child_of_current() {
    let mut tree = tree_with_root("root");
    let root = tree.root();
    let a = tree.push_at(Span::new("a"), 5);
    assert!(tree.current() == a);
    assert_eq!(tree.parent(a), Some(root));
    assert_eq!(tree.active_node_count(), 2);
    let b = tree.push_at(Span::new("b"), 6);
    assert_eq!(tree.parent(b), Some(a));
    assert_eq!(tree.active_node_count(), 3);
}

#[test]
fn push_reads_the_clock() {
    let mut tree = tree_with_root("root");
    let a = tree.push(Span::new("a"));
    assert!(tree.current() == a);
    assert_eq!(tree.active_node_count(), 2);
}

#[test]
fn step_out_keeps_the_node() {
    let mut tree = tree_with_root("root");
    let root = tree.root();
    let a = tree.push_at(Span::new("a"), 0);
    tree.step_out();
    assert!(tree.current() == root);
    assert!(tree.is_live(a));
    assert_eq!(tree.active_node_count(), 2);
    assert_eq!(tree.render_at(SEC), "root [1.000s]\n  a [1.000s]\n");
}

#[test]
fn pop_removes_the_node() {
    let mut tree = tree_with_root("root");
    let root = tree.root();
    let a = tree.push_at(Span::new("a"), 0);
    tree.pop();
    assert!(tree.current() == root);
    assert!(!tree.is_live(a));
    assert_eq!(tree.active_node_count(), 1);
    assert_eq!(tree.render_at(SEC), "root [1.000s]\n");
}

#[test]
fn balance_over_a_poll() {
    let mut tree = tree_with_root("root");
    let before = tree.active_node_count();
    let a = tree.push_at(Span::new("a"), 0);
    tree.step_out();
    let pending = tree.active_node_count();
    assert!(pending >= before);
    tree.step_in(a);
    assert_eq!(tree.active_node_count(), pending);
    tree.pop();
    assert_eq!(tree.active_node_count(), pending - 1);
}

#[test]
fn pop_promotes_children_to_detached_roots() {
    let mut tree = tree_with_root("work");
    let root = tree.root();
    let select = tree.push_at(Span::new("select"), 0);
    let sleep = tree.push_at(Span::new("sleep"), 0);
    tree.step_out();
    let fut = tree.push_at(Span::new("fut"), 0);
    tree.step_out();
    tree.step_out();
    assert_eq!(tree.detached_node_count(), 0);
    // the sleep arm completes
    tree.step_in(select);
    tree.step_in(sleep);
    tree.pop();
    // select completes while `fut` is pending
    tree.pop();
    assert!(tree.current() == root);
    assert!(!tree.is_live(select));
    assert!(tree.is_live(fut));
    assert_eq!(tree.parent(fut), None);
    assert_eq!(tree.active_node_count(), 2);
    assert_eq!(tree.detached_node_count(), 1);
    assert_eq!(tree.detached_roots(), vec![fut]);
    assert_eq!(
        tree.render_at(SEC / 2),
        "work [500.000ms]\n[Detached 4]\n  fut [500.000ms]\n"
    );
    // polled again under the root: no longer detached, the start time is kept
    tree.step_in(fut);
    assert_eq!(tree.parent(fut), Some(root));
    assert_eq!(tree.detached_node_count(), 0);
    tree.step_out();
    assert_eq!(tree.render_at(2 * SEC), "work [2.000s]\n  fut [2.000s]\n");
}

#[test]
fn remove_and_detach_twice_is_a_no_op() {
    let mut tree = tree_with_root("root");
    let a = tree.push_at(Span::new("a"), 0);
    let b = tree.push_at(Span::new("b"), 0);
    tree.step_out();
    tree.step_out();
    assert_eq!(tree.active_node_count(), 3);
    tree.remove_and_detach(a);
    assert_eq!(tree.active_node_count(), 2);
    assert_eq!(tree.detached_node_count(), 1);
    assert_eq!(tree.parent(b), None);
    let text = tree.render_at(SEC);
    tree.remove_and_detach(a);
    assert_eq!(tree.active_node_count(), 2);
    assert_eq!(tree.detached_node_count(), 1);
    assert_eq!(tree.render_at(SEC), text);
}

#[test]
fn step_in_moves_a_node_under_the_current_node() {
    let mut tree = tree_with_root("root");
    let root = tree.root();
    let first = tree.push_at(Span::new("first"), 1);
    let inner = tree.push_at(Span::new("inner"), 2);
    tree.step_out();
    tree.step_out();
    let second = tree.push_at(Span::new("second"), 3);
    assert_eq!(tree.parent(inner), Some(first));
    tree.step_in(inner);
    assert_eq!(tree.parent(inner), Some(second));
    assert!(tree.current() == inner);
    assert_eq!(tree.active_node_count(), 4);
    tree.step_out();
    tree.step_out();
    assert!(tree.current() == root);
    assert_eq!(
        tree.render_at(3),
        "root [0.000ns]\n  first [0.000ns]\n  second [0.000ns]\n    inner [0.000ns]\n"
    );
}

#[test]
fn is_above_current_follows_the_parents() {
    let mut tree = tree_with_root("root");
    let root = tree.root();
    let a = tree.push_at(Span::new("a"), 0);
    tree.step_out();
    let b = tree.push_at(Span::new("b"), 0);
    assert!(tree.is_above_current(root));
    assert!(tree.is_above_current(b));
    assert!(!tree.is_above_current(a));
}

#[test]
fn children_are_shown_by_start_time() {
    let mut tree = tree_with_root("root");
    tree.push_at(Span::new("B"), 3 * SEC);
    tree.step_out();
    tree.push_at(Span::new("A"), SEC);
    tree.step_out();
    tree.push_at(Span::new("C"), 2 * SEC);
    tree.step_out();
    assert_eq!(
        tree.render_at(4 * SEC),
        "root [4.000s]\n  A [3.000s]\n  C [2.000s]\n  B [1.000s]\n"
    );
}

#[test]
fn children_that_start_together_are_shown_in_arena_order() {
    let mut tree = tree_with_root("work");
    tree.push_at(Span::new("left"), 0);
    tree.step_out();
    tree.push_at(Span::new("right"), 0);
    tree.step_out();
    // ties go by the order in which the arena walks its nodes
    assert_eq!(tree.render_at(0), "work [0.000ns]\n  left [0.000ns]\n  right [0.000ns]\n");
    let record = tree.records_at(0);
    let names: Vec<&str> = record.tree.children.iter().map(|r| r.span.name()).collect();
    assert_eq!(names, vec!["left", "right"]);
}

#[test]
fn siblings_in_order_of_first_poll() {
    let mut tree = tree_with_root("work");
    tree.push_at(Span::new("left"), 1);
    tree.step_out();
    tree.push_at(Span::new("right"), 2);
    tree.step_out();
    assert_eq!(
        tree.render_at(SEC + 2),
        "work [1.000s]\n  left [1.000s]\n  right [1.000s]\n"
    );
}

#[test]
fn current_node_is_marked_below_the_root() {
    let mut tree = tree_with_root("root");
    assert_eq!(tree.render_at(0), "root [0.000ns]\n");
    tree.push_at(Span::new("a"), 0);
    assert_eq!(tree.render_at(SEC), "root [1.000s]\n  a [1.000s]  <== current\n");
}

#[test]
fn stale_spans_are_flagged_above_ten_seconds() {
    let mut tree = tree_with_root("root");
    tree.push_at(Span::new("slow"), 0);
    tree.step_out();
    tree.push_at(Span::new("patient").long_running(), 0);
    tree.step_out();
    assert_eq!(
        tree.render_at(9 * SEC),
        "root [9.000s]\n  slow [9.000s]\n  patient [9.000s]\n"
    );
    // at ten seconds to the tick the threshold is reached, not exceeded
    assert_eq!(
        tree.render_at(10 * SEC),
        "root [10.000s]\n  slow [10.000s]\n  patient [10.000s]\n"
    );
    assert_eq!(
        tree.render_at(10 * SEC + 1),
        "root [10.000s]\n  slow [!!! 10.000s]\n  patient [10.000s]\n"
    );
    assert_eq!(
        tree.render_at(11 * SEC),
        "root [11.000s]\n  slow [!!! 11.000s]\n  patient [11.000s]\n"
    );
    assert_eq!(
        tree.render_at(1000 * SEC + 1),
        "root [1000.000s]\n  slow [!!! 1000.000s]\n  patient [1000.000s]\n"
    );
}

#[test]
fn stale_spans_are_flagged_in_detached_subtrees() {
    let mut tree = tree_with_root("root");
    let a = tree.push_at(Span::new("a"), 0);
    tree.push_at(Span::new("child"), 0);
    tree.step_out();
    tree.step_out();
    tree.remove_and_detach(a);
    assert_eq!(
        tree.render_at(11 * SEC),
        "root [11.000s]\n[Detached 3]\n  child [!!! 11.000s]\n"
    );
}

#[test]
fn clock_running_backwards_counts_as_no_time() {
    let mut tree = tree_with_root("root");
    tree.push_at(Span::new("a"), 5 * SEC);
    tree.step_out();
    assert_eq!(tree.render_at(SEC), "root [1.000s]\n  a [0.000ns]\n");
}

#[test]
fn detached_header_shows_the_node_number() {
    let mut tree = tree_with_root("root");
    let mut last = tree.root();
    for _ in 0..11 {
        last = tree.push_at(Span::new("n"), 0);
        tree.pop();
    }
    assert!(!tree.is_live(last));
    let mut holder = tree.push_at(Span::new("holder"), 0);
    for _ in 0..12 {
        tree.pop();
        tree.push_at(Span::new("x"), 0);
        tree.step_out();
        holder = tree.push_at(Span::new("holder"), 0);
    }
    let kept = tree.push_at(Span::new("kept"), 0);
    tree.step_out();
    tree.pop();
    assert!(!tree.is_live(holder));
    assert_eq!(tree.detached_roots(), vec![kept]);
    let text = tree.render_at(0);
    let number: usize = kept.into();
    assert!(number >= 10);
    assert!(text.ends_with(&format!("[Detached {}]\n  kept [0.000ns]\n", number)));
}

#[test]
fn render_is_the_same_for_the_same_events() {
    let build = || {
        let mut tree = tree_with_root("root");
        let a = tree.push_at(Span::new("a"), 7);
        tree.push_at(Span::new("b"), 9);
        tree.step_out();
        tree.step_out();
        tree.push_at(Span::new("c"), 8);
        tree.step_in(a);
        tree.pop();
        tree
    };
    assert_eq!(build().render_at(5 * SEC), build().render_at(5 * SEC));
    assert_eq!(build().snapshot().render_at(5 * SEC), build().render_at(5 * SEC));
}

#[test]
fn render_now_shows_every_node() {
    let mut tree = tree_with_root("root");
    tree.push(Span::new("a"));
    let text = tree.render();
    assert!(text.starts_with("root ["));
    assert!(text.contains("\n  a ["));
    assert!(text.ends_with("<== current\n"));
}

#[test]
fn context_makes_the_root_long_running() {
    let context = TreeContext::new_at(ContextId(7), Span::new("root"), true, 0);
    assert!(context.id() == ContextId(7));
    assert!(context.verbose());
    assert_eq!(context.tree().active_node_count(), 1);
    assert_eq!(context.tree().render_at(100 * SEC), "root [100.000s]\n");
    let now = TreeContext::new(ContextId(8), Span::new("root"), false);
    assert!(!now.verbose());
    assert_eq!(now.tree().active_node_count(), 1);
}

#[test]
fn records_hold_each_node_with_its_children() {
    let mut tree = tree_with_root("root");
    tree.push_at(Span::new("B"), 3 * SEC);
    tree.step_out();
    tree.push_at(Span::new("A").verbose(), SEC);
    tree.push_at(Span::new("inner"), 2 * SEC);
    let record = tree.records_at(4 * SEC);
    assert_eq!(record.current, 4);
    let root = &record.tree;
    assert_eq!((root.id, root.span.name(), root.elapsed_ns), (1, "root", 4_000_000_000));
    assert!(root.span.is_long_running);
    assert_eq!(root.children.len(), 2);
    let a = &root.children[0];
    assert_eq!((a.id, a.span.name(), a.elapsed_ns), (3, "A", 3_000_000_000));
    assert!(a.span.is_verbose);
    assert_eq!(a.children.len(), 1);
    let inner = &a.children[0];
    assert_eq!((inner.id, inner.span.name(), inner.elapsed_ns), (4, "inner", 2_000_000_000));
    assert!(inner.children.is_empty());
    let b = &root.children[1];
    assert_eq!((b.id, b.span.name(), b.elapsed_ns), (2, "B", 1_000_000_000));
    assert!(b.children.is_empty());
    assert!(record.detached.is_empty());
}

#[test]
fn records_of_detached_subtrees_stand_apart() {
    let mut tree = tree_with_root("root");
    let a = tree.push_at(Span::new("a"), 0);
    tree.push_at(Span::new("b"), 0);
    tree.push_at(Span::new("c"), 0);
    tree.step_out();
    tree.step_out();
    tree.step_out();
    tree.remove_and_detach(a);
    let record = tree.records_at(SEC / 2);
    assert_eq!(record.current, 1);
    assert!(record.tree.children.is_empty());
    assert_eq!(record.detached.len(), 1);
    let b = &record.detached[0];
    assert_eq!((b.id, b.span.name(), b.elapsed_ns), (3, "b", 500_000_000));
    assert_eq!(b.children.len(), 1);
    assert_eq!((b.children[0].id, b.children[0].elapsed_ns), (4, 500_000_000));
    let now = tree.records();
    assert!(now.tree.children.is_empty());
    assert_eq!(now.detached.len(), 1);
}
