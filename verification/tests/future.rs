use await_tree::context::{ContextId, TreeContext};
use await_tree::future::{Entry, State, Warning};
use await_tree::span::Span;

const SECOND: u64 = 1 << 32;

fn context(id: u64, verbose: bool) -> TreeContext {
    TreeContext::new_at(ContextId(id), Span::new("root"), verbose, 0)
}

#[test]
fn basic_scenario() {
    let mut c = context(0, false);
    let mut a = State::new(Span::new("a"));
    assert!(a.can_enter(&c));
    assert!(a.enter_at(&mut c, false, 0) == Entry::Entered);
    a.leave(&mut c, false);
    assert_eq!(c.tree().render_at(SECOND), "root [1.000s]\n  a [1.000s]\n");
}

#[test]
fn outside_a_context_nothing_happens() {
    let state = State::new(Span::new("a"));
    assert!(state.enter_outside() == Entry::Direct);
    assert!(matches!(state, State::Initial(_)));
    assert!(state.release_outside().is_none());
    assert!(State::Disabled.enter_outside() == Entry::Direct);
    assert!(State::Disabled.release_outside().is_none());
    assert!(State::Ready.release_outside().is_none());
}

#[test]
fn ready_removes_the_node_and_pending_keeps_it() {
    let mut c = context(1, false);
    let mut w = State::new(Span::new("w"));
    let before = c.tree().active_node_count();
    assert!(w.enter(&mut c, false) == Entry::Entered);
    assert_eq!(c.tree().active_node_count(), before + 1);
    w.leave(&mut c, false);
    assert!(matches!(w, State::Polled { .. }));
    assert_eq!(c.tree().active_node_count(), before + 1);
    assert!(w.can_enter(&c));
    assert!(w.enter(&mut c, false) == Entry::Entered);
    assert_eq!(c.tree().active_node_count(), before + 1);
    w.leave(&mut c, true);
    assert!(matches!(w, State::Ready));
    assert_eq!(c.tree().active_node_count(), before);
    assert!(!w.can_enter(&c));
    assert!(w.release(&mut c).is_none());
}

#[test]
fn verbose_spans_are_left_out_where_the_context_is_not_verbose() {
    let mut c = context(2, false);
    let mut x = State::new(Span::new("x").verbose());
    let mut y = State::new(Span::new("y"));
    assert!(x.enter_at(&mut c, true, 0) == Entry::Direct);
    assert!(matches!(x, State::Disabled));
    assert!(y.enter_at(&mut c, false, 0) == Entry::Entered);
    y.leave(&mut c, false);
    assert!(x.enter_at(&mut c, true, 0) == Entry::Direct);
    assert_eq!(c.tree().active_node_count(), 2);
    assert_eq!(c.tree().render_at(SECOND), "root [1.000s]\n  y [1.000s]\n");
    assert!(x.release(&mut c).is_none());
    assert_eq!(c.tree().active_node_count(), 2);
}

#[test]
fn a_span_marked_verbose_is_left_out_whatever_the_caller_says() {
    let mut c = context(20, false);
    let mut x = State::new(Span::new("x").verbose());
    let mut y = State::new(Span::new("y"));
    assert!(x.enter_at(&mut c, false, 0) == Entry::Direct);
    assert!(matches!(x, State::Disabled));
    assert!(y.enter_at(&mut c, false, 0) == Entry::Entered);
    y.leave(&mut c, false);
    assert_eq!(c.tree().active_node_count(), 2);
    assert_eq!(c.tree().detached_node_count(), 0);
    assert_eq!(c.tree().render_at(SECOND), "root [1.000s]\n  y [1.000s]\n");
    // the caller's flag alone is enough too
    let mut z = State::new(Span::new("z"));
    assert!(z.enter_at(&mut c, true, 0) == Entry::Direct);
    assert_eq!(c.tree().active_node_count(), 2);
    let mut shown = context(21, true);
    let mut x = State::new(Span::new("x").verbose());
    assert!(x.enter_at(&mut shown, false, 0) == Entry::Entered);
    assert_eq!(shown.tree().active_node_count(), 2);
}

#[test]
fn verbose_spans_are_shown_where_the_context_is_verbose() {
    let mut c = context(3, true);
    let mut x = State::new(Span::new("x").verbose());
    assert!(x.enter_at(&mut c, true, 0) == Entry::Entered);
    x.leave(&mut c, false);
    assert_eq!(c.tree().render_at(SECOND), "root [1.000s]\n  x [1.000s]\n");
}

#[test]
fn drop_removes_the_node_and_detaches_its_children() {
    let mut c = context(4, false);
    let mut select = State::new(Span::new("select"));
    let mut fut = State::new(Span::new("fut"));
    assert!(select.enter_at(&mut c, false, 0) == Entry::Entered);
    assert!(fut.enter_at(&mut c, false, SECOND) == Entry::Entered);
    fut.leave(&mut c, false);
    select.leave(&mut c, false);
    assert_eq!(c.tree().active_node_count(), 3);
    assert!(select.can_release(&c));
    assert!(select.release(&mut c).is_none());
    assert_eq!(c.tree().active_node_count(), 2);
    assert_eq!(c.tree().detached_node_count(), 1);
    assert_eq!(
        c.tree().render_at(2 * SECOND),
        "root [2.000s]\n[Detached 3]\n  fut [1.000s]\n"
    );
    // polled again under the root
    assert!(fut.can_enter(&c));
    assert!(fut.enter_at(&mut c, false, 3 * SECOND) == Entry::Entered);
    fut.leave(&mut c, false);
    assert_eq!(c.tree().detached_node_count(), 0);
    assert_eq!(c.tree().render_at(3 * SECOND), "root [3.000s]\n  fut [2.000s]\n");
    assert!(fut.release(&mut c).is_none());
    assert_eq!(c.tree().active_node_count(), 1);
}

#[test]
fn poll_in_another_context_warns_and_leaves_both_trees() {
    let mut c1 = context(10, false);
    let mut c2 = context(11, false);
    let mut w = State::new(Span::new("w"));
    assert!(w.enter_at(&mut c1, false, 0) == Entry::Entered);
    w.leave(&mut c1, false);
    assert!(w.can_enter(&c2));
    assert!(w.enter_at(&mut c2, false, 0) == Entry::DirectWithWarning(Warning::PolledInOtherContext));
    assert_eq!(c2.tree().active_node_count(), 1);
    assert_eq!(c1.tree().active_node_count(), 2);
    assert!(w.enter_outside() == Entry::DirectWithWarning(Warning::PolledOutsideContext));
    assert!(w.release(&mut c2) == Some(Warning::DroppedInOtherContext));
    assert!(w.release_outside() == Some(Warning::DroppedOutsideContext));
    assert_eq!(c2.tree().active_node_count(), 1);
    assert_eq!(c1.tree().active_node_count(), 2);
    assert!(w.release(&mut c1).is_none());
    assert_eq!(c1.tree().active_node_count(), 1);
}

#[test]
fn a_node_above_the_current_node_cannot_be_entered() {
    let mut c = context(12, false);
    let mut outer = State::new(Span::new("outer"));
    let mut inner = State::new(Span::new("inner"));
    assert!(outer.enter_at(&mut c, false, 0) == Entry::Entered);
    assert!(inner.enter_at(&mut c, false, 0) == Entry::Entered);
    assert!(!outer.can_enter(&c));
    assert!(!inner.can_enter(&c));
    assert!(!inner.can_release(&c));
    assert!(!outer.can_release(&c));
    inner.leave(&mut c, true);
    outer.leave(&mut c, false);
    assert!(outer.can_enter(&c));
}
