//! The state of an instrumented computation, and what each poll and the drop
//! do to the tree of the context they run in.
//!
//! The computation itself is polled by the caller. Before the poll the caller
//! calls `enter` (inside a context) or `enter_outside` (outside any); where the
//! answer is `Entry::Entered` it calls `leave` after the poll with the outcome.
//! When the computation is dropped it calls `release` or `release_outside`.

use vstd::prelude::*;
use indextree::NodeId;
use crate::arena::{arena_order, is_live, parent_of, is_ancestor_or_self, same_nodes, node_prepended, children_of};
use crate::clock::clock_now;
use crate::context::{ContextId, TreeContext};
use crate::span::{Span, SpanNode};
use crate::tree::{node_pushed, node_dropped};

verus! {

/// The state of an instrumented computation.
pub enum State {
    /// Not polled yet: the span waits to be pushed.
    Initial(Span),
    /// Polled before: the node that stands for it, and the context of that poll.
    Polled { this_node: NodeId, this_context_id: ContextId },
    /// Completed.
    Ready,
    /// A verbose span in a context that shows none: it is left out of the tree.
    Disabled,
}

/// Something amiss that is reported and otherwise ignored.
#[derive(Debug, Clone, Copy, PartialEq, Eq, Structural)]
pub enum Warning {
    /// Polled outside any context, after a first poll inside one.
    PolledOutsideContext,
    /// Polled in another context than that of the first poll.
    PolledInOtherContext,
    /// Dropped outside any context, after a first poll inside one.
    DroppedOutsideContext,
    /// Dropped in another context than that of the first poll.
    DroppedInOtherContext,
}

/// What the caller does with the computation after `enter`.
#[derive(Debug, Clone, Copy, PartialEq, Eq, Structural)]
pub enum Entry {
    /// Poll it and return the outcome; the tree has no part in this poll.
    Direct,
    /// Report the warning, then poll it and return the outcome.
    DirectWithWarning(Warning),
    /// Its node is the current node: poll it, then call `leave` with the outcome.
    Entered,
}

impl State {
    /// The state of a computation that has not been polled.
    pub fn new(span: Span) -> (state: State)
        ensures
            state == State::Initial(span),
    {
        State::Initial(span)
    }

    /// Whether a poll in `context` may step into the node of this state: the
    /// state is not `Ready`, and where it was polled in this context before, its
    /// node is live and is not the current node nor stands above it.
    pub open spec fn may_enter(&self, context: &TreeContext) -> bool {
        match *self {
            State::Initial(_) => true,
            State::Polled { this_node, this_context_id } => this_context_id == context.id_spec() ==> {
                &&& is_live(context.tree_spec().forest(), this_node)
                &&& !is_ancestor_or_self(context.tree_spec().forest(), this_node, context.tree_spec().current_id())
            },
            State::Ready => false,
            State::Disabled => true,
        }
    }

    /// Tests `may_enter`.
    pub fn can_enter(&self, context: &TreeContext) -> (ok: bool)
        requires
            context.wf(),
        ensures
            ok == self.may_enter(context),
    {
        match self {
            State::Initial(_) => true,
            State::Polled { this_node, this_context_id } => {
                if this_context_id.0 == context.id().0 {
                    let tree = context.tree();
                    tree.is_live(*this_node) && !tree.is_above_current(*this_node)
                } else {
                    true
                }
            },
            State::Ready => false,
            State::Disabled => true,
        }
    }

    /// The start of a poll outside any context: the tree of no context is
    /// touched and the state stays as it is. A computation that was polled inside
    /// a context before gives a warning.
    pub fn enter_outside(&self) -> (entry: Entry)
        requires
            !(*self is Ready),
        ensures
            entry == (if *self is Polled {
                Entry::DirectWithWarning(Warning::PolledOutsideContext)
            } else {
                Entry::Direct
            }),
    {
        match self {
            State::Polled { .. } => Entry::DirectWithWarning(Warning::PolledOutsideContext),
            _ => Entry::Direct,
        }
    }

    /// What `enter_at` does: this state and the context `was` before the call,
    /// the state `after` and the context `next` after it, and the answer.
    pub open spec fn enter_effect(&self, was: &TreeContext, verbose: bool, now: u64, after: &State, next: &TreeContext, entry: Entry) -> bool {
        match *self {
            State::Initial(span) => if (verbose || span.is_verbose) && !was.verbose_spec() {
                &&& entry == Entry::Direct
                &&& *after == State::Disabled
                &&& next.tree_spec() == was.tree_spec()
            } else {
                &&& entry == Entry::Entered
                &&& *after == (State::Polled {
                    this_node: next.tree_spec().current_id(),
                    this_context_id: was.id_spec(),
                })
                &&& node_pushed(
                    was.tree_spec().forest(),
                    next.tree_spec().forest(),
                    was.tree_spec().current_id(),
                    SpanNode { span, start_time: now },
                    next.tree_spec().current_id(),
                )
                &&& next.tree_spec().node_count() == was.tree_spec().node_count() + 1
                &&& was.tree_spec().is_packed() ==> next.tree_spec().is_packed() && arena_order(next.tree_spec().forest())
                    == arena_order(was.tree_spec().forest()).push(next.tree_spec().current_id())
            },
            State::Polled { this_node, this_context_id } => if this_context_id == was.id_spec() {
                &&& entry == Entry::Entered
                &&& *after == *self
                &&& next.tree_spec().current_id() == this_node
                &&& parent_of(next.tree_spec().forest(), this_node) == Some(was.tree_spec().current_id())
                &&& if children_of(was.tree_spec().forest(), was.tree_spec().current_id()).contains(this_node) {
                    next.tree_spec().forest() == was.tree_spec().forest()
                } else {
                    node_prepended(
                        was.tree_spec().forest(),
                        next.tree_spec().forest(),
                        was.tree_spec().current_id(),
                        this_node,
                    )
                }
                &&& next.tree_spec().node_count() == was.tree_spec().node_count()
            } else {
                &&& entry == Entry::DirectWithWarning(Warning::PolledInOtherContext)
                &&& *after == *self
                &&& next.tree_spec() == was.tree_spec()
            },
            State::Ready => false,
            State::Disabled => {
                &&& entry == Entry::Direct
                &&& *after == State::Disabled
                &&& next.tree_spec() == was.tree_spec()
            },
        }
    }

    /// The start of a poll in `context`, at the clock reading `now`.
    ///
    /// - Not polled yet: a verbose span in a context that shows none is disabled,
    ///   and the tree stays as it is. A span is verbose where it is marked so or
    ///   where the caller says so (`verbose`). Any other span is pushed as the
    ///   first child of the current node, started at `now`, and is entered.
    /// - Polled before in this context: its node is stepped into, and moved
    ///   under the current node where it was not there, and is entered.
    /// - Polled before in another context: a warning, and the tree stays as it is.
    /// - Disabled: the tree stays as it is.
    pub fn enter_at(&mut self, context: &mut TreeContext, verbose: bool, now: u64) -> (entry: Entry)
        requires
            old(context).wf(),
            old(self).may_enter(old(context)),
        ensures
            final(context).wf(),
            final(context).id_spec() == old(context).id_spec(),
            final(context).verbose_spec() == old(context).verbose_spec(),
            final(context).tree_spec().root_id() == old(context).tree_spec().root_id(),
            old(self).enter_effect(old(context), verbose, now, final(self), final(context), entry),
    {
        let mut state = State::Disabled;
        std::mem::swap(self, &mut state);
        match state {
            State::Initial(span) => {
                if (verbose || span.is_verbose) && !context.verbose() {
                    Entry::Direct
                } else {
                    let id = context.id();
                    let node = context.tree_mut().push_at(span, now);
                    *self = State::Polled { this_node: node, this_context_id: id };
                    Entry::Entered
                }
            },
            State::Polled { this_node, this_context_id } => {
                *self = State::Polled { this_node, this_context_id };
                if this_context_id.0 == context.id().0 {
                    context.tree_mut().step_in(this_node);
                    Entry::Entered
                } else {
                    Entry::DirectWithWarning(Warning::PolledInOtherContext)
                }
            },
            State::Ready => {
                *self = State::Ready;
                Entry::Direct
            },
            State::Disabled => Entry::Direct,
        }
    }

    /// The start of a poll in `context`, at the present reading of the clock:
    /// `enter_at` with that reading.
    pub fn enter(&mut self, context: &mut TreeContext, verbose: bool) -> (entry: Entry)
        requires
            old(context).wf(),
            old(self).may_enter(old(context)),
        ensures
            final(context).wf(),
            final(context).id_spec() == old(context).id_spec(),
            final(context).verbose_spec() == old(context).verbose_spec(),
            final(context).tree_spec().root_id() == old(context).tree_spec().root_id(),
            exists|now: u64| old(self).enter_effect(old(context), verbose, now, final(self), final(context), entry),
    {
        let now = clock_now();
        self.enter_at(context, verbose, now)
    }

    /// The end of a poll that was entered. Where the computation is ready, the current
    /// node is popped and the state becomes `Ready`. Where it is pending, the
    /// current node is stepped out of.
    pub fn leave(&mut self, context: &mut TreeContext, ready: bool)
        requires
            old(context).wf(),
            *old(self) is Polled,
            old(context).tree_spec().current_id() != old(context).tree_spec().root_id(),
        ensures
            final(context).wf(),
            final(context).id_spec() == old(context).id_spec(),
            final(context).verbose_spec() == old(context).verbose_spec(),
            final(context).tree_spec().root_id() == old(context).tree_spec().root_id(),
            Some(final(context).tree_spec().current_id()) == parent_of(old(context).tree_spec().forest(), old(context).tree_spec().current_id()),
            if ready {
                &&& *final(self) == State::Ready
                &&& node_dropped(old(context).tree_spec().forest(), final(context).tree_spec().forest(), old(context).tree_spec().current_id())
                &&& final(context).tree_spec().node_count() == old(context).tree_spec().node_count() - 1
            } else {
                &&& *final(self) == *old(self)
                &&& final(context).tree_spec().forest() == old(context).tree_spec().forest()
                &&& final(context).tree_spec().node_count() == old(context).tree_spec().node_count()
            },
    {
        if ready {
            context.tree_mut().pop();
            *self = State::Ready;
        } else {
            context.tree_mut().step_out();
        }
    }

    /// Whether a drop in `context` may remove the node of this state: where the
    /// state was polled in this context, its node is not the current node nor
    /// stands above it.
    pub open spec fn may_release(&self, context: &TreeContext) -> bool {
        match *self {
            State::Polled { this_node, this_context_id } => this_context_id == context.id_spec()
                ==> !is_ancestor_or_self(context.tree_spec().forest(), this_node, context.tree_spec().current_id()),
            _ => true,
        }
    }

    /// Tests `may_release`.
    pub fn can_release(&self, context: &TreeContext) -> (ok: bool)
        requires
            context.wf(),
        ensures
            ok == self.may_release(context),
    {
        match self {
            State::Polled { this_node, this_context_id } => {
                if this_context_id.0 == context.id().0 {
                    !context.tree().is_above_current(*this_node)
                } else {
                    true
                }
            },
            _ => true,
        }
    }

    /// The drop of the computation in `context`. Where it was polled in this
    /// context, its node is removed and the children of the node are left behind
    /// as detached roots; for a node that is gone already nothing changes. Where
    /// it was polled in another context, a warning is returned and the node
    /// stays. In every other state nothing happens.
    pub fn release(&self, context: &mut TreeContext) -> (warning: Option<Warning>)
        requires
            old(context).wf(),
            self.may_release(old(context)),
        ensures
            final(context).wf(),
            final(context).id_spec() == old(context).id_spec(),
            final(context).verbose_spec() == old(context).verbose_spec(),
            final(context).tree_spec().root_id() == old(context).tree_spec().root_id(),
            final(context).tree_spec().current_id() == old(context).tree_spec().current_id(),
            match *self {
                State::Polled { this_node, this_context_id } => if this_context_id == old(context).id_spec() {
                    &&& warning is None
                    &&& !is_live(final(context).tree_spec().forest(), this_node)
                    &&& if is_live(old(context).tree_spec().forest(), this_node) {
                        &&& node_dropped(old(context).tree_spec().forest(), final(context).tree_spec().forest(), this_node)
                        &&& final(context).tree_spec().node_count() == old(context).tree_spec().node_count() - 1
                    } else {
                        &&& same_nodes(old(context).tree_spec().forest(), final(context).tree_spec().forest())
                        &&& final(context).tree_spec().node_count() == old(context).tree_spec().node_count()
                    }
                } else {
                    &&& warning == Some(Warning::DroppedInOtherContext)
                    &&& final(context).tree_spec() == old(context).tree_spec()
                },
                _ => {
                    &&& warning is None
                    &&& final(context).tree_spec() == old(context).tree_spec()
                },
            },
    {
        match self {
            State::Polled { this_node, this_context_id } => {
                if this_context_id.0 == context.id().0 {
                    context.tree_mut().remove_and_detach(*this_node);
                    None
                } else {
                    Some(Warning::DroppedInOtherContext)
                }
            },
            _ => None,
        }
    }

    /// The drop of the computation outside any context: nothing is removed; a
    /// computation that was polled inside a context gives a warning.
    pub fn release_outside(&self) -> (warning: Option<Warning>)
        ensures
            warning == (if *self is Polled {
                Some(Warning::DroppedOutsideContext)
            } else {
                None
            }),
    {
        match self {
            State::Polled { .. } => Some(Warning::DroppedOutsideContext),
            _ => None,
        }
    }
}

} // verus!
