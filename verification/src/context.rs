//! The context of one task: its tree, the identity by which instrumented
//! computations recognise it, and whether verbose spans are shown.

use vstd::prelude::*;
use crate::arena::{arena_slots, children_of, data_of};
use crate::clock::clock_now;
use crate::span::Span;
use crate::tree::Tree;

verus! {

/// The id of a context. Ids are handed out in ascending order, one per context.
#[derive(Debug, Clone, Copy, PartialEq, Eq, Hash, Structural)]
pub struct ContextId(pub u64);

/// The await-tree context of a task.
pub struct TreeContext {
    id: ContextId,
    verbose: bool,
    tree: Tree,
}

impl TreeContext {
    /// The id of the context.
    pub closed spec fn id_spec(&self) -> ContextId {
        self.id
    }

    /// Whether verbose spans are shown in the tree.
    pub closed spec fn verbose_spec(&self) -> bool {
        self.verbose
    }

    /// The tree.
    pub closed spec fn tree_spec(&self) -> Tree {
        self.tree
    }

    /// The tree of the context is sound.
    pub open spec fn wf(&self) -> bool {
        self.tree_spec().wf()
    }

    /// A context whose tree holds the root span alone, made long-running and
    /// started at `start_time`.
    pub fn new_at(id: ContextId, root_span: Span, verbose: bool, start_time: u64) -> (context: TreeContext)
        ensures
            context.wf(),
            context.tree_spec().is_packed(),
            context.id_spec() == id,
            context.verbose_spec() == verbose,
            context.tree_spec().current_id() == context.tree_spec().root_id(),
            arena_slots(context.tree_spec().forest()).dom() == set![context.tree_spec().root_id()],
            children_of(context.tree_spec().forest(), context.tree_spec().root_id()).len() == 0,
            data_of(context.tree_spec().forest(), context.tree_spec().root_id()).span.name == root_span.name,
            data_of(context.tree_spec().forest(), context.tree_spec().root_id()).span.is_verbose == root_span.is_verbose,
            data_of(context.tree_spec().forest(), context.tree_spec().root_id()).span.is_long_running,
            data_of(context.tree_spec().forest(), context.tree_spec().root_id()).start_time == start_time,
    {
        let tree = Tree::new(root_span.long_running(), start_time);
        TreeContext { id, verbose, tree }
    }

    /// A context whose tree holds the root span alone, made long-running and
    /// started now.
    pub fn new(id: ContextId, root_span: Span, verbose: bool) -> (context: TreeContext)
        ensures
            context.wf(),
            context.id_spec() == id,
            context.verbose_spec() == verbose,
            context.tree_spec().current_id() == context.tree_spec().root_id(),
            arena_slots(context.tree_spec().forest()).dom() == set![context.tree_spec().root_id()],
            children_of(context.tree_spec().forest(), context.tree_spec().root_id()).len() == 0,
            data_of(context.tree_spec().forest(), context.tree_spec().root_id()).span.name == root_span.name,
            data_of(context.tree_spec().forest(), context.tree_spec().root_id()).span.is_verbose == root_span.is_verbose,
            data_of(context.tree_spec().forest(), context.tree_spec().root_id()).span.is_long_running,
    {
        let now = clock_now();
        TreeContext::new_at(id, root_span, verbose, now)
    }

    /// The id of the context.
    pub fn id(&self) -> (id: ContextId)
        ensures
            id == self.id_spec(),
    {
        self.id
    }

    /// Whether verbose spans are shown in the tree.
    pub fn verbose(&self) -> (verbose: bool)
        ensures
            verbose == self.verbose_spec(),
    {
        self.verbose
    }

    /// The tree.
    pub fn tree(&self) -> (tree: &Tree)
        ensures
            *tree == self.tree_spec(),
    {
        &self.tree
    }

    /// The tree, to be changed. The id and the verbose flag stay as they are.
    pub fn tree_mut(&mut self) -> (tree: &mut Tree)
        ensures
            *tree == old(self).tree_spec(),
            final(self).tree_spec() == *final(tree),
            final(self).id_spec() == old(self).id_spec(),
            final(self).verbose_spec() == old(self).verbose_spec(),
    {
        &mut self.tree
    }
}

} // verus!
