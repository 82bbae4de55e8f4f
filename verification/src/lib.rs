//! Await-trees: for each observed task, a live tree of the spans in which the
//! task is waiting.
//!
//! A span is pushed on the tree of its task when the computation it labels is
//! first polled, stepped into on each later poll, stepped out of when the
//! computation suspends, popped when it completes, and detached when it is
//! dropped. The tree can be shown at any time: it tells where the task is
//! blocked, and for how long.
//!
//! - `span`: the labels.
//! - `arena`: the arena that holds the nodes, and what is taken on trust of it.
//! - `tree`: the tree and its five operations.
//! - `render`, `record`: the tree as text and as records.
//! - `context`: a tree with the identity of its task.
//! - `future`: what a poll and a drop of an instrumented computation do.
//! - `registry`: keys, configuration, and the index of registered contexts.
//! - `attribute`: the rewriting that the `instrument` attribute performs.
//! - `clock`, `text`: elapsed time, and building text.

pub mod span;
pub mod arena;
pub mod clock;
pub mod text;
pub mod tree;
pub mod render;
pub mod record;
pub mod context;
pub mod future;
pub mod registry;
pub mod attribute;
