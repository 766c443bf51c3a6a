//! Composable recursive tree computation, verified.
//!
//! A computation over a tree is split into a fold (`Algebra`: init,
//! accumulate, finalize), a graph (`Graph`: the children of a node) and an
//! executor (`exec`), which runs the recursion through the `hylic` crate.
//! The cookbook modules build concrete folds and graphs on top of these.
//!
//! Every function returns normally on the inputs its `requires` admits.
//! The executors hand the fold and the graph to `hylic` by value, so `hylic`
//! runs exactly the values the contracts speak of; where `hylic` clones
//! nodes, seeds or heaps, the contracts ask that clones stand for what they
//! were cloned from. `hylic`'s funnel executor runs here on the calling
//! thread alone: with worker threads it gives up with a panic when the
//! calling thread waits too long for work, which depends on timing and so
//! cannot be ruled out by a precondition.
pub mod recursion;
pub mod exec;
pub mod fibonacci;
pub mod tree;
pub mod folds;
pub mod combinators;
pub mod flat;
pub mod graphs;
pub mod tasks;
pub mod filesystem;
pub mod config;
pub mod cycles;
pub mod modules;
pub mod explain;
