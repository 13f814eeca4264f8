//! A computation-graph engine for reverse-mode automatic differentiation.
//!
//! The library holds what the engine decides: the shapes of the nodes and how
//! constraints on them are merged and resolved (`shape`, `propagate`); the
//! graph's tables of nodes, operations and passes (`graph`, `id`); which
//! passes write and read each buffer (`deps`); which passes a request needs
//! and in which order they run (`plan`, `subgraph`, `execute`); which
//! buffers an execution holds (`storage`); and the built-in operations with
//! the bookkeeping of the numeric check of their gradients (`ops`).
//!
//! The arithmetic on the buffers themselves is left to the caller, who runs
//! each pass when the library hands it out.

pub mod deps;
pub mod error;
pub mod execute;
pub mod flags;
pub mod graph;
pub mod id;
pub mod ops;
pub mod plan;
pub mod propagate;
pub mod shape;
pub mod storage;
pub mod subgraph;
