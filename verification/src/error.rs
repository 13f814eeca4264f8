//! The errors that the engine reports.

use crate::id::{DataID, NodeID, OpID, PassID};
use crate::shape::ShapeFault;
use vstd::prelude::*;

verus! {

/// What a pass found wrong with the buffers it was given.
#[derive(Clone, Copy, Debug, PartialEq, Eq, Structural, Hash)]
pub enum PassFault {
    /// Two buffers that must have the same extents do not.
    ShapeMismatch { left: DataID, right: DataID },
    /// A buffer cannot be repeated along its axes to the extents of another.
    NotBroadcastable { from: DataID, to: DataID },
    /// A buffer does not have the number of elements that the pass was built for.
    WrongSize { data: DataID, expected: usize, found: usize },
    /// The pass reached for a buffer that it has not declared, or tried to
    /// write one that it has declared only to read.
    Undeclared { data: DataID },
}

/// The errors of the engine.
#[derive(Clone, Copy, Debug, PartialEq, Eq, Structural, Hash)]
#[allow(inconsistent_fields)]
pub enum Error {
    /// The constraints on the shape of `node` contradict each other, or leave
    /// it open where an operation needs it fixed. `op` is the operation whose
    /// rule met the conflict, if it was one.
    ShapeConflict { node: NodeID, op: Option<OpID>, fault: ShapeFault },
    /// `data` is needed and can be neither taken from the inputs nor computed
    /// from them.
    MissingDependency { data: DataID },
    /// A pass refused to run.
    PassError { pass: PassID, fault: PassFault },
    /// More trials of a numeric check disagreed with the analytic gradient
    /// than were allowed.
    NumericCheckFailure { param_failures: usize, input_failures: usize },
    /// A handle refers to a node that the graph does not hold.
    UnknownNode { node: NodeID },
}

} // verus!
