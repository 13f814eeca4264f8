//! Handles into the tables that a graph owns.

use vstd::prelude::*;

verus! {

/// Which of a node's two buffers a [`DataID`] names.
#[derive(Clone, Copy, Debug, PartialEq, Eq, Structural, Hash)]
pub enum DataKind {
    /// The node's value.
    Value,
    /// The gradient of the loss with respect to the node's value.
    Gradient,
}

/// The handle of a node: its index in the graph's node table.
#[derive(Clone, Copy, Debug, PartialEq, Eq, Structural, Hash)]
pub struct NodeID {
    pub index: usize,
}

/// The handle of an operation: its index in the graph's operation table.
#[derive(Clone, Copy, Debug, PartialEq, Eq, Structural, Hash)]
pub struct OpID {
    pub index: usize,
}

/// The handle of a pass: its index in the graph's pass table.
#[derive(Clone, Copy, Debug, PartialEq, Eq, Structural, Hash)]
pub struct PassID {
    pub index: usize,
}

/// The handle of one buffer: the value or the gradient of one node.
#[derive(Clone, Copy, Debug, PartialEq, Eq, Structural, Hash)]
pub struct DataID {
    pub node: NodeID,
    pub kind: DataKind,
}

impl NodeID {
    /// The handle of this node's value buffer.
    pub fn value_id(&self) -> (id: DataID)
        ensures
            id == (DataID { node: *self, kind: DataKind::Value }),
    {
        DataID { node: *self, kind: DataKind::Value }
    }

    /// The handle of this node's gradient buffer.
    pub fn gradient_id(&self) -> (id: DataID)
        ensures
            id == (DataID { node: *self, kind: DataKind::Gradient }),
    {
        DataID { node: *self, kind: DataKind::Gradient }
    }
}

impl DataID {
    /// The node that this buffer belongs to.
    pub fn node_id(&self) -> (id: NodeID)
        ensures
            id == self.node,
    {
        self.node
    }

    /// True for a value buffer, false for a gradient buffer.
    pub fn is_value(&self) -> (b: bool)
        ensures
            b == (self.kind == DataKind::Value),
    {
        match self.kind {
            DataKind::Value => true,
            DataKind::Gradient => false,
        }
    }
}

} // verus!
