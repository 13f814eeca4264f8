//! Which buffers an execution holds: the buffers that a plan requires, each
//! either given by the caller or made of zeros, and what a pass may do with
//! each.

use crate::deps::holds;
use crate::error::{Error, PassFault};
use crate::graph::PassRecord;
use crate::id::{DataID, DataKind, NodeID, PassID};
use crate::propagate::GraphShapes;
use crate::shape::{extents_product, is_size_fault, shape_extents, shape_is_known, NodeDim};
use crate::subgraph::Subgraph;
use vstd::prelude::*;

verus! {

/// What an execution holds for one buffer.
#[derive(Clone, Copy, Debug, PartialEq, Eq, Structural)]
pub enum Slot {
    /// No buffer: nothing requires it.
    Absent,
    /// The caller's buffer of `len` elements.
    Given { len: usize },
    /// A buffer of `len` zeros, to be added to by the passes that write it.
    Zeroed { len: usize },
}

/// What a pass may do with a buffer.
#[derive(Clone, Copy, Debug, PartialEq, Eq, Structural)]
pub enum Access {
    /// The pass has not declared the buffer: it may not touch it.
    Denied,
    /// The pass reads the buffer, together with others that read it.
    Shared,
    /// The pass writes the buffer, and is alone with it while it runs.
    Exclusive,
}

/// The number of elements of a buffer of the given shape, where the shape is
/// fixed and the number fits the machine word.
pub open spec fn buffer_len(shape: Seq<NodeDim>) -> Option<usize> {
    if shape_is_known(shape) && extents_product(shape_extents(shape)) <= usize::MAX {
        Some(extents_product(shape_extents(shape)) as usize)
    } else {
        None
    }
}

/// What an execution of `plan` holds for `d`, given the number of elements of
/// its node: nothing where the plan does not require it, the caller's buffer
/// where it is given, and zeros otherwise.
pub open spec fn slot_for(plan: &Subgraph, d: DataID, len: usize) -> Slot {
    if !plan.requires_data(d) {
        Slot::Absent
    } else if plan.inputs().contains(d) {
        Slot::Given { len }
    } else {
        Slot::Zeroed { len }
    }
}

/// What a pass may do with a buffer: write what it declares to write, read
/// what it declares to read, and nothing else.
pub fn access(pass: &PassRecord, d: &DataID) -> (a: Access)
    ensures
        a == if pass.writes@.contains(*d) {
            Access::Exclusive
        } else if pass.reads@.contains(*d) {
            Access::Shared
        } else {
            Access::Denied
        },
{
    if holds(&pass.writes, d) {
        Access::Exclusive
    } else if holds(&pass.reads, d) {
        Access::Shared
    } else {
        Access::Denied
    }
}

/// Holds pass `id` to what it has declared: reading `d` is allowed where the
/// pass reads or writes it, writing only where it writes it.
pub fn check_access(pass: &PassRecord, id: PassID, d: &DataID, write: bool) -> (r: Result<
    (),
    Error,
>)
    ensures
        r is Ok <==> pass.writes@.contains(*d) || (!write && pass.reads@.contains(*d)),
        r matches Err(e) ==> e == (Error::PassError {
            pass: id,
            fault: PassFault::Undeclared { data: *d },
        }),
{
    match access(pass, d) {
        Access::Exclusive => Ok(()),
        Access::Shared => if write {
            Err(Error::PassError { pass: id, fault: PassFault::Undeclared { data: *d } })
        } else {
            Ok(())
        },
        Access::Denied => Err(
            Error::PassError { pass: id, fault: PassFault::Undeclared { data: *d } },
        ),
    }
}

/// The buffers of one execution, by node and kind.
#[derive(Debug)]
pub struct Storage {
    value: Vec<Slot>,
    gradient: Vec<Slot>,
}

impl Storage {
    /// The number of nodes that the storage covers.
    pub closed spec fn node_count(&self) -> nat {
        self.value@.len()
    }

    /// What the storage holds for `d`; nothing for a buffer of a node that it
    /// does not cover.
    pub closed spec fn slot_spec(&self, d: DataID) -> Slot {
        match d.kind {
            DataKind::Value => if d.node.index < self.value@.len() {
                self.value@[d.node.index as int]
            } else {
                Slot::Absent
            },
            DataKind::Gradient => if d.node.index < self.gradient@.len() {
                self.gradient@[d.node.index as int]
            } else {
                Slot::Absent
            },
        }
    }

    /// Whether a buffer that `plan` requires, of one of the first `upto`
    /// nodes, has a shape without a number of elements.
    pub open spec fn unsized_before(shapes: Seq<Seq<NodeDim>>, plan: &Subgraph, upto: int) -> bool {
        exists|d: DataID|
            d.node.index < upto && d.node.index < shapes.len() && #[trigger] plan.requires_data(d)
                && buffer_len(shapes[d.node.index as int]) is None
    }

    /// Lays out the buffers of an execution of `plan` over nodes of the given
    /// shapes: a buffer for each that the plan requires, and none for any
    /// other. A required buffer whose node has no fixed shape, or too large a
    /// one, is refused as a `ShapeConflict` on the first such node, with the
    /// fault that names the first axis that is not fixed, or else `TooLarge`.
    pub fn new(shapes: &GraphShapes, plan: &Subgraph) -> (r: Result<Storage, Error>)
        ensures
            r is Ok <==> !Self::unsized_before(shapes@, plan, shapes@.len() as int),
            r matches Ok(storage) ==> {
                &&& storage.node_count() == shapes@.len()
                &&& forall|d: DataID|
                    d.node.index < shapes@.len() ==> #[trigger] storage.slot_spec(d) == (
                    if plan.requires_data(d) {
                        slot_for(plan, d, buffer_len(shapes@[d.node.index as int])->0)
                    } else {
                        Slot::Absent
                    })
                &&& forall|d: DataID|
                    d.node.index >= shapes@.len() ==> #[trigger] storage.slot_spec(d)
                        == Slot::Absent
            },
            r matches Err(e) ==> {
                &&& e matches Error::ShapeConflict { node, op, fault }
                &&& op is None
                &&& node.index < shapes@.len()
                &&& buffer_len(shapes@[node.index as int]) is None
                &&& is_size_fault(shapes@[node.index as int], fault)
                &&& !Self::unsized_before(shapes@, plan, node.index as int)
                &&& plan.requires_data(DataID { node, kind: DataKind::Value })
                    || plan.requires_data(DataID { node, kind: DataKind::Gradient })
            },
    {
        let n = shapes.len();
        let mut value: Vec<Slot> = Vec::new();
        let mut gradient: Vec<Slot> = Vec::new();
        let mut i: usize = 0;
        while i < n
            invariant
                i <= n,
                n == shapes@.len(),
                value@.len() == i,
                gradient@.len() == i,
                !Self::unsized_before(shapes@, plan, i as int),
                forall|k: int|
                    0 <= k < i ==> #[trigger] value@[k] == {
                        let d = DataID { node: NodeID { index: k as usize }, kind: DataKind::Value };
                        if plan.requires_data(d) {
                            slot_for(plan, d, buffer_len(shapes@[k])->0)
                        } else {
                            Slot::Absent
                        }
                    },
                forall|k: int|
                    0 <= k < i ==> #[trigger] gradient@[k] == {
                        let d = DataID {
                            node: NodeID { index: k as usize },
                            kind: DataKind::Gradient,
                        };
                        if plan.requires_data(d) {
                            slot_for(plan, d, buffer_len(shapes@[k])->0)
                        } else {
                            Slot::Absent
                        }
                    },
            decreases n - i,
        {
            let node = NodeID { index: i };
            let v = node.value_id();
            let g = node.gradient_id();
            let need_v = plan.is_required(&v);
            let need_g = plan.is_required(&g);
            let mut len: usize = 0;
            if need_v || need_g {
                match shapes.get_shape(&node) {
                    Some(shape) => match shape.flat_size() {
                        Ok(size) => {
                            len = size;
                        },
                        Err(fault) => {
                            return Err(Error::ShapeConflict { node, op: None, fault });
                        },
                    },
                    None => {},
                }
            }
            let slot_v = if !need_v {
                Slot::Absent
            } else if holds(plan.input_ids(), &v) {
                Slot::Given { len }
            } else {
                Slot::Zeroed { len }
            };
            let slot_g = if !need_g {
                Slot::Absent
            } else if holds(plan.input_ids(), &g) {
                Slot::Given { len }
            } else {
                Slot::Zeroed { len }
            };
            value.push(slot_v);
            gradient.push(slot_g);
            proof {
                if Self::unsized_before(shapes@, plan, i + 1) {
                    let d = choose|d: DataID|
                        d.node.index < i + 1 && d.node.index < shapes@.len()
                            && #[trigger] plan.requires_data(d) && buffer_len(
                            shapes@[d.node.index as int],
                        ) is None;
                    if d.node.index == i {
                        assert(d.node == node);
                        assert(d == v || d == g);
                    }
                }
            }
            i += 1;
        }
        let storage = Storage { value, gradient };
        proof {
            assert forall|d: DataID| d.node.index < shapes@.len() implies #[trigger] storage.slot_spec(
                d,
            ) == (if plan.requires_data(d) {
                slot_for(plan, d, buffer_len(shapes@[d.node.index as int])->0)
            } else {
                Slot::Absent
            }) by {
                let k = d.node.index as int;
                assert(d.node == NodeID { index: k as usize });
                match d.kind {
                    DataKind::Value => {
                        assert(storage.slot_spec(d) == storage.value@[k]);
                    },
                    DataKind::Gradient => {
                        assert(storage.slot_spec(d) == storage.gradient@[k]);
                    },
                }
            }
        }
        Ok(storage)
    }

    /// What the storage holds for `d`.
    pub fn slot(&self, d: &DataID) -> (s: Slot)
        ensures
            s == self.slot_spec(*d),
    {
        match d.kind {
            DataKind::Value => {
                if d.node.index < self.value.len() {
                    self.value[d.node.index]
                } else {
                    Slot::Absent
                }
            },
            DataKind::Gradient => {
                if d.node.index < self.gradient.len() {
                    self.gradient[d.node.index]
                } else {
                    Slot::Absent
                }
            },
        }
    }

    /// Whether the storage holds a buffer for `d`: the execution requires it.
    pub fn is_required(&self, d: &DataID) -> (b: bool)
        ensures
            b == !(self.slot_spec(*d) is Absent),
    {
        match self.slot(d) {
            Slot::Absent => false,
            _ => true,
        }
    }
}

} // verus!
