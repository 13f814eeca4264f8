//! Adding a small tensor to every innermost vector of a larger one.

use crate::error::{Error, PassFault};
use crate::graph::{
    rule_in_range, GraphDef, Op, OpInstance, OpPlan, PassPlan, PassRecord, ShapeRule,
};
use crate::id::{DataID, DataKind, NodeID, OpID, PassID};
use crate::propagate::{apply_rule, is_rule_conflict, rule_outcome, GraphShapes};
use crate::shape::{
    extents_product, shape_collapse, shape_extents, shape_is_constrained, NodeDim, ShapeFault,
};
use vstd::prelude::*;

verus! {

/// Adds the input node to each innermost vector of the output node: element
/// `i` of the output gets element `i % channels` of the input added, where
/// `channels` is the extent of the output's innermost axis. The input must
/// settle to a fixed shape that holds exactly `channels` elements.
#[derive(Clone, Debug)]
pub struct Broadcast {
    pub name: String,
    pub input_id: NodeID,
    pub output_id: NodeID,
}

/// A `Broadcast` as part of a graph.
#[derive(Clone, Debug)]
pub struct BroadcastInstance {
    pub name: String,
    pub op_id: OpID,
    pub input_id: NodeID,
    pub output_id: NodeID,
    pub output_channels: usize,
    pub forward_id: PassID,
    pub backward_id: PassID,
}

/// The extent of the innermost axis of a shape, where it is fixed.
pub open spec fn channels_of(shape: Seq<NodeDim>) -> Option<usize> {
    if shape.len() == 0 {
        None
    } else {
        match shape.last() {
            NodeDim::Known(c) => Some(c),
            _ => None,
        }
    }
}

/// Whether the shapes of a table refuse an operation from `input` to `output`
/// with the given number of channels: the input has an axis without a
/// constraint, or it does not hold exactly `channels` elements, or the output
/// has no axis, or the innermost axis of the output does not admit `channels`.
pub open spec fn refuses(
    shapes: Seq<Seq<NodeDim>>,
    input: NodeID,
    output: NodeID,
    channels: usize,
) -> bool {
    let given = shapes[input.index as int];
    let out = shapes.update(input.index as int, shape_collapse(given))[output.index as int];
    ||| !shape_is_constrained(given)
    ||| extents_product(shape_extents(given)) != channels
    ||| out.len() == 0
    ||| out.last().merge_spec(NodeDim::Known(channels)) is None
}

/// The buffers that the forward pass of a `Broadcast` reads.
pub open spec fn broadcast_forward_reads(input: NodeID) -> Seq<DataID> {
    seq![DataID { node: input, kind: DataKind::Value }]
}

/// The buffers that the forward pass of a `Broadcast` writes.
pub open spec fn broadcast_forward_writes(output: NodeID) -> Seq<DataID> {
    seq![DataID { node: output, kind: DataKind::Value }]
}

/// The buffers that the backward pass of a `Broadcast` reads.
pub open spec fn broadcast_backward_reads(output: NodeID) -> Seq<DataID> {
    seq![DataID { node: output, kind: DataKind::Gradient }]
}

/// The buffers that the backward pass of a `Broadcast` writes.
pub open spec fn broadcast_backward_writes(input: NodeID) -> Seq<DataID> {
    seq![DataID { node: input, kind: DataKind::Gradient }]
}

impl Broadcast {
    /// The operation from `input_id` to `output_id` under the given name.
    pub fn new(input_id: &NodeID, output_id: &NodeID, name: &str) -> (r: Box<Broadcast>)
        ensures
            r.input_id == *input_id,
            r.output_id == *output_id,
            r.name@ == name@,
    {
        Box::new(Broadcast { name: name.to_owned(), input_id: *input_id, output_id: *output_id })
    }

    /// The name of the operation.
    pub fn name(&self) -> (r: &str)
        ensures
            r@ == self.name@,
    {
        self.name.as_str()
    }

    /// The nodes that the operation reads.
    #[allow(non_snake_case)]
    pub fn input_node_IDs(&self) -> (r: Vec<NodeID>)
        ensures
            r@ == seq![self.input_id],
    {
        let r = vec![self.input_id];
        proof {
            assert(r@ =~= seq![self.input_id]);
        }
        r
    }

    /// The nodes that the operation writes.
    #[allow(non_snake_case)]
    pub fn output_node_IDs(&self) -> (r: Vec<NodeID>)
        ensures
            r@ == seq![self.output_id],
    {
        let r = vec![self.output_id];
        proof {
            assert(r@ =~= seq![self.output_id]);
        }
        r
    }

    /// The number of parameters of the operation: none.
    pub fn num_params(&self) -> (n: usize)
        ensures
            n == 0,
    {
        0
    }

    /// Registers the forward and the backward pass with the graph, in that
    /// order, and fixes the number of channels to the extent of the
    /// innermost axis of the output as the graph holds it.
    ///
    /// `op_id` is the handle that the operation will have in the graph. A
    /// node that the graph does not hold is refused as `UnknownNode`, the
    /// input before the output; an output without axes, or whose innermost
    /// axis is not fixed, as `ShapeConflict` on the output. The graph is then
    /// left as it was.
    pub fn instance(self, graph: &mut GraphDef, op_id: &OpID) -> (r: Result<
        BroadcastInstance,
        Error,
    >)
        ensures
            final(graph).nodes() == old(graph).nodes(),
            final(graph).ops() == old(graph).ops(),
            old(graph).extended_by(final(graph)),
            old(graph).wf() ==> final(graph).wf(),
            r is Ok <==> {
                &&& self.input_id.index < old(graph).nodes().len()
                &&& self.output_id.index < old(graph).nodes().len()
                &&& channels_of(old(graph).nodes()[self.output_id.index as int].shape@) is Some
            },
            r matches Ok(inst) ==> {
                &&& inst.name == self.name
                &&& inst.op_id == *op_id
                &&& inst.input_id == self.input_id
                &&& inst.output_id == self.output_id
                &&& Some(inst.output_channels) == channels_of(
                    old(graph).nodes()[self.output_id.index as int].shape@,
                )
                &&& inst.forward_id.index == old(graph).passes().len()
                &&& inst.backward_id.index == old(graph).passes().len() + 1
                &&& final(graph).passes().len() == old(graph).passes().len() + 2
                &&& final(graph).passes()[inst.forward_id.index as int].name@
                    == "BroadcastForward"@
                &&& final(graph).passes()[inst.backward_id.index as int].name@
                    == "BroadcastBackward"@
                &&& final(graph).passes()[inst.forward_id.index as int].reads@
                    == broadcast_forward_reads(self.input_id)
                &&& final(graph).passes()[inst.forward_id.index as int].writes@
                    == broadcast_forward_writes(self.output_id)
                &&& final(graph).passes()[inst.backward_id.index as int].reads@
                    == broadcast_backward_reads(self.output_id)
                &&& final(graph).passes()[inst.backward_id.index as int].writes@
                    == broadcast_backward_writes(self.input_id)
            },
            r matches Err(e) ==> {
                &&& final(graph).passes() == old(graph).passes()
                &&& if self.input_id.index >= old(graph).nodes().len() {
                    e == (Error::UnknownNode { node: self.input_id })
                } else if self.output_id.index >= old(graph).nodes().len() {
                    e == (Error::UnknownNode { node: self.output_id })
                } else {
                    e == (Error::ShapeConflict {
                        node: self.output_id,
                        op: Some(*op_id),
                        fault: if old(graph).nodes()[self.output_id.index as int].shape@.len()
                            == 0 {
                            ShapeFault::RankMismatch { left: 0, right: 1 }
                        } else {
                            ShapeFault::Unresolved {
                                axis: (old(graph).nodes()[self.output_id.index as int].shape@.len()
                                    - 1) as usize,
                            }
                        },
                    })
                }
            },
    {
        let n = graph.node_count();
        if self.input_id.index >= n {
            return Err(Error::UnknownNode { node: self.input_id });
        }
        if self.output_id.index >= n {
            return Err(Error::UnknownNode { node: self.output_id });
        }
        let shape = &graph.node_table()[self.output_id.index].shape;
        let rank = shape.ndim();
        if rank == 0 {
            return Err(
                Error::ShapeConflict {
                    node: self.output_id,
                    op: Some(*op_id),
                    fault: ShapeFault::RankMismatch { left: 0, right: 1 },
                },
            );
        }
        let output_channels = match shape.dim(rank - 1) {
            NodeDim::Known(c) => c,
            _ => {
                return Err(
                    Error::ShapeConflict {
                        node: self.output_id,
                        op: Some(*op_id),
                        fault: ShapeFault::Unresolved { axis: rank - 1 },
                    },
                );
            },
        };
        let forward = PassRecord {
            name: "BroadcastForward".to_owned(),
            reads: vec![self.input_id.value_id()],
            writes: vec![self.output_id.value_id()],
        };
        let backward = PassRecord {
            name: "BroadcastBackward".to_owned(),
            reads: vec![self.output_id.gradient_id()],
            writes: vec![self.input_id.gradient_id()],
        };
        proof {
            assert(forward.reads@ =~= broadcast_forward_reads(self.input_id));
            assert(forward.writes@ =~= broadcast_forward_writes(self.output_id));
            assert(backward.reads@ =~= broadcast_backward_reads(self.output_id));
            assert(backward.writes@ =~= broadcast_backward_writes(self.input_id));
        }
        let forward_id = match graph.add_pass(forward) {
            Ok(id) => id,
            Err(e) => {
                return Err(e);
            },
        };
        let backward_id = match graph.add_pass(backward) {
            Ok(id) => id,
            Err(e) => {
                return Err(e);
            },
        };
        Ok(
            BroadcastInstance {
                name: self.name,
                op_id: *op_id,
                input_id: self.input_id,
                output_id: self.output_id,
                output_channels,
                forward_id,
                backward_id,
            },
        )
    }
}

impl BroadcastInstance {
    /// The rule by which the operation constrains shapes.
    pub open spec fn rule_spec(&self) -> ShapeRule {
        ShapeRule::Channels {
            input: self.input_id,
            output: self.output_id,
            channels: self.output_channels,
        }
    }

    /// The rule by which the operation constrains shapes.
    pub fn rule(&self) -> (r: ShapeRule)
        ensures
            r == self.rule_spec(),
    {
        ShapeRule::Channels {
            input: self.input_id,
            output: self.output_id,
            channels: self.output_channels,
        }
    }

    /// Settles the input to its least shape, which must hold as many
    /// elements as the output has channels, and fixes the innermost axis of
    /// the output to that number.
    ///
    /// The call fails, and alters no shape, where the input has an axis
    /// without a constraint, where it does not hold as many elements as the
    /// output has channels, and where the output has no axis or its innermost
    /// axis does not admit that number. The conflict names the node whose
    /// shape stands in the way, this operation and the fault. A node that the
    /// table does not hold is refused as `UnknownNode`.
    pub fn propagate_shape_constraints(&self, shapes: &mut GraphShapes) -> (r: Result<(), Error>)
        ensures
            final(shapes)@.len() == old(shapes)@.len(),
            rule_in_range(self.rule_spec(), old(shapes)@.len()) ==> (r is Err <==> refuses(
                old(shapes)@,
                self.input_id,
                self.output_id,
                self.output_channels,
            )),
            r is Err ==> final(shapes)@ == old(shapes)@,
            !rule_in_range(self.rule_spec(), old(shapes)@.len()) ==> {
                &&& r matches Err(e)
                &&& e matches Error::UnknownNode { node }
                &&& node.index >= old(shapes)@.len()
                &&& final(shapes)@ == old(shapes)@
            },
            rule_in_range(self.rule_spec(), old(shapes)@.len()) ==> {
                match r {
                    Ok(()) => rule_outcome(self.rule_spec(), old(shapes)@) == Ok::<
                        Seq<Seq<NodeDim>>,
                        NodeID,
                    >(final(shapes)@),
                    Err(e) => {
                        &&& final(shapes)@ == old(shapes)@
                        &&& is_rule_conflict(
                            e,
                            self.rule_spec(),
                            old(shapes)@,
                            Some(self.op_id),
                        )
                    },
                }
            },
    {
        let n = shapes.len();
        if self.input_id.index >= n {
            return Err(Error::UnknownNode { node: self.input_id });
        }
        if self.output_id.index >= n {
            return Err(Error::UnknownNode { node: self.output_id });
        }
        let rule = self.rule();
        match apply_rule(&rule, Some(self.op_id), shapes) {
            Ok(_) => Ok(()),
            Err(e) => Err(e),
        }
    }

    /// The record of the operation for the graph's table.
    pub fn record(self) -> (r: OpInstance)
        ensures
            r.name == self.name,
            r.tags@.len() == 0,
            r.inputs@ == seq![self.input_id],
            r.outputs@ == seq![self.output_id],
            r.passes@ == seq![self.forward_id, self.backward_id],
            r.inner_ops@ == Seq::<OpID>::empty(),
            r.inner_nodes@ == Seq::<NodeID>::empty(),
            r.rule == self.rule_spec(),
    {
        let inputs = vec![self.input_id];
        let outputs = vec![self.output_id];
        let passes = vec![self.forward_id, self.backward_id];
        let rule = self.rule();
        proof {
            assert(inputs@ =~= seq![self.input_id]);
            assert(outputs@ =~= seq![self.output_id]);
            assert(passes@ =~= seq![self.forward_id, self.backward_id]);
        }
        let inner_ops: Vec<OpID> = Vec::new();
        let inner_nodes: Vec<NodeID> = Vec::new();
        proof {
            assert(inner_ops@ =~= Seq::<OpID>::empty());
            assert(inner_nodes@ =~= Seq::<NodeID>::empty());
        }
        OpInstance {
            name: self.name,
            tags: Vec::new(),
            inputs,
            outputs,
            passes,
            inner_ops,
            inner_nodes,
            rule,
        }
    }

    /// Checks the sizes of the buffers before a pass of the operation runs as
    /// pass `pass`: the input must hold as many elements as the output has
    /// channels, and the output a whole number of such vectors. The error
    /// names the input's buffer `input` first, then the output's `output`.
    pub fn prepare(
        &self,
        pass: PassID,
        input: DataID,
        output: DataID,
        in_size: usize,
        out_size: usize,
    ) -> (r: Result<(), Error>)
        ensures
            r is Ok <==> in_size == self.output_channels && (out_size == 0 || (
            self.output_channels > 0 && out_size % self.output_channels == 0)),
            r matches Err(e) ==> e == (Error::PassError {
                pass,
                fault: if in_size != self.output_channels {
                    PassFault::WrongSize {
                        data: input,
                        expected: self.output_channels,
                        found: in_size,
                    }
                } else {
                    PassFault::WrongSize {
                        data: output,
                        expected: self.output_channels,
                        found: out_size,
                    }
                },
            }),
    {
        if in_size != self.output_channels {
            return Err(
                Error::PassError {
                    pass,
                    fault: PassFault::WrongSize {
                        data: input,
                        expected: self.output_channels,
                        found: in_size,
                    },
                },
            );
        }
        if out_size != 0 && (self.output_channels == 0 || out_size % self.output_channels != 0) {
            return Err(
                Error::PassError {
                    pass,
                    fault: PassFault::WrongSize {
                        data: output,
                        expected: self.output_channels,
                        found: out_size,
                    },
                },
            );
        }
        Ok(())
    }

    /// The element of the input that goes with element `out_index` of the
    /// output: forward, its value is added to that element's value; backward,
    /// it has that element's gradient added to its own.
    /// `None` where the output has no channels, and so no elements.
    pub fn source_index(&self, out_index: usize) -> (r: Option<usize>)
        ensures
            r is Some <==> self.output_channels > 0,
            r matches Some(i) ==> i == out_index % self.output_channels && i
                < self.output_channels,
    {
        if self.output_channels > 0 {
            Some(out_index % self.output_channels)
        } else {
            None
        }
    }
}

impl Op for Broadcast {
    open spec fn accepted_by(&self, graph: &GraphDef) -> bool {
        &&& self.input_id.index < graph.nodes().len()
        &&& self.output_id.index < graph.nodes().len()
        &&& channels_of(graph.nodes()[self.output_id.index as int].shape@) is Some
    }

    open spec fn plan(&self, graph: &GraphDef) -> OpPlan {
        OpPlan {
            name: self.name@,
            passes: seq![
                PassPlan {
                    name: "BroadcastForward"@,
                    reads: broadcast_forward_reads(self.input_id),
                    writes: broadcast_forward_writes(self.output_id),
                },
                PassPlan {
                    name: "BroadcastBackward"@,
                    reads: broadcast_backward_reads(self.output_id),
                    writes: broadcast_backward_writes(self.input_id),
                },
            ],
            inputs: seq![self.input_id],
            outputs: seq![self.output_id],
            inner_ops: Seq::empty(),
            inner_nodes: Seq::empty(),
            rule: ShapeRule::Channels {
                input: self.input_id,
                output: self.output_id,
                channels: channels_of(graph.nodes()[self.output_id.index as int].shape@)->0,
            },
        }
    }

    open spec fn kind(&self) -> Seq<char> {
        "Broadcast"@
    }

    fn kind_name(&self) -> (r: &'static str) {
        "Broadcast"
    }

    fn build(self, graph: &mut GraphDef, op_id: &OpID) -> (r: Result<OpInstance, Error>) {
        match self.instance(graph, op_id) {
            Ok(inst) => {
                let record = inst.record();
                Ok(record)
            },
            Err(e) => Err(e),
        }
    }
}

} // verus!
