//! Elementwise multiplication, with the second input repeated to the shape of
//! the first: the product is added to the output.

use crate::error::{Error, PassFault};
use crate::graph::{GraphDef, Op, OpInstance, OpPlan, PassPlan, PassRecord, ShapeRule};
use crate::id::{DataID, DataKind, NodeID, OpID, PassID};
use crate::ops::math::repeat::{broadcastable, can_broadcast};
use crate::ops::{op_name, standard_op_name};
use crate::propagate::{apply_rule, is_rule_conflict, rule_outcome, GraphShapes};
use crate::shape::NodeDim;
use crate::subgraph::Subgraph;
use vstd::prelude::*;

verus! {

/// Whether two lists of extents are the same.
pub fn same_extents(a: &[usize], b: &[usize]) -> (same: bool)
    ensures
        same == (a@ == b@),
{
    if a.len() != b.len() {
        return false;
    }
    let mut i: usize = 0;
    while i < a.len()
        invariant
            i <= a.len(),
            a.len() == b.len(),
            forall|k: int| 0 <= k < i ==> a@[k] == b@[k],
        decreases a.len() - i,
    {
        if a[i] != b[i] {
            return false;
        }
        i += 1;
    }
    assert(a@ =~= b@);
    true
}

/// The buffers that the forward pass of a multiplication reads.
pub open spec fn forward_reads(input1: NodeID, input2: NodeID) -> Seq<DataID> {
    seq![
        DataID { node: input1, kind: DataKind::Value },
        DataID { node: input2, kind: DataKind::Value },
    ]
}

/// The buffers that the forward pass of a multiplication writes.
pub open spec fn forward_writes(output: NodeID) -> Seq<DataID> {
    seq![DataID { node: output, kind: DataKind::Value }]
}

/// The buffers that the backward pass of a multiplication reads.
pub open spec fn backward_reads(input1: NodeID, input2: NodeID, output: NodeID) -> Seq<DataID> {
    seq![
        DataID { node: input1, kind: DataKind::Value },
        DataID { node: input2, kind: DataKind::Value },
        DataID { node: output, kind: DataKind::Gradient },
    ]
}

/// The buffers that the backward pass of a multiplication writes.
pub open spec fn backward_writes(input1: NodeID, input2: NodeID) -> Seq<DataID> {
    seq![
        DataID { node: input1, kind: DataKind::Gradient },
        DataID { node: input2, kind: DataKind::Gradient },
    ]
}

/// The forward pass: `output += input1 * input2`, with `input2` repeated.
#[derive(Clone, Debug)]
pub struct MulForward {
    pub input1_id: NodeID,
    pub input2_id: NodeID,
    pub output_id: NodeID,
}

impl MulForward {
    /// The forward pass between the given nodes.
    pub fn new(input1_id: NodeID, input2_id: NodeID, output_id: NodeID) -> (r: Self)
        ensures
            r.input1_id == input1_id,
            r.input2_id == input2_id,
            r.output_id == output_id,
    {
        MulForward { input1_id, input2_id, output_id }
    }

    /// The name of the kind of pass.
    pub fn kind_name(&self) -> (r: &'static str)
        ensures
            r@ == "MulForward"@,
    {
        "MulForward"
    }

    /// The buffers that the pass reads, and those that it writes.
    pub fn dependencies(&self) -> (r: (Vec<DataID>, Vec<DataID>))
        ensures
            r.0@ == forward_reads(self.input1_id, self.input2_id),
            r.1@ == forward_writes(self.output_id),
    {
        let reads = vec![self.input1_id.value_id(), self.input2_id.value_id()];
        let writes = vec![self.output_id.value_id()];
        proof {
            assert(reads@ =~= forward_reads(self.input1_id, self.input2_id));
            assert(writes@ =~= forward_writes(self.output_id));
        }
        (reads, writes)
    }

    /// The record of the pass for the graph's table.
    pub fn record(&self) -> (r: PassRecord)
        ensures
            r.name@ == "MulForward"@,
            r.reads@ == forward_reads(self.input1_id, self.input2_id),
            r.writes@ == forward_writes(self.output_id),
    {
        let (reads, writes) = self.dependencies();
        PassRecord { name: self.kind_name().to_owned(), reads, writes }
    }

    /// Checks the extents of the buffers before the pass runs as pass `pass`:
    /// `input1` and `output` must have the same extents, and `input2` must
    /// be repeatable to them.
    pub fn prepare(&self, pass: PassID, input1: &[usize], input2: &[usize], output: &[usize]) -> (r:
        Result<(), Error>)
        ensures
            r is Ok <==> input1@ == output@ && broadcastable(input2@, input1@),
            r matches Err(e) ==> e == (Error::PassError {
                pass,
                fault: if input1@ != output@ {
                    PassFault::ShapeMismatch {
                        left: DataID { node: self.input1_id, kind: DataKind::Value },
                        right: DataID { node: self.output_id, kind: DataKind::Value },
                    }
                } else {
                    PassFault::NotBroadcastable {
                        from: DataID { node: self.input2_id, kind: DataKind::Value },
                        to: DataID { node: self.input1_id, kind: DataKind::Value },
                    }
                },
            }),
    {
        if !same_extents(input1, output) {
            return Err(
                Error::PassError {
                    pass,
                    fault: PassFault::ShapeMismatch {
                        left: self.input1_id.value_id(),
                        right: self.output_id.value_id(),
                    },
                },
            );
        }
        if !can_broadcast(input2, input1) {
            return Err(
                Error::PassError {
                    pass,
                    fault: PassFault::NotBroadcastable {
                        from: self.input2_id.value_id(),
                        to: self.input1_id.value_id(),
                    },
                },
            );
        }
        Ok(())
    }
}

/// Which gradients a backward pass is to add to.
#[derive(Clone, Copy, Debug, PartialEq, Eq, Structural)]
pub struct BackwardSteps {
    /// Add `input2 * output_grad`, elementwise, to the gradient of `input1`.
    /// Each element is written once, so the additions may run in parallel.
    pub input1: bool,
    /// Add `input1 * output_grad` to the gradient of `input2`. Where `input2`
    /// is repeated, many products go to one element: the additions run one
    /// after another.
    pub input2: bool,
}

/// The backward pass: adds to the gradients of both inputs.
#[derive(Clone, Debug)]
pub struct MulBackward {
    pub input1_id: NodeID,
    pub input2_id: NodeID,
    pub output_id: NodeID,
}

impl MulBackward {
    /// The backward pass between the given nodes.
    pub fn new(input1_id: NodeID, input2_id: NodeID, output_id: NodeID) -> (r: Self)
        ensures
            r.input1_id == input1_id,
            r.input2_id == input2_id,
            r.output_id == output_id,
    {
        MulBackward { input1_id, input2_id, output_id }
    }

    /// The name of the kind of pass.
    pub fn kind_name(&self) -> (r: &'static str)
        ensures
            r@ == "MulBackward"@,
    {
        "MulBackward"
    }

    /// The buffers that the pass reads, and those that it writes.
    pub fn dependencies(&self) -> (r: (Vec<DataID>, Vec<DataID>))
        ensures
            r.0@ == backward_reads(self.input1_id, self.input2_id, self.output_id),
            r.1@ == backward_writes(self.input1_id, self.input2_id),
    {
        let reads = vec![
            self.input1_id.value_id(),
            self.input2_id.value_id(),
            self.output_id.gradient_id(),
        ];
        let writes = vec![self.input1_id.gradient_id(), self.input2_id.gradient_id()];
        proof {
            assert(reads@ =~= backward_reads(self.input1_id, self.input2_id, self.output_id));
            assert(writes@ =~= backward_writes(self.input1_id, self.input2_id));
        }
        (reads, writes)
    }

    /// The record of the pass for the graph's table.
    pub fn record(&self) -> (r: PassRecord)
        ensures
            r.name@ == "MulBackward"@,
            r.reads@ == backward_reads(self.input1_id, self.input2_id, self.output_id),
            r.writes@ == backward_writes(self.input1_id, self.input2_id),
    {
        let (reads, writes) = self.dependencies();
        PassRecord { name: self.kind_name().to_owned(), reads, writes }
    }

    /// Checks the extents of the buffers before the pass runs as pass `pass`
    /// of `plan`, and says which gradients it is to add to: those that the
    /// plan requires. `input1` and the gradient of the output must have the
    /// same extents, and `input2` must be repeatable to them.
    pub fn prepare(
        &self,
        pass: PassID,
        plan: &Subgraph,
        input1: &[usize],
        input2: &[usize],
        output_grad: &[usize],
    ) -> (r: Result<BackwardSteps, Error>)
        ensures
            r is Ok <==> input1@ == output_grad@ && broadcastable(input2@, input1@),
            r matches Ok(steps) ==> {
                &&& steps.input1 == plan.requires_data(
                    DataID { node: self.input1_id, kind: DataKind::Gradient },
                )
                &&& steps.input2 == plan.requires_data(
                    DataID { node: self.input2_id, kind: DataKind::Gradient },
                )
            },
            r matches Err(e) ==> e == (Error::PassError {
                pass,
                fault: if input1@ != output_grad@ {
                    PassFault::ShapeMismatch {
                        left: DataID { node: self.input1_id, kind: DataKind::Value },
                        right: DataID { node: self.output_id, kind: DataKind::Gradient },
                    }
                } else {
                    PassFault::NotBroadcastable {
                        from: DataID { node: self.input2_id, kind: DataKind::Value },
                        to: DataID { node: self.input1_id, kind: DataKind::Value },
                    }
                },
            }),
    {
        if !same_extents(input1, output_grad) {
            return Err(
                Error::PassError {
                    pass,
                    fault: PassFault::ShapeMismatch {
                        left: self.input1_id.value_id(),
                        right: self.output_id.gradient_id(),
                    },
                },
            );
        }
        if !can_broadcast(input2, input1) {
            return Err(
                Error::PassError {
                    pass,
                    fault: PassFault::NotBroadcastable {
                        from: self.input2_id.value_id(),
                        to: self.input1_id.value_id(),
                    },
                },
            );
        }
        Ok(
            BackwardSteps {
                input1: plan.is_required(&self.input1_id.gradient_id()),
                input2: plan.is_required(&self.input2_id.gradient_id()),
            },
        )
    }
}

/// A multiplication as its user states it: the value of `input2` is repeated
/// to the shape of `input1`, multiplied with it elementwise, and added to the
/// output.
#[must_use]
#[derive(Clone, Debug)]
pub struct Mul {
    pub input1: NodeID,
    pub input2: NodeID,
    pub output: NodeID,
    pub name: Option<String>,
}

/// A multiplication as part of a graph.
#[derive(Clone, Debug)]
pub struct MulInstance {
    pub name: String,
    pub op_id: OpID,
    pub input1_id: NodeID,
    pub input2_id: NodeID,
    pub output_id: NodeID,
    pub forward_id: PassID,
    pub backward_id: PassID,
}

impl Mul {
    /// A multiplication of `input1` by `input2` into `output`, without a name
    /// of its own.
    pub fn new(input1: &NodeID, input2: &NodeID, output: &NodeID) -> (r: Self)
        ensures
            r.input1 == *input1,
            r.input2 == *input2,
            r.output == *output,
            r.name is None,
    {
        Mul { input1: *input1, input2: *input2, output: *output, name: None }
    }

    /// The same operation under the given name.
    pub fn name(self, name: &str) -> (r: Self)
        ensures
            r.input1 == self.input1,
            r.input2 == self.input2,
            r.output == self.output,
            r.name matches Some(n) && n@ == name@,
    {
        Mul {
            input1: self.input1,
            input2: self.input2,
            output: self.output,
            name: Some(name.to_owned()),
        }
    }

    /// Registers the forward and the backward pass with the graph, in that
    /// order, for the operation that will have the handle `op_id`. An
    /// operation on a node that the graph does not hold is refused as
    /// `UnknownNode`, naming the first such node of `input1`, `input2`,
    /// `output`, and the graph is left as it was.
    pub fn instance(self, graph: &mut GraphDef, op_id: &OpID) -> (r: Result<MulInstance, Error>)
        ensures
            final(graph).nodes() == old(graph).nodes(),
            final(graph).ops() == old(graph).ops(),
            old(graph).extended_by(final(graph)),
            old(graph).wf() ==> final(graph).wf(),
            r is Ok <==> {
                &&& self.input1.index < old(graph).nodes().len()
                &&& self.input2.index < old(graph).nodes().len()
                &&& self.output.index < old(graph).nodes().len()
            },
            r matches Ok(inst) ==> {
                &&& inst.name@ == op_name(
                    "Mul"@,
                    self.name,
                    old(graph).nodes(),
                    seq![self.input1, self.input2],
                    seq![self.output],
                )
                &&& inst.op_id == *op_id
                &&& inst.input1_id == self.input1
                &&& inst.input2_id == self.input2
                &&& inst.output_id == self.output
                &&& final(graph).passes()[inst.forward_id.index as int].name@ == "MulForward"@
                &&& final(graph).passes()[inst.backward_id.index as int].name@ == "MulBackward"@
                &&& inst.forward_id.index == old(graph).passes().len()
                &&& inst.backward_id.index == old(graph).passes().len() + 1
                &&& final(graph).passes().len() == old(graph).passes().len() + 2
                &&& final(graph).passes()[inst.forward_id.index as int].reads@ == forward_reads(
                    self.input1,
                    self.input2,
                )
                &&& final(graph).passes()[inst.forward_id.index as int].writes@ == forward_writes(
                    self.output,
                )
                &&& final(graph).passes()[inst.backward_id.index as int].reads@ == backward_reads(
                    self.input1,
                    self.input2,
                    self.output,
                )
                &&& final(graph).passes()[inst.backward_id.index as int].writes@
                    == backward_writes(self.input1, self.input2)
            },
            r matches Err(e) ==> {
                &&& final(graph).passes() == old(graph).passes()
                &&& e == (Error::UnknownNode {
                    node: if self.input1.index >= old(graph).nodes().len() {
                        self.input1
                    } else if self.input2.index >= old(graph).nodes().len() {
                        self.input2
                    } else {
                        self.output
                    },
                })
            },
    {
        let n = graph.node_count();
        if self.input1.index >= n {
            return Err(Error::UnknownNode { node: self.input1 });
        }
        if self.input2.index >= n {
            return Err(Error::UnknownNode { node: self.input2 });
        }
        if self.output.index >= n {
            return Err(Error::UnknownNode { node: self.output });
        }
        let inputs = vec![self.input1, self.input2];
        let outputs = vec![self.output];
        proof {
            assert(inputs@ =~= seq![self.input1, self.input2]);
            assert(outputs@ =~= seq![self.output]);
        }
        let name = standard_op_name("Mul", &self.name, graph, inputs.as_slice(), outputs.as_slice());
        let forward = MulForward::new(self.input1, self.input2, self.output).record();
        let backward = MulBackward::new(self.input1, self.input2, self.output).record();
        let forward_id = match graph.add_pass(forward) {
            Ok(id) => id,
            Err(e) => {
                return Err(e);
            },
        };
        let backward_id = match graph.add_pass(backward) {
            Ok(id) => id,
            Err(e) => {
                return Err(e);
            },
        };
        Ok(
            MulInstance {
                name,
                op_id: *op_id,
                input1_id: self.input1,
                input2_id: self.input2,
                output_id: self.output,
                forward_id,
                backward_id,
            },
        )
    }
}

impl MulInstance {
    /// The name of the operation.
    pub fn name(&self) -> (r: &str)
        ensures
            r@ == self.name@,
    {
        self.name.as_str()
    }

    /// The nodes that the operation reads, and those that it writes.
    pub fn dependencies(&self) -> (r: (Vec<NodeID>, Vec<NodeID>))
        ensures
            r.0@ == seq![self.input1_id, self.input2_id],
            r.1@ == seq![self.output_id],
    {
        let inputs = vec![self.input1_id, self.input2_id];
        let outputs = vec![self.output_id];
        proof {
            assert(inputs@ =~= seq![self.input1_id, self.input2_id]);
            assert(outputs@ =~= seq![self.output_id]);
        }
        (inputs, outputs)
    }

    /// The passes of the operation: forward, then backward.
    pub fn inner_passes(&self) -> (r: Vec<PassID>)
        ensures
            r@ == seq![self.forward_id, self.backward_id],
    {
        let r = vec![self.forward_id, self.backward_id];
        proof {
            assert(r@ =~= seq![self.forward_id, self.backward_id]);
        }
        r
    }

    /// The operations that this one is made of: none.
    pub fn inner_ops(&self) -> (r: Vec<OpID>)
        ensures
            r@.len() == 0,
    {
        Vec::new()
    }

    /// The nodes that this operation adds: none.
    pub fn inner_nodes(&self) -> (r: Vec<NodeID>)
        ensures
            r@.len() == 0,
    {
        Vec::new()
    }

    /// The rule by which the operation constrains shapes.
    pub fn rule(&self) -> (r: ShapeRule)
        ensures
            r == (ShapeRule::Repeat {
                input1: self.input1_id,
                input2: self.input2_id,
                output: self.output_id,
            }),
    {
        ShapeRule::Repeat {
            input1: self.input1_id,
            input2: self.input2_id,
            output: self.output_id,
        }
    }

    /// Constrains the shape of the output: it has the shape of `input1`, and
    /// on each axis on which the extent of `input2` is not 1, that extent.
    /// The shape of `input2` must be fixed. A conflict leaves the table as it
    /// was and names the node whose shape stands in the way, this operation
    /// and the fault; a node that the table does not hold is refused as
    /// `UnknownNode`.
    pub fn propagate_shape_constraints(&self, shapes: &mut GraphShapes) -> (r: Result<(), Error>)
        ensures
            final(shapes)@.len() == old(shapes)@.len(),
            !crate::graph::rule_in_range(self.rule_spec(), old(shapes)@.len()) ==> {
                &&& r matches Err(e)
                &&& e matches Error::UnknownNode { node }
                &&& node.index >= old(shapes)@.len()
                &&& final(shapes)@ == old(shapes)@
            },
            crate::graph::rule_in_range(self.rule_spec(), old(shapes)@.len()) ==> {
                match r {
                    Ok(()) => rule_outcome(self.rule_spec(), old(shapes)@) == Ok::<
                        Seq<Seq<NodeDim>>,
                        NodeID,
                    >(final(shapes)@),
                    Err(e) => {
                        &&& final(shapes)@ == old(shapes)@
                        &&& is_rule_conflict(
                            e,
                            self.rule_spec(),
                            old(shapes)@,
                            Some(self.op_id),
                        )
                    },
                }
            },
    {
        let n = shapes.len();
        if self.input1_id.index >= n {
            return Err(Error::UnknownNode { node: self.input1_id });
        }
        if self.input2_id.index >= n {
            return Err(Error::UnknownNode { node: self.input2_id });
        }
        if self.output_id.index >= n {
            return Err(Error::UnknownNode { node: self.output_id });
        }
        let rule = self.rule();
        match apply_rule(&rule, Some(self.op_id), shapes) {
            Ok(_) => Ok(()),
            Err(e) => Err(e),
        }
    }

    /// The rule by which the operation constrains shapes.
    pub open spec fn rule_spec(&self) -> ShapeRule {
        ShapeRule::Repeat {
            input1: self.input1_id,
            input2: self.input2_id,
            output: self.output_id,
        }
    }

    /// The record of the operation for the graph's table.
    pub fn record(self) -> (r: OpInstance)
        ensures
            r.name == self.name,
            r.tags@.len() == 0,
            r.inputs@ == seq![self.input1_id, self.input2_id],
            r.outputs@ == seq![self.output_id],
            r.passes@ == seq![self.forward_id, self.backward_id],
            r.inner_ops@ == Seq::<OpID>::empty(),
            r.inner_nodes@ == Seq::<NodeID>::empty(),
            r.rule == self.rule_spec(),
    {
        let (inputs, outputs) = self.dependencies();
        let passes = self.inner_passes();
        let inner_ops = self.inner_ops();
        let inner_nodes = self.inner_nodes();
        proof {
            assert(inner_ops@ =~= Seq::<OpID>::empty());
            assert(inner_nodes@ =~= Seq::<NodeID>::empty());
        }
        let rule = self.rule();
        OpInstance {
            name: self.name,
            tags: Vec::new(),
            inputs,
            outputs,
            passes,
            inner_ops,
            inner_nodes,
            rule,
        }
    }
}

impl Op for Mul {
    open spec fn accepted_by(&self, graph: &GraphDef) -> bool {
        &&& self.input1.index < graph.nodes().len()
        &&& self.input2.index < graph.nodes().len()
        &&& self.output.index < graph.nodes().len()
    }

    open spec fn plan(&self, graph: &GraphDef) -> OpPlan {
        OpPlan {
            name: op_name(
                "Mul"@,
                self.name,
                graph.nodes(),
                seq![self.input1, self.input2],
                seq![self.output],
            ),
            passes: seq![
                PassPlan {
                    name: "MulForward"@,
                    reads: forward_reads(self.input1, self.input2),
                    writes: forward_writes(self.output),
                },
                PassPlan {
                    name: "MulBackward"@,
                    reads: backward_reads(self.input1, self.input2, self.output),
                    writes: backward_writes(self.input1, self.input2),
                },
            ],
            inputs: seq![self.input1, self.input2],
            outputs: seq![self.output],
            inner_ops: Seq::empty(),
            inner_nodes: Seq::empty(),
            rule: ShapeRule::Repeat {
                input1: self.input1,
                input2: self.input2,
                output: self.output,
            },
        }
    }

    open spec fn kind(&self) -> Seq<char> {
        "Mul"@
    }

    fn kind_name(&self) -> (r: &'static str) {
        "Mul"
    }

    fn build(self, graph: &mut GraphDef, op_id: &OpID) -> (r: Result<OpInstance, Error>) {
        match self.instance(graph, op_id) {
            Ok(inst) => {
                let record = inst.record();
                Ok(record)
            },
            Err(e) => Err(e),
        }
    }
}

} // verus!
