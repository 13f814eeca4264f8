//! Operations that apply one function to every element of their input.

use crate::error::{Error, PassFault};
use crate::graph::{GraphDef, OpInstance, PassRecord, ShapeRule};
use crate::id::{DataID, DataKind, NodeID, OpID, PassID};
use crate::ops::math::mul::same_extents;
use crate::ops::{op_name, standard_op_name};
use crate::subgraph::Subgraph;
use vstd::prelude::*;

verus! {

/// What the engine needs to know of an activation function.
pub trait ActivationFunc {
    /// Whether the gradient of the function is computed from the value of
    /// its input.
    spec fn needs_input_value() -> bool;

    /// Whether the gradient of the function is computed from the value of
    /// its input, so that the backward pass reads that value.
    fn backprop_requires_input_value() -> (b: bool)
        ensures
            b == Self::needs_input_value(),
    ;
}

/// The buffers that the forward pass of an elementwise operation reads.
pub open spec fn elementwise_forward_reads(input: NodeID) -> Seq<DataID> {
    seq![DataID { node: input, kind: DataKind::Value }]
}

/// The buffers that the forward pass of an elementwise operation writes.
pub open spec fn elementwise_forward_writes(output: NodeID) -> Seq<DataID> {
    seq![DataID { node: output, kind: DataKind::Value }]
}

/// The buffers that the backward pass of an elementwise operation reads: the
/// gradient of the output, preceded by the value of the input where the
/// function's gradient is computed from it.
pub open spec fn elementwise_backward_reads(input: NodeID, output: NodeID, with_input: bool) -> Seq<
    DataID,
> {
    if with_input {
        seq![
            DataID { node: input, kind: DataKind::Value },
            DataID { node: output, kind: DataKind::Gradient },
        ]
    } else {
        seq![DataID { node: output, kind: DataKind::Gradient }]
    }
}

/// The buffers that the backward pass of an elementwise operation writes.
pub open spec fn elementwise_backward_writes(input: NodeID) -> Seq<DataID> {
    seq![DataID { node: input, kind: DataKind::Gradient }]
}

/// An elementwise operation as part of a graph.
#[derive(Clone, Debug)]
pub struct ElementwiseInstance {
    pub name: String,
    pub input_id: NodeID,
    pub output_id: NodeID,
    pub forward_id: PassID,
    pub backward_id: PassID,
    pub reads_input_value: bool,
}

/// The record of the forward pass of an elementwise operation.
pub fn elementwise_forward(kind: &str, input: NodeID, output: NodeID) -> (r: PassRecord)
    ensures
        r.name@ == kind@ + "Forward"@,
        r.reads@ == elementwise_forward_reads(input),
        r.writes@ == elementwise_forward_writes(output),
{
    let reads = vec![input.value_id()];
    let writes = vec![output.value_id()];
    let name = pass_name(kind, "Forward");
    proof {
        assert(reads@ =~= elementwise_forward_reads(input));
        assert(writes@ =~= elementwise_forward_writes(output));
    }
    PassRecord { name, reads, writes }
}

/// The record of the backward pass of an elementwise operation.
pub fn elementwise_backward(kind: &str, input: NodeID, output: NodeID, with_input: bool) -> (r:
    PassRecord)
    ensures
        r.name@ == kind@ + "Backward"@,
        r.reads@ == elementwise_backward_reads(input, output, with_input),
        r.writes@ == elementwise_backward_writes(input),
{
    let reads = if with_input {
        vec![input.value_id(), output.gradient_id()]
    } else {
        vec![output.gradient_id()]
    };
    let writes = vec![input.gradient_id()];
    let name = pass_name(kind, "Backward");
    proof {
        assert(reads@ =~= elementwise_backward_reads(input, output, with_input));
        assert(writes@ =~= elementwise_backward_writes(input));
    }
    PassRecord { name, reads, writes }
}

/// The name of a pass: the kind of its operation, then its direction.
pub fn pass_name(kind: &str, direction: &str) -> (r: String)
    ensures
        r@ == kind@ + direction@,
{
    let mut name = kind.to_owned();
    name.append(direction);
    name
}

/// Registers the forward and the backward pass of an elementwise operation
/// of kind `kind` with the graph, in that order. An operation on a node that
/// the graph does not hold is refused as `UnknownNode`, naming the input
/// before the output, and the graph is left as it was.
pub fn elementwise_build<F: ActivationFunc>(
    graph: &mut GraphDef,
    kind: &str,
    name: &Option<String>,
    input: &NodeID,
    output: &NodeID,
    func: F,
) -> (r: Result<ElementwiseInstance, Error>)
    ensures
        final(graph).nodes() == old(graph).nodes(),
        final(graph).ops() == old(graph).ops(),
        old(graph).extended_by(final(graph)),
        old(graph).wf() ==> final(graph).wf(),
        r is Ok <==> input.index < old(graph).nodes().len() && output.index < old(
            graph,
        ).nodes().len(),
        r matches Ok(inst) ==> {
            &&& inst.name@ == op_name(kind@, *name, old(graph).nodes(), seq![*input], seq![*output])
            &&& inst.input_id == *input
            &&& inst.output_id == *output
            &&& inst.reads_input_value == F::needs_input_value()
            &&& final(graph).passes()[inst.forward_id.index as int].name@ == kind@ + "Forward"@
            &&& final(graph).passes()[inst.backward_id.index as int].name@ == kind@ + "Backward"@
            &&& inst.forward_id.index == old(graph).passes().len()
            &&& inst.backward_id.index == old(graph).passes().len() + 1
            &&& final(graph).passes().len() == old(graph).passes().len() + 2
            &&& final(graph).passes()[inst.forward_id.index as int].reads@
                == elementwise_forward_reads(*input)
            &&& final(graph).passes()[inst.forward_id.index as int].writes@
                == elementwise_forward_writes(*output)
            &&& final(graph).passes()[inst.backward_id.index as int].reads@
                == elementwise_backward_reads(*input, *output, inst.reads_input_value)
            &&& final(graph).passes()[inst.backward_id.index as int].writes@
                == elementwise_backward_writes(*input)
        },
        r matches Err(e) ==> {
            &&& final(graph).passes() == old(graph).passes()
            &&& e == (Error::UnknownNode {
                node: if input.index >= old(graph).nodes().len() {
                    *input
                } else {
                    *output
                },
            })
        },
{
    let n = graph.node_count();
    if input.index >= n {
        return Err(Error::UnknownNode { node: *input });
    }
    if output.index >= n {
        return Err(Error::UnknownNode { node: *output });
    }
    let inputs = vec![*input];
    let outputs = vec![*output];
    proof {
        assert(inputs@ =~= seq![*input]);
        assert(outputs@ =~= seq![*output]);
    }
    let chosen = standard_op_name(kind, name, graph, inputs.as_slice(), outputs.as_slice());
    let with_input = F::backprop_requires_input_value();
    let forward = elementwise_forward(kind, *input, *output);
    let backward = elementwise_backward(kind, *input, *output, with_input);
    let forward_id = match graph.add_pass(forward) {
        Ok(id) => id,
        Err(e) => {
            return Err(e);
        },
    };
    let backward_id = match graph.add_pass(backward) {
        Ok(id) => id,
        Err(e) => {
            return Err(e);
        },
    };
    Ok(
        ElementwiseInstance {
            name: chosen,
            input_id: *input,
            output_id: *output,
            forward_id,
            backward_id,
            reads_input_value: with_input,
        },
    )
}

impl ElementwiseInstance {
    /// The name of the operation.
    pub fn name(&self) -> (r: &str)
        ensures
            r@ == self.name@,
    {
        self.name.as_str()
    }

    /// The rule by which the operation constrains shapes: the output has the
    /// shape of the input.
    pub open spec fn rule_spec(&self) -> ShapeRule {
        ShapeRule::Elementwise { input: self.input_id, output: self.output_id }
    }

    /// The record of the operation for the graph's table.
    pub fn record(self) -> (r: OpInstance)
        ensures
            r.name == self.name,
            r.tags@.len() == 0,
            r.inputs@ == seq![self.input_id],
            r.outputs@ == seq![self.output_id],
            r.passes@ == seq![self.forward_id, self.backward_id],
            r.inner_ops@ == Seq::<OpID>::empty(),
            r.inner_nodes@ == Seq::<NodeID>::empty(),
            r.rule == self.rule_spec(),
    {
        let inputs = vec![self.input_id];
        let outputs = vec![self.output_id];
        let passes = vec![self.forward_id, self.backward_id];
        proof {
            assert(inputs@ =~= seq![self.input_id]);
            assert(outputs@ =~= seq![self.output_id]);
            assert(passes@ =~= seq![self.forward_id, self.backward_id]);
        }
        let inner_ops: Vec<OpID> = Vec::new();
        let inner_nodes: Vec<NodeID> = Vec::new();
        proof {
            assert(inner_ops@ =~= Seq::<OpID>::empty());
            assert(inner_nodes@ =~= Seq::<NodeID>::empty());
        }
        OpInstance {
            name: self.name,
            tags: Vec::new(),
            inputs,
            outputs,
            passes,
            inner_ops,
            inner_nodes,
            rule: ShapeRule::Elementwise { input: self.input_id, output: self.output_id },
        }
    }

    /// Checks the extents of the buffers before a pass of the operation runs
    /// as pass `pass`: the two buffers must have the same extents.
    pub fn prepare(&self, pass: PassID, left: DataID, right: DataID, a: &[usize], b: &[usize]) -> (r:
        Result<(), Error>)
        ensures
            r is Ok <==> a@ == b@,
            r matches Err(e) ==> e == (Error::PassError {
                pass,
                fault: PassFault::ShapeMismatch { left, right },
            }),
    {
        if same_extents(a, b) {
            Ok(())
        } else {
            Err(Error::PassError { pass, fault: PassFault::ShapeMismatch { left, right } })
        }
    }

    /// Whether the backward pass, run under `plan`, is to add to the gradient
    /// of the input: the plan requires that gradient.
    pub fn backward_required(&self, plan: &Subgraph) -> (b: bool)
        ensures
            b == plan.requires_data(DataID { node: self.input_id, kind: DataKind::Gradient }),
    {
        plan.is_required(&self.input_id.gradient_id())
    }
}

} // verus!
