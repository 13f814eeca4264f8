//! The hyperbolic tangent, element by element.

use crate::error::Error;
use crate::graph::{GraphDef, Op, OpInstance, OpPlan, PassPlan, ShapeRule};
use crate::ops::op_name;
use crate::id::{NodeID, OpID};
use crate::ops::activ::elementwise::{
    elementwise_backward_reads, elementwise_backward_writes, elementwise_build,
    elementwise_forward_reads, elementwise_forward_writes, ActivationFunc, ElementwiseInstance,
};
use vstd::prelude::*;

verus! {

/// The hyperbolic tangent as an activation function.
#[derive(Clone, Debug)]
pub struct TanhFunc {}

impl ActivationFunc for TanhFunc {
    /// The gradient, `output_grad / cosh(input)^2`, is computed from the
    /// input.
    open spec fn needs_input_value() -> bool {
        true
    }

    fn backprop_requires_input_value() -> (b: bool) {
        true
    }
}

/// The hyperbolic tangent of every element of `input`, added to `output`.
#[derive(Clone, Debug)]
pub struct Tanh {
    pub output: NodeID,
    pub input: NodeID,
    pub name: Option<String>,
}

impl Tanh {
    /// The operation from `input` to `output`, without a name of its own.
    pub fn new(input: &NodeID, output: &NodeID) -> (r: Self)
        ensures
            r.input == *input,
            r.output == *output,
            r.name is None,
    {
        Tanh { input: *input, output: *output, name: None }
    }

    /// The same operation under the given name.
    pub fn name(self, name: &str) -> (r: Self)
        ensures
            r.input == self.input,
            r.output == self.output,
            r.name matches Some(n) && n@ == name@,
    {
        Tanh { input: self.input, output: self.output, name: Some(name.to_owned()) }
    }

    /// Registers the passes of the operation with the graph.
    pub fn instance(self, graph: &mut GraphDef) -> (r: Result<ElementwiseInstance, Error>)
        ensures
            final(graph).nodes() == old(graph).nodes(),
            final(graph).ops() == old(graph).ops(),
            old(graph).extended_by(final(graph)),
            old(graph).wf() ==> final(graph).wf(),
            r is Ok <==> self.input.index < old(graph).nodes().len() && self.output.index < old(
                graph,
            ).nodes().len(),
            r matches Ok(inst) ==> {
                &&& inst.name@ == op_name(
                    "Tanh"@,
                    self.name,
                    old(graph).nodes(),
                    seq![self.input],
                    seq![self.output],
                )
                &&& final(graph).passes()[inst.forward_id.index as int].name@ == "Tanh"@
                    + "Forward"@
                &&& final(graph).passes()[inst.backward_id.index as int].name@ == "Tanh"@
                    + "Backward"@
                &&& inst.input_id == self.input
                &&& inst.output_id == self.output
                &&& inst.reads_input_value
                &&& inst.forward_id.index == old(graph).passes().len()
                &&& inst.backward_id.index == old(graph).passes().len() + 1
                &&& final(graph).passes().len() == old(graph).passes().len() + 2
                &&& final(graph).passes()[inst.forward_id.index as int].reads@
                    == elementwise_forward_reads(self.input)
                &&& final(graph).passes()[inst.forward_id.index as int].writes@
                    == elementwise_forward_writes(self.output)
                &&& final(graph).passes()[inst.backward_id.index as int].reads@
                    == elementwise_backward_reads(self.input, self.output, true)
                &&& final(graph).passes()[inst.backward_id.index as int].writes@
                    == elementwise_backward_writes(self.input)
            },
            r matches Err(e) ==> {
                &&& final(graph).passes() == old(graph).passes()
                &&& e == (Error::UnknownNode {
                    node: if self.input.index >= old(graph).nodes().len() {
                        self.input
                    } else {
                        self.output
                    },
                })
            },
    {
        elementwise_build(graph, "Tanh", &self.name, &self.input, &self.output, TanhFunc {  })
    }
}

impl Op for Tanh {
    open spec fn accepted_by(&self, graph: &GraphDef) -> bool {
        self.input.index < graph.nodes().len() && self.output.index < graph.nodes().len()
    }

    open spec fn plan(&self, graph: &GraphDef) -> OpPlan {
        OpPlan {
            name: op_name("Tanh"@, self.name, graph.nodes(), seq![self.input], seq![self.output]),
            passes: seq![
                PassPlan {
                    name: "Tanh"@ + "Forward"@,
                    reads: elementwise_forward_reads(self.input),
                    writes: elementwise_forward_writes(self.output),
                },
                PassPlan {
                    name: "Tanh"@ + "Backward"@,
                    reads: elementwise_backward_reads(self.input, self.output, true),
                    writes: elementwise_backward_writes(self.input),
                },
            ],
            inputs: seq![self.input],
            outputs: seq![self.output],
            inner_ops: Seq::empty(),
            inner_nodes: Seq::empty(),
            rule: ShapeRule::Elementwise { input: self.input, output: self.output },
        }
    }

    open spec fn kind(&self) -> Seq<char> {
        "Tanh"@
    }

    fn kind_name(&self) -> (r: &'static str) {
        "Tanh"
    }

    fn build(self, graph: &mut GraphDef, _op_id: &OpID) -> (r: Result<OpInstance, Error>) {
        match self.instance(graph) {
            Ok(inst) => {
                let record = inst.record();
                Ok(record)
            },
            Err(e) => Err(e),
        }
    }
}

} // verus!
