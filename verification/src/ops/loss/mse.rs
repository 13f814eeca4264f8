//! The mean of the squared differences of two nodes, as a loss.

use crate::error::{Error, PassFault};
use crate::graph::{GraphDef, Op, OpInstance, OpPlan, PassPlan, PassRecord, ShapeRule};
use crate::id::{DataID, DataKind, NodeID, OpID, PassID};
use crate::ops::loss::LossType;
use crate::ops::math::mul::{same_extents, BackwardSteps};
use crate::ops::{op_name, standard_op_name};
use crate::subgraph::Subgraph;
use vstd::prelude::*;

verus! {

/// The mean squared error between two nodes, as its user states it.
#[derive(Clone, Debug)]
pub struct Mse {
    pub input1: NodeID,
    pub input2: NodeID,
    pub name: Option<String>,
}

/// A mean squared error as part of a graph.
#[derive(Clone, Debug)]
pub struct MseInstance {
    pub name: String,
    pub input1_id: NodeID,
    pub input2_id: NodeID,
    pub pass_id: PassID,
}

/// The buffers that the pass of a mean squared error reads.
pub open spec fn mse_reads(input1: NodeID, input2: NodeID) -> Seq<DataID> {
    seq![
        DataID { node: input1, kind: DataKind::Value },
        DataID { node: input2, kind: DataKind::Value },
    ]
}

/// The buffers that the pass of a mean squared error writes.
pub open spec fn mse_writes(input1: NodeID, input2: NodeID) -> Seq<DataID> {
    seq![
        DataID { node: input1, kind: DataKind::Gradient },
        DataID { node: input2, kind: DataKind::Gradient },
    ]
}

impl Mse {
    /// The mean squared error between `input1` and `input2`, without a name
    /// of its own.
    pub fn new(input1: &NodeID, input2: &NodeID) -> (r: Self)
        ensures
            r.input1 == *input1,
            r.input2 == *input2,
            r.name is None,
    {
        Mse { input1: *input1, input2: *input2, name: None }
    }

    /// The same operation under the given name.
    pub fn name(self, name: &str) -> (r: Self)
        ensures
            r.input1 == self.input1,
            r.input2 == self.input2,
            r.name matches Some(n) && n@ == name@,
    {
        Mse { input1: self.input1, input2: self.input2, name: Some(name.to_owned()) }
    }

    /// Registers the pass of the loss with the graph. An operation on a node
    /// that the graph does not hold is refused as `UnknownNode`, naming
    /// `input1` before `input2`, and the graph is left as it was.
    pub fn instance(self, graph: &mut GraphDef) -> (r: Result<MseInstance, Error>)
        ensures
            final(graph).nodes() == old(graph).nodes(),
            final(graph).ops() == old(graph).ops(),
            old(graph).extended_by(final(graph)),
            old(graph).wf() ==> final(graph).wf(),
            r is Ok <==> self.input1.index < old(graph).nodes().len() && self.input2.index < old(
                graph,
            ).nodes().len(),
            r matches Ok(inst) ==> {
                &&& inst.name@ == op_name(
                    "Mse"@,
                    self.name,
                    old(graph).nodes(),
                    seq![self.input1, self.input2],
                    Seq::empty(),
                )
                &&& final(graph).passes()[inst.pass_id.index as int].name@ == "MseJoint"@
                &&& inst.input1_id == self.input1
                &&& inst.input2_id == self.input2
                &&& inst.pass_id.index == old(graph).passes().len()
                &&& final(graph).passes().len() == old(graph).passes().len() + 1
                &&& final(graph).passes()[inst.pass_id.index as int].reads@ == mse_reads(
                    self.input1,
                    self.input2,
                )
                &&& final(graph).passes()[inst.pass_id.index as int].writes@ == mse_writes(
                    self.input1,
                    self.input2,
                )
            },
            r matches Err(e) ==> {
                &&& final(graph).passes() == old(graph).passes()
                &&& e == (Error::UnknownNode {
                    node: if self.input1.index >= old(graph).nodes().len() {
                        self.input1
                    } else {
                        self.input2
                    },
                })
            },
    {
        let n = graph.node_count();
        if self.input1.index >= n {
            return Err(Error::UnknownNode { node: self.input1 });
        }
        if self.input2.index >= n {
            return Err(Error::UnknownNode { node: self.input2 });
        }
        let inputs = vec![self.input1, self.input2];
        let outputs: Vec<NodeID> = Vec::new();
        proof {
            assert(inputs@ =~= seq![self.input1, self.input2]);
            assert(outputs@ =~= Seq::<NodeID>::empty());
        }
        let name = standard_op_name("Mse", &self.name, graph, inputs.as_slice(), outputs.as_slice());
        let pass = PassRecord {
            name: "MseJoint".to_owned(),
            reads: vec![self.input1.value_id(), self.input2.value_id()],
            writes: vec![self.input1.gradient_id(), self.input2.gradient_id()],
        };
        proof {
            assert(pass.reads@ =~= mse_reads(self.input1, self.input2));
            assert(pass.writes@ =~= mse_writes(self.input1, self.input2));
        }
        let pass_id = match graph.add_pass(pass) {
            Ok(id) => id,
            Err(e) => {
                return Err(e);
            },
        };
        Ok(MseInstance { name, input1_id: self.input1, input2_id: self.input2, pass_id })
    }
}

impl MseInstance {
    /// How the loss is attached to the graph: in one pass.
    pub fn loss_type(&self) -> (r: LossType)
        ensures
            r == (LossType::Joint { pass_id: self.pass_id }),
    {
        LossType::Joint { pass_id: self.pass_id }
    }

    /// The record of the operation for the graph's table.
    pub fn record(self) -> (r: OpInstance)
        ensures
            r.name == self.name,
            r.tags@.len() == 0,
            r.inputs@ == seq![self.input1_id, self.input2_id],
            r.outputs@ == Seq::<NodeID>::empty(),
            r.passes@ == seq![self.pass_id],
            r.inner_ops@ == Seq::<OpID>::empty(),
            r.inner_nodes@ == Seq::<NodeID>::empty(),
            r.rule == ShapeRule::Free,
    {
        let inputs = vec![self.input1_id, self.input2_id];
        let passes = vec![self.pass_id];
        proof {
            assert(inputs@ =~= seq![self.input1_id, self.input2_id]);
            assert(passes@ =~= seq![self.pass_id]);
        }
        let inner_ops: Vec<OpID> = Vec::new();
        let inner_nodes: Vec<NodeID> = Vec::new();
        proof {
            assert(inner_ops@ =~= Seq::<OpID>::empty());
            assert(inner_nodes@ =~= Seq::<NodeID>::empty());
        }
        OpInstance {
            name: self.name,
            tags: Vec::new(),
            inputs,
            outputs: Vec::new(),
            passes,
            inner_ops,
            inner_nodes,
            rule: ShapeRule::Free,
        }
    }

    /// Checks the extents of the buffers before the pass runs as pass `pass`
    /// of `plan`, and says which gradients it is to add to: those that the
    /// plan requires. The two inputs must have the same extents.
    pub fn prepare(&self, pass: PassID, plan: &Subgraph, input1: &[usize], input2: &[usize]) -> (r:
        Result<BackwardSteps, Error>)
        ensures
            r is Ok <==> input1@ == input2@,
            r matches Ok(steps) ==> {
                &&& steps.input1 == plan.requires_data(
                    DataID { node: self.input1_id, kind: DataKind::Gradient },
                )
                &&& steps.input2 == plan.requires_data(
                    DataID { node: self.input2_id, kind: DataKind::Gradient },
                )
            },
            r matches Err(e) ==> e == (Error::PassError {
                pass,
                fault: PassFault::ShapeMismatch {
                    left: DataID { node: self.input1_id, kind: DataKind::Value },
                    right: DataID { node: self.input2_id, kind: DataKind::Value },
                },
            }),
    {
        if !same_extents(input1, input2) {
            return Err(
                Error::PassError {
                    pass,
                    fault: PassFault::ShapeMismatch {
                        left: self.input1_id.value_id(),
                        right: self.input2_id.value_id(),
                    },
                },
            );
        }
        Ok(
            BackwardSteps {
                input1: plan.is_required(&self.input1_id.gradient_id()),
                input2: plan.is_required(&self.input2_id.gradient_id()),
            },
        )
    }
}

impl Op for Mse {
    open spec fn accepted_by(&self, graph: &GraphDef) -> bool {
        self.input1.index < graph.nodes().len() && self.input2.index < graph.nodes().len()
    }

    open spec fn plan(&self, graph: &GraphDef) -> OpPlan {
        OpPlan {
            name: op_name(
                "Mse"@,
                self.name,
                graph.nodes(),
                seq![self.input1, self.input2],
                Seq::empty(),
            ),
            passes: seq![
                PassPlan {
                    name: "MseJoint"@,
                    reads: mse_reads(self.input1, self.input2),
                    writes: mse_writes(self.input1, self.input2),
                },
            ],
            inputs: seq![self.input1, self.input2],
            outputs: Seq::empty(),
            inner_ops: Seq::empty(),
            inner_nodes: Seq::empty(),
            rule: ShapeRule::Free,
        }
    }

    open spec fn kind(&self) -> Seq<char> {
        "Mse"@
    }

    fn kind_name(&self) -> (r: &'static str) {
        "Mse"
    }

    fn build(self, graph: &mut GraphDef, _op_id: &OpID) -> (r: Result<OpInstance, Error>) {
        match self.instance(graph) {
            Ok(inst) => {
                let record = inst.record();
                Ok(record)
            },
            Err(e) => Err(e),
        }
    }
}

} // verus!
