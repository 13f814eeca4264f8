//! The graph under construction: append-only tables of nodes, passes and
//! operations, referred to by index.

use crate::error::Error;
use crate::id::{DataID, NodeID, OpID, PassID};
use crate::shape::NodeShape;
use vstd::prelude::*;

verus! {

/// A mark on a node that says what role it plays.
#[derive(Clone, Copy, Debug, PartialEq, Eq, Structural, Hash)]
pub enum NodeTag {
    /// The node holds a trainable parameter.
    Parameter,
    /// The node is fed from outside.
    Input,
    /// The node is read from outside.
    Output,
}

/// A named tensor slot.
#[derive(Debug)]
pub struct Node {
    pub name: String,
    pub shape: NodeShape,
    pub tags: Vec<NodeTag>,
}

/// The record of one pass: its name and the buffers it reads and writes.
#[derive(Debug)]
pub struct PassRecord {
    pub name: String,
    pub reads: Vec<DataID>,
    pub writes: Vec<DataID>,
}

/// How an operation constrains the shapes of its nodes.
#[derive(Clone, Copy, Debug, PartialEq, Eq, Structural, Hash)]
pub enum ShapeRule {
    /// The operation constrains nothing.
    Free,
    /// The output has the shape of the input.
    Elementwise { input: NodeID, output: NodeID },
    /// The output has the shape of `input1`, and `input2` is repeated along
    /// each axis on which its extent is 1.
    Repeat { input1: NodeID, input2: NodeID, output: NodeID },
    /// The input is settled to its least shape and must then hold `channels`
    /// elements, which is also the extent of the output's innermost axis.
    Channels { input: NodeID, output: NodeID, channels: usize },
}

/// A mark on an operation.
#[derive(Clone, Copy, Debug, PartialEq, Eq, Structural, Hash)]
pub enum OpTag {
    /// The operation adds to the loss.
    Loss,
    /// A mark chosen by the caller.
    Label(u64),
}

/// The permanent record of an operation in the graph.
#[derive(Debug)]
pub struct OpInstance {
    pub name: String,
    pub tags: Vec<OpTag>,
    pub inputs: Vec<NodeID>,
    pub outputs: Vec<NodeID>,
    pub passes: Vec<PassID>,
    pub inner_ops: Vec<OpID>,
    pub inner_nodes: Vec<NodeID>,
    pub rule: ShapeRule,
}

/// Whether every handle of a list names one of the first `n` nodes.
pub open spec fn nodes_in_range(ids: Seq<NodeID>, n: nat) -> bool {
    forall|k: int| 0 <= k < ids.len() ==> (#[trigger] ids[k]).index < n
}

/// Whether every buffer of a list belongs to one of the first `n` nodes.
pub open spec fn data_in_range(ids: Seq<DataID>, n: nat) -> bool {
    forall|k: int| 0 <= k < ids.len() ==> (#[trigger] ids[k]).node.index < n
}

/// Whether a rule names only nodes among the first `n`.
pub open spec fn rule_in_range(rule: ShapeRule, n: nat) -> bool {
    match rule {
        ShapeRule::Free => true,
        ShapeRule::Elementwise { input, output } => input.index < n && output.index < n,
        ShapeRule::Repeat { input1, input2, output } => input1.index < n && input2.index < n
            && output.index < n,
        ShapeRule::Channels { input, output, channels } => input.index < n && output.index < n,
    }
}

/// Whether a pass reads and writes only buffers of the first `n` nodes.
pub open spec fn pass_in_range(pass: PassRecord, n: nat) -> bool {
    data_in_range(pass.reads@, n) && data_in_range(pass.writes@, n)
}

/// Whether every pass of a table stays within the first `n` nodes.
pub open spec fn passes_in_range(passes: Seq<PassRecord>, n: nat) -> bool {
    forall|p: int| 0 <= p < passes.len() ==> pass_in_range(#[trigger] passes[p], n)
}

/// Whether an operation names only nodes among the first `n` and passes among
/// the first `m`.
pub open spec fn op_in_range(op: OpInstance, n: nat, m: nat) -> bool {
    &&& nodes_in_range(op.inputs@, n)
    &&& nodes_in_range(op.outputs@, n)
    &&& nodes_in_range(op.inner_nodes@, n)
    &&& rule_in_range(op.rule, n)
    &&& forall|k: int| 0 <= k < op.passes@.len() ==> (#[trigger] op.passes@[k]).index < m
}

/// The graph under construction.
#[derive(Debug)]
pub struct GraphDef {
    nodes: Vec<Node>,
    passes: Vec<PassRecord>,
    ops: Vec<OpInstance>,
}

impl GraphDef {
    /// The node table.
    pub closed spec fn nodes(&self) -> Seq<Node> {
        self.nodes@
    }

    /// The pass table.
    pub closed spec fn passes(&self) -> Seq<PassRecord> {
        self.passes@
    }

    /// The operation table.
    pub closed spec fn ops(&self) -> Seq<OpInstance> {
        self.ops@
    }

    /// Every handle held in the tables names an entry of the tables.
    pub open spec fn wf(&self) -> bool {
        &&& passes_in_range(self.passes(), self.nodes().len())
        &&& forall|o: int|
            0 <= o < self.ops().len() ==> op_in_range(
                #[trigger] self.ops()[o],
                self.nodes().len(),
                self.passes().len(),
            )
    }

    /// Whether `later` holds everything that `self` holds, under the same
    /// handles: the tables only grow.
    pub open spec fn extended_by(&self, later: &GraphDef) -> bool {
        &&& self.nodes().is_prefix_of(later.nodes())
        &&& self.passes().is_prefix_of(later.passes())
        &&& self.ops().is_prefix_of(later.ops())
    }

    /// An empty graph.
    pub fn new() -> (g: GraphDef)
        ensures
            g.nodes().len() == 0,
            g.passes().len() == 0,
            g.ops().len() == 0,
            g.wf(),
    {
        GraphDef { nodes: Vec::new(), passes: Vec::new(), ops: Vec::new() }
    }

    /// The number of nodes.
    pub fn node_count(&self) -> (n: usize)
        ensures
            n == self.nodes().len(),
    {
        self.nodes.len()
    }

    /// The number of passes.
    pub fn pass_count(&self) -> (n: usize)
        ensures
            n == self.passes().len(),
    {
        self.passes.len()
    }

    /// The number of operations.
    pub fn op_count(&self) -> (n: usize)
        ensures
            n == self.ops().len(),
    {
        self.ops.len()
    }

    /// Adds a node and returns its handle; the tables are otherwise unchanged.
    pub fn new_node(&mut self, shape: NodeShape, name: &str, tags: Vec<NodeTag>) -> (id: NodeID)
        ensures
            id.index == old(self).nodes().len(),
            final(self).nodes().len() == old(self).nodes().len() + 1,
            old(self).extended_by(final(self)),
            final(self).nodes()[id.index as int].shape@ == shape@,
            final(self).nodes()[id.index as int].name@ == name@,
            final(self).nodes()[id.index as int].tags@ == tags@,
            final(self).passes() == old(self).passes(),
            final(self).ops() == old(self).ops(),
            old(self).wf() ==> final(self).wf(),
    {
        let index = self.nodes.len();
        self.nodes.push(Node { name: name.to_owned(), shape, tags });
        NodeID { index }
    }

    /// The node behind a handle, if the graph holds it.
    pub fn node(&self, id: &NodeID) -> (r: Option<&Node>)
        ensures
            r is Some <==> id.index < self.nodes().len(),
            r matches Some(n) ==> *n == self.nodes()[id.index as int],
    {
        if id.index < self.nodes.len() {
            Some(&self.nodes[id.index])
        } else {
            None
        }
    }

    /// The pass behind a handle, if the graph holds it.
    pub fn pass(&self, id: &PassID) -> (r: Option<&PassRecord>)
        ensures
            r is Some <==> id.index < self.passes().len(),
            r matches Some(p) ==> *p == self.passes()[id.index as int],
    {
        if id.index < self.passes.len() {
            Some(&self.passes[id.index])
        } else {
            None
        }
    }

    /// The operation behind a handle, if the graph holds it.
    pub fn op(&self, id: &OpID) -> (r: Option<&OpInstance>)
        ensures
            r is Some <==> id.index < self.ops().len(),
            r matches Some(o) ==> *o == self.ops()[id.index as int],
    {
        if id.index < self.ops.len() {
            Some(&self.ops[id.index])
        } else {
            None
        }
    }

    /// The pass table, indexed by the passes' handles.
    pub fn pass_table(&self) -> (t: &Vec<PassRecord>)
        ensures
            t@ == self.passes(),
    {
        &self.passes
    }

    /// The node table, indexed by the nodes' handles.
    pub fn node_table(&self) -> (t: &Vec<Node>)
        ensures
            t@ == self.nodes(),
    {
        &self.nodes
    }

    /// The operation table, indexed by the operations' handles.
    pub fn op_table(&self) -> (t: &Vec<OpInstance>)
        ensures
            t@ == self.ops(),
    {
        &self.ops
    }

    /// The handles of all nodes, in the order in which they were added.
    pub fn get_nodes(&self) -> (ids: Vec<NodeID>)
        ensures
            ids@.len() == self.nodes().len(),
            forall|k: int| 0 <= k < ids@.len() ==> (#[trigger] ids@[k]).index == k,
    {
        let mut ids: Vec<NodeID> = Vec::new();
        let mut i: usize = 0;
        while i < self.nodes.len()
            invariant
                i <= self.nodes.len(),
                ids@.len() == i,
                forall|k: int| 0 <= k < i ==> (#[trigger] ids@[k]).index == k,
            decreases self.nodes.len() - i,
        {
            ids.push(NodeID { index: i });
            i += 1;
        }
        ids
    }
}

/// Whether `node` is the node of the first buffer of the list that lies
/// outside the first `n` nodes.
pub open spec fn is_first_foreign(ids: Seq<DataID>, n: nat, node: NodeID) -> bool {
    exists|k: int|
        {
            &&& 0 <= k < ids.len()
            &&& #[trigger] ids[k].node == node
            &&& node.index >= n
            &&& data_in_range(ids.take(k), n)
        }
}

/// The node of the first buffer of a list that lies outside the first `n`
/// nodes, if there is one.
pub fn first_foreign(ids: &Vec<DataID>, n: usize) -> (r: Option<NodeID>)
    ensures
        r is None <==> data_in_range(ids@, n as nat),
        r matches Some(node) ==> is_first_foreign(ids@, n as nat, node),
{
    let mut i: usize = 0;
    while i < ids.len()
        invariant
            i <= ids.len(),
            data_in_range(ids@.take(i as int), n as nat),
        decreases ids.len() - i,
    {
        if ids[i].node.index >= n {
            return Some(ids[i].node);
        }
        assert forall|k: int| 0 <= k < i + 1 implies (#[trigger] ids@.take(i + 1)[k]).node.index
            < n by {
            if k < i {
                assert(ids@.take(i as int)[k] == ids@[k]);
            }
        }
        i += 1;
    }
    assert(ids@.take(ids.len() as int) =~= ids@);
    None
}

/// What a pass is to be registered as: its name and the buffers that it
/// reads and writes.
pub struct PassPlan {
    pub name: Seq<char>,
    pub reads: Seq<DataID>,
    pub writes: Seq<DataID>,
}

/// What an operation is to register with a graph: its name, its passes in
/// their order, the nodes it reads and writes, the operations and nodes that
/// it is made of, and its rule.
pub struct OpPlan {
    pub name: Seq<char>,
    pub passes: Seq<PassPlan>,
    pub inputs: Seq<NodeID>,
    pub outputs: Seq<NodeID>,
    pub inner_ops: Seq<OpID>,
    pub inner_nodes: Seq<NodeID>,
    pub rule: ShapeRule,
}

/// Whether `inst` is the record of an operation that registered what `plan`
/// says: the passes of the plan are the last of the pass table, in the order
/// of the plan, and the record names them, the plan's nodes, the operations
/// and nodes that the operation is made of, and its rule.
pub open spec fn registered(
    before: Seq<PassRecord>,
    after: Seq<PassRecord>,
    inst: OpInstance,
    plan: OpPlan,
) -> bool {
    &&& after.len() == before.len() + plan.passes.len()
    &&& inst.passes@.len() == plan.passes.len()
    &&& forall|k: int|
        0 <= k < plan.passes.len() ==> {
            &&& (#[trigger] inst.passes@[k]).index == before.len() + k
            &&& after[before.len() + k].name@ == plan.passes[k].name
            &&& after[before.len() + k].reads@ == plan.passes[k].reads
            &&& after[before.len() + k].writes@ == plan.passes[k].writes
        }
    &&& inst.name@ == plan.name
    &&& inst.inputs@ == plan.inputs
    &&& inst.outputs@ == plan.outputs
    &&& inst.inner_ops@ == plan.inner_ops
    &&& inst.inner_nodes@ == plan.inner_nodes
    &&& inst.rule == plan.rule
}

/// An operation as its user states it, before it is made part of a graph.
pub trait Op: Sized {
    /// Whether the graph can take the operation.
    spec fn accepted_by(&self, graph: &GraphDef) -> bool;

    /// What the operation registers with a graph that can take it.
    spec fn plan(&self, graph: &GraphDef) -> OpPlan;

    /// The name of the kind of operation.
    spec fn kind(&self) -> Seq<char>;

    /// The name of the kind of operation.
    fn kind_name(&self) -> (r: &'static str)
        ensures
            r@ == self.kind(),
    ;

    /// Registers the operation's passes with the graph and returns its record.
    /// `op_id` is the handle that the operation will have in the graph. The
    /// tables only grow, and not at all where the operation is refused.
    fn build(self, graph: &mut GraphDef, op_id: &OpID) -> (r: Result<OpInstance, Error>)
        ensures
            old(graph).extended_by(final(graph)),
            final(graph).nodes() == old(graph).nodes(),
            final(graph).ops() == old(graph).ops(),
            old(graph).wf() ==> final(graph).wf(),
            r is Ok <==> self.accepted_by(old(graph)),
            r is Err ==> final(graph).passes() == old(graph).passes(),
            r matches Ok(inst) ==> {
                &&& op_in_range(inst, final(graph).nodes().len(), final(graph).passes().len())
                &&& registered(
                    old(graph).passes(),
                    final(graph).passes(),
                    inst,
                    self.plan(old(graph)),
                )
            },
    ;
}

impl GraphDef {
    /// Adds a pass and returns its handle. A pass that names a buffer of a
    /// node that the graph does not hold is refused, and the graph is left
    /// as it was: the error names the first such node, the buffers read
    /// before the buffers written.
    pub fn add_pass(&mut self, pass: PassRecord) -> (r: Result<PassID, Error>)
        ensures
            r is Ok <==> pass_in_range(pass, old(self).nodes().len()),
            r matches Ok(id) ==> {
                &&& id.index == old(self).passes().len()
                &&& final(self).passes() == old(self).passes().push(pass)
            },
            r matches Err(e) ==> {
                &&& final(self).passes() == old(self).passes()
                &&& e matches Error::UnknownNode { node }
                &&& if data_in_range(pass.reads@, old(self).nodes().len()) {
                    is_first_foreign(pass.writes@, old(self).nodes().len(), node)
                } else {
                    is_first_foreign(pass.reads@, old(self).nodes().len(), node)
                }
            },
            final(self).nodes() == old(self).nodes(),
            final(self).ops() == old(self).ops(),
            old(self).extended_by(final(self)),
            old(self).wf() ==> final(self).wf(),
    {
        match first_foreign(&pass.reads, self.nodes.len()) {
            Some(node) => {
                return Err(Error::UnknownNode { node });
            },
            None => {},
        }
        match first_foreign(&pass.writes, self.nodes.len()) {
            Some(node) => {
                return Err(Error::UnknownNode { node });
            },
            None => {},
        }
        let index = self.passes.len();
        self.passes.push(pass);
        proof {
            if old(self).wf() {
                assert forall|o: int| 0 <= o < self.ops().len() implies op_in_range(
                    #[trigger] self.ops()[o],
                    self.nodes().len(),
                    self.passes().len(),
                ) by {
                    assert(op_in_range(
                        old(self).ops()[o],
                        old(self).nodes().len(),
                        old(self).passes().len(),
                    ));
                }
            }
        }
        Ok(PassID { index })
    }

    /// Builds an operation into the graph and returns its handle: the passes
    /// of the operation are added to the pass table, and its record, with the
    /// given tags, to the operation table. Where the graph cannot take the
    /// operation it is left as it was.
    pub fn new_op<O: Op>(&mut self, op: O, tags: Vec<OpTag>) -> (r: Result<OpID, Error>)
        ensures
            old(self).extended_by(final(self)),
            final(self).nodes() == old(self).nodes(),
            old(self).wf() ==> final(self).wf(),
            r is Ok <==> op.accepted_by(old(self)),
            r matches Ok(id) ==> {
                &&& id.index == old(self).ops().len()
                &&& final(self).ops().len() == old(self).ops().len() + 1
                &&& final(self).ops()[id.index as int].tags@ == tags@
                &&& registered(
                    old(self).passes(),
                    final(self).passes(),
                    final(self).ops()[id.index as int],
                    op.plan(old(self)),
                )
            },
            r is Err ==> {
                &&& final(self).passes() == old(self).passes()
                &&& final(self).ops() == old(self).ops()
            },
    {
        let id = OpID { index: self.ops.len() };
        match op.build(self, &id) {
            Ok(inst) => {
                let mut inst = inst;
                inst.tags = tags;
                let index = self.ops.len();
                self.ops.push(inst);
                Ok(OpID { index })
            },
            Err(e) => Err(e),
        }
    }
}

} // verus!
