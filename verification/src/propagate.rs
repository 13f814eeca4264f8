//! Resolving the shapes of a graph: the rules of its operations are applied
//! until nothing changes.

use crate::error::Error;
use crate::graph::{rule_in_range, GraphDef, Node, OpInstance, ShapeRule};
use crate::id::{NodeID, OpID};
use crate::shape::{
    extents_product, is_merge_fault, is_unconstrained_fault, is_unresolved_fault,
    lemma_dim_merge_is_intersection, loosened, shape_collapse, shape_extents,
    shape_is_constrained, shape_is_known, shape_merge, shape_wf, NodeDim, NodeShape, ShapeFault,
};
use vstd::prelude::*;

verus! {

/// What applying a rule to a table of shapes gives: the new table, or the node
/// whose shape stands in the way.
pub open spec fn rule_outcome(rule: ShapeRule, shapes: Seq<Seq<NodeDim>>) -> Result<
    Seq<Seq<NodeDim>>,
    NodeID,
> {
    match rule {
        ShapeRule::Free => Ok(shapes),
        ShapeRule::Elementwise { input, output } => {
            match shape_merge(shapes[output.index as int], shapes[input.index as int]) {
                Some(m) => Ok(shapes.update(output.index as int, m)),
                None => Err(output),
            }
        },
        ShapeRule::Repeat { input1, input2, output } => {
            if !shape_is_known(shapes[input2.index as int]) {
                Err(input2)
            } else {
                match shape_merge(
                    loosened(shapes[input2.index as int]),
                    shapes[input1.index as int],
                ) {
                    None => Err(input1),
                    Some(m) => match shape_merge(shapes[output.index as int], m) {
                        Some(r) => Ok(shapes.update(output.index as int, r)),
                        None => Err(output),
                    },
                }
            }
        },
        ShapeRule::Channels { input, output, channels } => {
            let given = shapes[input.index as int];
            if !shape_is_constrained(given) {
                Err(input)
            } else if extents_product(shape_extents(given)) != channels {
                Err(input)
            } else {
                let settled = shapes.update(input.index as int, shape_collapse(given));
                let out = settled[output.index as int];
                if out.len() == 0 {
                    Err(output)
                } else {
                    match out.last().merge_spec(NodeDim::Known(channels)) {
                        Some(d) => Ok(
                            settled.update(output.index as int, out.update(out.len() - 1, d)),
                        ),
                        None => Err(output),
                    }
                }
            }
        },
    }
}

/// The shapes of the nodes of a graph while they are being resolved.
#[derive(Debug)]
pub struct GraphShapes {
    shapes: Vec<NodeShape>,
}

impl View for GraphShapes {
    type V = Seq<Seq<NodeDim>>;

    closed spec fn view(&self) -> Seq<Seq<NodeDim>> {
        Seq::new(self.shapes@.len(), |i: int| self.shapes@[i]@)
    }
}

impl GraphShapes {
    /// The shapes that the nodes of a graph were given.
    pub fn new(graph: &GraphDef) -> (r: GraphShapes)
        ensures
            r@.len() == graph.nodes().len(),
            forall|i: int| 0 <= i < r@.len() ==> #[trigger] r@[i] == graph.nodes()[i].shape@,
    {
        let nodes = graph.node_table();
        let mut shapes: Vec<NodeShape> = Vec::new();
        let mut i: usize = 0;
        while i < nodes.len()
            invariant
                i <= nodes.len(),
                shapes@.len() == i,
                forall|k: int| 0 <= k < i ==> (#[trigger] shapes@[k])@ == nodes@[k].shape@,
            decreases nodes.len() - i,
        {
            shapes.push(nodes[i].shape.clone());
            i += 1;
        }
        GraphShapes { shapes }
    }

    /// The number of nodes.
    pub fn len(&self) -> (n: usize)
        ensures
            n == self@.len(),
    {
        self.shapes.len()
    }

    /// The shape of a node, if the table holds it.
    pub fn get_shape(&self, node: &NodeID) -> (r: Option<&NodeShape>)
        ensures
            r is Some <==> node.index < self@.len(),
            r matches Some(s) ==> s@ == self@[node.index as int],
    {
        if node.index < self.shapes.len() {
            Some(&self.shapes[node.index])
        } else {
            None
        }
    }

    /// Replaces the shape of a node.
    pub fn set_shape(&mut self, node: &NodeID, shape: NodeShape)
        requires
            node.index < old(self)@.len(),
        ensures
            final(self)@ == old(self)@.update(node.index as int, shape@),
    {
        self.shapes.set(node.index, shape);
        assert(self@ =~= old(self)@.update(node.index as int, shape@));
    }

    /// Merges a shape into the shape of a node. Returns whether the node's
    /// shape changed; a conflict leaves the table as it was.
    pub fn merge_with(&mut self, node: &NodeID, shape: &NodeShape) -> (r: Result<
        bool,
        ShapeFault,
    >)
        requires
            node.index < old(self)@.len(),
        ensures
            r is Ok <==> shape_merge(old(self)@[node.index as int], shape@) is Some,
            r matches Ok(changed) ==> {
                &&& final(self)@ == old(self)@.update(
                    node.index as int,
                    shape_merge(old(self)@[node.index as int], shape@)->0,
                )
                &&& changed == (final(self)@ != old(self)@)
            },
            r matches Err(e) ==> {
                &&& final(self)@ == old(self)@
                &&& is_merge_fault(old(self)@[node.index as int], shape@, e)
            },
    {
        let merged = self.shapes[node.index].merge(shape);
        match merged {
            Ok(m) => {
                let changed = !m.same_as(&self.shapes[node.index]);
                let ghost before = self@;
                self.set_shape(node, m);
                proof {
                    if !changed {
                        assert(self@ =~= before);
                    } else {
                        assert(self@[node.index as int] != before[node.index as int]);
                    }
                }
                Ok(changed)
            },
            Err(e) => Err(e),
        }
    }
}

/// Whether `fault` is why a rule does not apply to a table of shapes.
///
/// For the rule of an elementwise operation it is the fault of merging the
/// input into the output. For a rule of repetition it is the first axis of
/// `input2` that is not fixed; else the fault of merging `input2`, with its
/// extents of 1 left open, with `input1`; else the fault of merging the result
/// into the output. For a rule of channels it is the first axis of the input
/// without a constraint; else that the input holds too many elements to
/// count, or not as many as there are channels; else that the output has no
/// axis, or that its innermost axis does not admit the number of channels.
pub open spec fn is_rule_fault(rule: ShapeRule, shapes: Seq<Seq<NodeDim>>, fault: ShapeFault) -> bool {
    match rule {
        ShapeRule::Free => false,
        ShapeRule::Elementwise { input, output } => is_merge_fault(
            shapes[output.index as int],
            shapes[input.index as int],
            fault,
        ),
        ShapeRule::Repeat { input1, input2, output } => {
            let second = shapes[input2.index as int];
            if !shape_is_known(second) {
                is_unresolved_fault(second, fault)
            } else {
                match shape_merge(loosened(second), shapes[input1.index as int]) {
                    None => is_merge_fault(loosened(second), shapes[input1.index as int], fault),
                    Some(m) => is_merge_fault(shapes[output.index as int], m, fault),
                }
            }
        },
        ShapeRule::Channels { input, output, channels } => {
            let given = shapes[input.index as int];
            let size = extents_product(shape_extents(given));
            if !shape_is_constrained(given) {
                is_unconstrained_fault(given, fault)
            } else if size > usize::MAX {
                fault == ShapeFault::TooLarge
            } else if size != channels {
                fault == (ShapeFault::SizeMismatch { expected: channels, found: size as usize })
            } else {
                let settled = shapes.update(input.index as int, shape_collapse(given));
                let out = settled[output.index as int];
                if out.len() == 0 {
                    fault == (ShapeFault::RankMismatch { left: 0, right: 1 })
                } else {
                    fault == (ShapeFault::Incompatible { axis: (out.len() - 1) as usize })
                }
            }
        },
    }
}

/// Whether `e` is the conflict that a rule, applied on behalf of operation
/// `op`, meets on a table of shapes: it names the node whose shape stands in
/// the way, the operation, and the fault.
pub open spec fn is_rule_conflict(
    e: Error,
    rule: ShapeRule,
    shapes: Seq<Seq<NodeDim>>,
    op: Option<OpID>,
) -> bool {
    &&& e matches Error::ShapeConflict { node, op: o, fault }
    &&& rule_outcome(rule, shapes) == Err::<Seq<Seq<NodeDim>>, NodeID>(node)
    &&& o == op
    &&& is_rule_fault(rule, shapes, fault)
}

/// The fault of a rule that does not apply is never `Unsettled`.
pub proof fn lemma_rule_fault_is_not_unsettled(
    rule: ShapeRule,
    shapes: Seq<Seq<NodeDim>>,
    fault: ShapeFault,
)
    requires
        is_rule_fault(rule, shapes, fault),
    ensures
        !(fault is Unsettled),
{
}

/// A conflict met among the first rules of a sweep is the outcome of the
/// whole sweep.
pub proof fn lemma_sweep_keeps_conflict(
    rules: Seq<ShapeRule>,
    shapes: Seq<Seq<NodeDim>>,
    upto: int,
    end: int,
)
    requires
        0 <= upto <= end,
        sweep_outcome(rules, shapes, upto) is Err,
    ensures
        sweep_outcome(rules, shapes, end) == sweep_outcome(rules, shapes, upto),
    decreases end - upto,
{
    if upto < end {
        lemma_sweep_keeps_conflict(rules, shapes, upto, end - 1);
    }
}

/// Applies a rule to the table of shapes, on behalf of operation `op`.
/// Returns whether a shape changed. A conflict leaves the table as it was
/// and names the node whose shape stands in the way.
pub fn apply_rule(rule: &ShapeRule, op: Option<OpID>, shapes: &mut GraphShapes) -> (r: Result<
    bool,
    Error,
>)
    requires
        rule_in_range(*rule, old(shapes)@.len()),
    ensures
        final(shapes)@.len() == old(shapes)@.len(),
        r matches Ok(changed) ==> {
            &&& rule_outcome(*rule, old(shapes)@) == Ok::<Seq<Seq<NodeDim>>, NodeID>(
                final(shapes)@,
            )
            &&& changed == (final(shapes)@ != old(shapes)@)
        },
        r matches Err(e) ==> {
            &&& final(shapes)@ == old(shapes)@
            &&& is_rule_conflict(e, *rule, old(shapes)@, op)
        },
{
    match *rule {
        ShapeRule::Free => Ok(false),
        ShapeRule::Elementwise { input, output } => {
            let source = shapes.shapes[input.index].clone();
            match shapes.merge_with(&output, &source) {
                Ok(changed) => Ok(changed),
                Err(fault) => Err(Error::ShapeConflict { node: output, op, fault }),
            }
        },
        ShapeRule::Repeat { input1, input2, output } => {
            match shapes.shapes[input2.index].to_data_shape() {
                Err(fault) => {
                    return Err(Error::ShapeConflict { node: input2, op, fault });
                },
                Ok(_) => {},
            }
            let loose = shapes.shapes[input2.index].loosen();
            match loose.merge(&shapes.shapes[input1.index]) {
                Err(fault) => Err(Error::ShapeConflict { node: input1, op, fault }),
                Ok(m) => match shapes.merge_with(&output, &m) {
                    Ok(changed) => Ok(changed),
                    Err(fault) => Err(Error::ShapeConflict { node: output, op, fault }),
                },
            }
        },
        ShapeRule::Channels { input, output, channels } => {
            let ghost before = shapes@;
            let old_in = shapes.shapes[input.index].clone();
            let old_out = shapes.shapes[output.index].clone();
            let mut given = shapes.shapes[input.index].clone();
            match given.collapse_ranges_to_minimum() {
                Err(fault) => {
                    return Err(Error::ShapeConflict { node: input, op, fault });
                },
                Ok(()) => {},
            }
            proof {
                assert(shape_extents(given@) =~= shape_extents(old_in@));
            }
            match given.flat_size() {
                Err(fault) => {
                    return Err(Error::ShapeConflict { node: input, op, fault });
                },
                Ok(size) => {
                    if size != channels {
                        return Err(
                            Error::ShapeConflict {
                                node: input,
                                op,
                                fault: ShapeFault::SizeMismatch { expected: channels, found: size },
                            },
                        );
                    }
                },
            }
            let out = if output.index == input.index {
                given.clone()
            } else {
                shapes.shapes[output.index].clone()
            };
            let ghost settled = before.update(input.index as int, shape_collapse(before[input.index as int]));
            assert(out@ == settled[output.index as int]);
            if out.ndim() == 0 {
                return Err(
                    Error::ShapeConflict {
                        node: output,
                        op,
                        fault: ShapeFault::RankMismatch { left: 0, right: 1 },
                    },
                );
            }
            let last = out.ndim() - 1;
            match out.dim(last).merge(&NodeDim::Known(channels)) {
                None => Err(
                    Error::ShapeConflict {
                        node: output,
                        op,
                        fault: ShapeFault::Incompatible { axis: last },
                    },
                ),
                Some(d) => {
                    let new_out = out.with_dim(last, d);
                    shapes.set_shape(&input, given);
                    shapes.set_shape(&output, new_out);
                    assert(shapes.shapes@.len() == shapes@.len());
                    let changed = !shapes.shapes[input.index].same_as(&old_in)
                        || !shapes.shapes[output.index].same_as(&old_out);
                    proof {
                        let after = shapes@;
                        assert(after == settled.update(
                            output.index as int,
                            out@.update(out@.len() - 1, d),
                        ));
                        if !changed {
                            assert(after =~= before);
                        }
                    }
                    Ok(changed)
                },
            }
        },
    }
}

/// The rules of a table of operations, in the order of the table.
pub open spec fn rules_of(ops: Seq<OpInstance>) -> Seq<ShapeRule> {
    Seq::new(ops.len(), |o: int| ops[o].rule)
}

/// What applying the first `upto` rules in turn gives: the new table, or the
/// position of the first rule that met a conflict, with the node it names.
pub open spec fn sweep_outcome(rules: Seq<ShapeRule>, shapes: Seq<Seq<NodeDim>>, upto: int) -> Result<
    Seq<Seq<NodeDim>>,
    (int, NodeID),
>
    decreases upto,
{
    if upto <= 0 {
        Ok(shapes)
    } else {
        match sweep_outcome(rules, shapes, upto - 1) {
            Err(e) => Err(e),
            Ok(s) => match rule_outcome(rules[upto - 1], s) {
                Ok(t) => Ok(t),
                Err(node) => Err((upto - 1, node)),
            },
        }
    }
}

/// What `k` sweeps over all rules give.
pub open spec fn sweeps_outcome(rules: Seq<ShapeRule>, shapes: Seq<Seq<NodeDim>>, k: nat) -> Result<
    Seq<Seq<NodeDim>>,
    (int, NodeID),
>
    decreases k,
{
    if k == 0 {
        Ok(shapes)
    } else {
        match sweeps_outcome(rules, shapes, (k - 1) as nat) {
            Err(e) => Err(e),
            Ok(s) => sweep_outcome(rules, s, rules.len() as int),
        }
    }
}

/// Whether no rule changes the table.
pub open spec fn is_fixed_point(rules: Seq<ShapeRule>, shapes: Seq<Seq<NodeDim>>) -> bool {
    forall|o: int|
        0 <= o < rules.len() ==> #[trigger] rule_outcome(rules[o], shapes) == Ok::<
            Seq<Seq<NodeDim>>,
            NodeID,
        >(shapes)
}

/// The shapes that the nodes of a graph were given.
pub open spec fn given_shapes(nodes: Seq<Node>) -> Seq<Seq<NodeDim>> {
    Seq::new(nodes.len(), |i: int| nodes[i].shape@)
}

/// The node whose shape a rule settles, if it settles one.
pub open spec fn target_of(rule: ShapeRule) -> Option<NodeID> {
    match rule {
        ShapeRule::Free => None,
        ShapeRule::Elementwise { input, output } => Some(output),
        ShapeRule::Repeat { input1, input2, output } => Some(output),
        ShapeRule::Channels { input, output, channels } => Some(output),
    }
}

/// Whether `e` is the conflict that ends a sweep over the shapes `s`: some
/// rule is the first that does not apply, and `e` is the conflict that it
/// meets, on behalf of the operation at its place in the table, on the
/// shapes that the rules before it have left.
pub open spec fn is_sweep_conflict(e: Error, rules: Seq<ShapeRule>, s: Seq<Seq<NodeDim>>) -> bool {
    exists|o: int|
        {
            &&& 0 <= o < rules.len()
            &&& #[trigger] sweep_outcome(rules, s, o) is Ok
            &&& is_rule_conflict(
                e,
                rules[o],
                sweep_outcome(rules, s, o)->Ok_0,
                Some(OpID { index: o as usize }),
            )
        }
}

/// Whether rule `q` changes a shape in a sweep that starts from `s`.
pub open spec fn changes_at(rules: Seq<ShapeRule>, s: Seq<Seq<NodeDim>>, q: int) -> bool {
    sweep_outcome(rules, s, q + 1) != sweep_outcome(rules, s, q)
}

/// Whether `op` is the last operation whose rule changes a shape in a sweep
/// that starts from `s`, and `node` the node that its rule settles.
pub open spec fn is_last_change(
    rules: Seq<ShapeRule>,
    s: Seq<Seq<NodeDim>>,
    op: Option<OpID>,
    node: NodeID,
) -> bool {
    exists|o: int|
        {
            &&& 0 <= o < rules.len()
            &&& #[trigger] changes_at(rules, s, o)
            &&& op == Some(OpID { index: o as usize })
            &&& target_of(rules[o]) == Some(node)
            &&& forall|q: int| o < q < rules.len() ==> !changes_at(rules, s, q)
        }
}

/// The node whose shape a rule settles, if it settles one.
pub fn rule_target(rule: &ShapeRule) -> (r: Option<NodeID>)
    ensures
        r == target_of(*rule),
{
    match *rule {
        ShapeRule::Free => None,
        ShapeRule::Elementwise { input, output } => Some(output),
        ShapeRule::Repeat { input1, input2, output } => Some(output),
        ShapeRule::Channels { input, output, channels } => Some(output),
    }
}

/// A sweep over shapes that no rule changes meets no conflict and changes
/// nothing.
pub proof fn lemma_fixed_point_sweep(rules: Seq<ShapeRule>, shapes: Seq<Seq<NodeDim>>, upto: int)
    requires
        is_fixed_point(rules, shapes),
        0 <= upto <= rules.len(),
    ensures
        sweep_outcome(rules, shapes, upto) == Ok::<Seq<Seq<NodeDim>>, (int, NodeID)>(shapes),
    decreases upto,
{
    if upto > 0 {
        lemma_fixed_point_sweep(rules, shapes, upto - 1);
        assert(rule_outcome(rules[upto - 1], shapes) == Ok::<Seq<Seq<NodeDim>>, NodeID>(shapes));
    }
}

/// Once the sweeps have met a conflict, or reached shapes that no rule
/// changes, further sweeps give the same: the outcome does not depend on how
/// many sweeps are allowed beyond those needed.
pub proof fn lemma_sweeps_settle(
    rules: Seq<ShapeRule>,
    shapes: Seq<Seq<NodeDim>>,
    k: nat,
    later: nat,
)
    requires
        k <= later,
        sweeps_outcome(rules, shapes, k) matches Ok(s) ==> is_fixed_point(rules, s),
    ensures
        sweeps_outcome(rules, shapes, later) == sweeps_outcome(rules, shapes, k),
    decreases later - k,
{
    if k < later {
        lemma_sweeps_settle(rules, shapes, k, (later - 1) as nat);
        match sweeps_outcome(rules, shapes, k) {
            Ok(s) => {
                lemma_fixed_point_sweep(rules, s, rules.len() as int);
            },
            Err(_) => {},
        }
    }
}

/// Whether some number of sweeps below `max_sweeps` reaches shapes that no
/// rule changes.
pub open spec fn resolves_within(
    rules: Seq<ShapeRule>,
    shapes: Seq<Seq<NodeDim>>,
    max_sweeps: nat,
) -> bool {
    exists|k: nat|
        k < max_sweeps && (#[trigger] sweeps_outcome(rules, shapes, k) matches Ok(s)
            && is_fixed_point(rules, s))
}

impl GraphDef {
    /// Resolves the shapes of the nodes: sweeps over the operations, applying
    /// the rule of each in turn, until a sweep changes nothing, and returns
    /// the shapes then reached, on which no rule has any effect.
    ///
    /// A rule that meets a conflict ends the resolution with `ShapeConflict`,
    /// naming its operation, the node whose shape stands in the way, and the
    /// fault. Where each of `max_sweeps` sweeps still changed a shape, the
    /// error is a `ShapeConflict` with the fault `Unsettled`, naming the
    /// operation that changed a shape last in the last sweep and the node
    /// that its rule settles; where no sweep is allowed at all, it names no
    /// operation, and the node with index 0.
    pub fn resolve_shapes(&self, max_sweeps: usize) -> (r: Result<GraphShapes, Error>)
        requires
            self.wf(),
        ensures
            r is Ok <==> resolves_within(
                rules_of(self.ops()),
                given_shapes(self.nodes()),
                max_sweeps as nat,
            ),
            r matches Ok(shapes) ==> {
                &&& is_fixed_point(rules_of(self.ops()), shapes@)
                &&& exists|k: nat|
                    k < max_sweeps && sweeps_outcome(
                        rules_of(self.ops()),
                        given_shapes(self.nodes()),
                        k,
                    ) == Ok::<Seq<Seq<NodeDim>>, (int, NodeID)>(shapes@)
            },
            r matches Err(e) ==> {
                &&& e matches Error::ShapeConflict { node, op, fault }
                &&& if fault is Unsettled {
                    &&& forall|k: nat|
                        k < max_sweeps ==> (#[trigger] sweeps_outcome(
                            rules_of(self.ops()),
                            given_shapes(self.nodes()),
                            k,
                        ) matches Ok(s) && !is_fixed_point(rules_of(self.ops()), s))
                    &&& if max_sweeps == 0 {
                        op is None && node == (NodeID { index: 0 })
                    } else {
                        sweeps_outcome(
                            rules_of(self.ops()),
                            given_shapes(self.nodes()),
                            (max_sweeps - 1) as nat,
                        ) matches Ok(s) && is_last_change(rules_of(self.ops()), s, op, node)
                    }
                } else {
                    &&& exists|k: nat|
                        k < max_sweeps && (#[trigger] sweeps_outcome(
                            rules_of(self.ops()),
                            given_shapes(self.nodes()),
                            k + 1,
                        ) matches Err(at) && op matches Some(id) && id.index == at.0 && node
                            == at.1)
                    &&& exists|k: nat|
                        k < max_sweeps && (#[trigger] sweeps_outcome(
                            rules_of(self.ops()),
                            given_shapes(self.nodes()),
                            k,
                        ) matches Ok(s) && is_sweep_conflict(e, rules_of(self.ops()), s))
                }
            },
    {
        let ops = self.op_table();
        let ghost rules = rules_of(self.ops());
        let ghost init = given_shapes(self.nodes());
        let mut shapes = GraphShapes::new(self);
        let mut last: Option<(OpID, NodeID)> = None;
        let mut round: usize = 0;
        assert(shapes@ =~= init);
        while round < max_sweeps
            invariant
                round <= max_sweeps,
                self.wf(),
                ops@ == self.ops(),
                rules == rules_of(self.ops()),
                init == given_shapes(self.nodes()),
                shapes@.len() == self.nodes().len(),
                sweeps_outcome(rules, init, round as nat) == Ok::<Seq<Seq<NodeDim>>, (int, NodeID)>(
                    shapes@,
                ),
                forall|k: nat|
                    k < round ==> (#[trigger] sweeps_outcome(rules, init, k) matches Ok(s)
                        && !is_fixed_point(rules, s)),
                round == 0 ==> last is None,
                round > 0 ==> (sweeps_outcome(rules, init, (round - 1) as nat) matches Ok(s)
                    && last matches Some(pair) && is_last_change(rules, s, Some(pair.0), pair.1)),
            decreases max_sweeps - round,
        {
            let ghost start = shapes@;
            let ghost mut last_at: int = 0;
            let mut changed_any = false;
            let mut o: usize = 0;
            while o < ops.len()
                invariant
                    o <= ops.len(),
                    self.wf(),
                    ops@ == self.ops(),
                    rules == rules_of(self.ops()),
                    shapes@.len() == self.nodes().len(),
                    init == given_shapes(self.nodes()),
                    round < max_sweeps,
                    forall|k: nat|
                        k < round ==> (#[trigger] sweeps_outcome(rules, init, k) matches Ok(s)
                            && !is_fixed_point(rules, s)),
                    sweeps_outcome(rules, init, round as nat) == Ok::<
                        Seq<Seq<NodeDim>>,
                        (int, NodeID),
                    >(start),
                    sweep_outcome(rules, start, o as int) == Ok::<Seq<Seq<NodeDim>>, (int, NodeID)>(
                        shapes@,
                    ),
                    changed_any ==> !is_fixed_point(rules, start),
                    changed_any ==> {
                        &&& 0 <= last_at < o
                        &&& last matches Some(pair)
                        &&& pair.0 == (OpID { index: last_at as usize })
                        &&& target_of(rules[last_at]) == Some(pair.1)
                        &&& changes_at(rules, start, last_at)
                        &&& forall|q: int| last_at < q < o ==> !changes_at(rules, start, q)
                    },
                    !changed_any ==> shapes@ == start,
                    !changed_any ==> forall|q: int|
                        0 <= q < o ==> #[trigger] rule_outcome(rules[q], start) == Ok::<
                            Seq<Seq<NodeDim>>,
                            NodeID,
                        >(start),
                decreases ops.len() - o,
            {
                let id = OpID { index: o };
                assert(crate::graph::op_in_range(
                    self.ops()[o as int],
                    self.nodes().len(),
                    self.passes().len(),
                ));
                assert(rules[o as int] == ops@[o as int].rule);
                let ghost before = shapes@;
                match apply_rule(&ops[o].rule, Some(id), &mut shapes) {
                    Ok(changed) => {
                        proof {
                            assert(sweep_outcome(rules, start, o + 1) == Ok::<
                                Seq<Seq<NodeDim>>,
                                (int, NodeID),
                            >(shapes@));
                            assert(changed == changes_at(rules, start, o as int));
                        }
                        if changed {
                            changed_any = true;
                            match rule_target(&ops[o].rule) {
                                Some(node) => {
                                    last = Some((id, node));
                                },
                                None => {
                                    assert(false);
                                },
                            }
                            proof {
                                last_at = o as int;
                            }
                        }
                    },
                    Err(e) => {
                        proof {
                            assert(sweep_outcome(rules, start, o + 1) is Err);
                            lemma_sweep_keeps_conflict(rules, start, o + 1, rules.len() as int);
                            let k: nat = round as nat;
                            assert(sweeps_outcome(rules, init, k + 1) == sweep_outcome(
                                rules,
                                start,
                                o + 1,
                            ));
                            let at = sweeps_outcome(rules, init, k + 1)->Err_0;
                            assert(at.0 == o);
                            assert(sweep_outcome(rules, start, o as int) is Ok);
                            assert(is_rule_conflict(
                                e,
                                rules[o as int],
                                sweep_outcome(rules, start, o as int)->Ok_0,
                                Some(OpID { index: o as usize }),
                            ));
                            assert(is_sweep_conflict(e, rules, start));
                            assert(sweeps_outcome(rules, init, k) matches Ok(s)
                                && is_sweep_conflict(e, rules, s));
                            if is_fixed_point(rules, start) {
                                lemma_fixed_point_sweep(rules, start, o + 1);
                            }
                            assert forall|j: nat| j < max_sweeps implies !(#[trigger] sweeps_outcome(
                                rules,
                                init,
                                j,
                            ) matches Ok(s) && is_fixed_point(rules, s)) by {
                                if j > k {
                                    lemma_sweeps_settle(rules, init, k + 1, j);
                                }
                            }
                        }
                        return Err(e);
                    },
                }
                o += 1;
            }
            if !changed_any {
                assert(resolves_within(rules, init, max_sweeps as nat));
                return Ok(shapes);
            }
            proof {
                let pair = last->0;
                assert(is_last_change(rules, start, Some(pair.0), pair.1)) by {
                    assert(changes_at(rules, start, last_at));
                }
                assert(sweeps_outcome(rules, init, (round + 1) as nat) == sweep_outcome(
                    rules,
                    start,
                    rules.len() as int,
                ));
            }
            round += 1;
        }
        match last {
            Some((op, node)) => Err(
                Error::ShapeConflict { node, op: Some(op), fault: ShapeFault::Unsettled },
            ),
            None => Err(
                Error::ShapeConflict {
                    node: NodeID { index: 0 },
                    op: None,
                    fault: ShapeFault::Unsettled,
                },
            ),
        }
    }
}

/// Merging into a fixed shape leaves it as it is.
pub proof fn lemma_merge_keeps_known(a: Seq<NodeDim>, b: Seq<NodeDim>)
    requires
        shape_is_known(a),
        shape_merge(a, b) is Some,
    ensures
        shape_merge(a, b) == Some(a),
{
    assert(shape_merge(a, b)->0 =~= a);
}

/// Whether every rule names only nodes among the first `n`.
pub open spec fn rules_in_range(rules: Seq<ShapeRule>, n: nat) -> bool {
    forall|o: int| 0 <= o < rules.len() ==> rule_in_range(#[trigger] rules[o], n)
}

/// A rule that applies leaves the number of shapes, and every fixed shape, as
/// they are.
pub proof fn lemma_rule_keeps_known(rule: ShapeRule, shapes: Seq<Seq<NodeDim>>, n: int)
    requires
        rule_in_range(rule, shapes.len()),
        rule_outcome(rule, shapes) is Ok,
        0 <= n < shapes.len(),
    ensures
        rule_outcome(rule, shapes)->Ok_0.len() == shapes.len(),
        shape_is_known(shapes[n]) ==> rule_outcome(rule, shapes)->Ok_0[n] == shapes[n],
{
    let after = rule_outcome(rule, shapes)->Ok_0;
    match rule {
        ShapeRule::Free => {},
        ShapeRule::Elementwise { input, output } => {
            if shape_is_known(shapes[n]) && n == output.index {
                lemma_merge_keeps_known(shapes[n], shapes[input.index as int]);
            }
        },
        ShapeRule::Repeat { input1, input2, output } => {
            if shape_is_known(shapes[n]) && n == output.index {
                let m = shape_merge(
                    loosened(shapes[input2.index as int]),
                    shapes[input1.index as int],
                )->0;
                lemma_merge_keeps_known(shapes[n], m);
            }
        },
        ShapeRule::Channels { input, output, channels } => {
            let given = shapes[input.index as int];
            let settled = shapes.update(input.index as int, shape_collapse(given));
            let out = settled[output.index as int];
            if shape_is_known(shapes[n]) {
                if n == input.index {
                    assert(shape_collapse(given) =~= given);
                }
                assert(settled[n] == shapes[n]);
                if n == output.index {
                    assert(out.last() is Known);
                    assert(out.update(out.len() - 1, out.last()) =~= out);
                }
            }
        },
    }
}

/// A sweep that meets no conflict leaves the number of shapes, and every
/// fixed shape, as they are.
pub proof fn lemma_sweep_keeps_known(
    rules: Seq<ShapeRule>,
    shapes: Seq<Seq<NodeDim>>,
    upto: int,
    n: int,
)
    requires
        rules_in_range(rules, shapes.len()),
        0 <= upto <= rules.len(),
        sweep_outcome(rules, shapes, upto) is Ok,
        0 <= n < shapes.len(),
    ensures
        sweep_outcome(rules, shapes, upto)->Ok_0.len() == shapes.len(),
        shape_is_known(shapes[n]) ==> sweep_outcome(rules, shapes, upto)->Ok_0[n] == shapes[n],
    decreases upto,
{
    if upto > 0 {
        lemma_sweep_keeps_known(rules, shapes, upto - 1, n);
        let before = sweep_outcome(rules, shapes, upto - 1)->Ok_0;
        lemma_rule_keeps_known(rules[upto - 1], before, n);
    }
}

/// Sweeps that meet no conflict leave the number of shapes, and every fixed
/// shape, as they are.
pub proof fn lemma_sweeps_keep_known(
    rules: Seq<ShapeRule>,
    shapes: Seq<Seq<NodeDim>>,
    k: nat,
    n: int,
)
    requires
        rules_in_range(rules, shapes.len()),
        sweeps_outcome(rules, shapes, k) is Ok,
        0 <= n < shapes.len(),
    ensures
        sweeps_outcome(rules, shapes, k)->Ok_0.len() == shapes.len(),
        shape_is_known(shapes[n]) ==> sweeps_outcome(rules, shapes, k)->Ok_0[n] == shapes[n],
    decreases k,
{
    if k > 0 {
        lemma_sweeps_keep_known(rules, shapes, (k - 1) as nat, n);
        let before = sweeps_outcome(rules, shapes, (k - 1) as nat)->Ok_0;
        lemma_sweep_keeps_known(rules, before, rules.len() as int, n);
    }
}

/// Where the input of a rule of channels has a fixed shape that does not hold
/// as many elements as the rule has channels, the shapes never resolve: no
/// number of sweeps reaches shapes on which every rule is without effect, so
/// that the resolution ends in a conflict.
pub proof fn lemma_mismatched_channels_never_resolve(
    rules: Seq<ShapeRule>,
    shapes: Seq<Seq<NodeDim>>,
    o: int,
    k: nat,
)
    requires
        rules_in_range(rules, shapes.len()),
        0 <= o < rules.len(),
        rules[o] matches ShapeRule::Channels { input, output, channels } && shape_is_known(
            shapes[input.index as int],
        ) && extents_product(shape_extents(shapes[input.index as int])) != channels,
    ensures
        sweeps_outcome(rules, shapes, k) matches Ok(reached) ==> !is_fixed_point(rules, reached),
{
    if sweeps_outcome(rules, shapes, k) is Ok {
        let reached = sweeps_outcome(rules, shapes, k)->Ok_0;
        match rules[o] {
            ShapeRule::Channels { input, output, channels } => {
                assert(rule_in_range(rules[o], shapes.len()));
                lemma_sweeps_keep_known(rules, shapes, k, input.index as int);
                assert(rule_outcome(rules[o], reached) is Err);
            },
            _ => {},
        }
    }
}

/// Where the input of a rule of channels has a fixed shape that does not hold
/// as many elements as the rule has channels, the resolution of the shapes
/// fails, however many sweeps it is allowed.
pub proof fn lemma_mismatched_channels_fail_resolution(
    rules: Seq<ShapeRule>,
    shapes: Seq<Seq<NodeDim>>,
    o: int,
    max_sweeps: nat,
)
    requires
        rules_in_range(rules, shapes.len()),
        0 <= o < rules.len(),
        rules[o] matches ShapeRule::Channels { input, output, channels } && shape_is_known(
            shapes[input.index as int],
        ) && extents_product(shape_extents(shapes[input.index as int])) != channels,
    ensures
        !resolves_within(rules, shapes, max_sweeps),
{
    assert forall|k: nat| k < max_sweeps implies !(#[trigger] sweeps_outcome(rules, shapes, k) matches Ok(
        s,
    ) && is_fixed_point(rules, s)) by {
        lemma_mismatched_channels_never_resolve(rules, shapes, o, k);
    }
}

/// Whether constraint `a` admits no extent that `b` does not admit.
pub open spec fn dim_refines(a: NodeDim, b: NodeDim) -> bool {
    forall|x: int| 0 <= x <= usize::MAX ==> (#[trigger] a.admits(x) ==> b.admits(x))
}

/// Whether shape `a` has the axes of `b` and admits, on each, no extent that
/// `b` does not admit.
pub open spec fn shape_refines(a: Seq<NodeDim>, b: Seq<NodeDim>) -> bool {
    &&& a.len() == b.len()
    &&& forall|i: int| 0 <= i < a.len() ==> dim_refines(#[trigger] a[i], b[i])
}

/// Whether each shape of `after` refines the shape of the same node in
/// `before`.
pub open spec fn table_refines(after: Seq<Seq<NodeDim>>, before: Seq<Seq<NodeDim>>) -> bool {
    &&& after.len() == before.len()
    &&& forall|n: int| 0 <= n < after.len() ==> shape_refines(#[trigger] after[n], before[n])
}

/// Whether every shape of a table is in its shortest form.
pub open spec fn table_wf(shapes: Seq<Seq<NodeDim>>) -> bool {
    forall|n: int| 0 <= n < shapes.len() ==> shape_wf(#[trigger] shapes[n])
}

/// A merge refines both of its sides, and is in its shortest form where they
/// are.
pub proof fn lemma_merge_refines(a: Seq<NodeDim>, b: Seq<NodeDim>)
    requires
        shape_merge(a, b) is Some,
    ensures
        shape_refines(shape_merge(a, b)->0, a),
        shape_refines(shape_merge(a, b)->0, b),
        shape_wf(a) && shape_wf(b) ==> shape_wf(shape_merge(a, b)->0),
{
    let m = shape_merge(a, b)->0;
    assert forall|i: int| 0 <= i < m.len() implies dim_refines(#[trigger] m[i], a[i]) && dim_refines(
        m[i],
        b[i],
    ) && (a[i].wf() && b[i].wf() ==> m[i].wf()) by {
        assert(a[i].merge_spec(b[i]) is Some);
        lemma_dim_merge_is_intersection(a[i], b[i]);
    }
}

/// A rule that applies only narrows the shapes: each shape after it refines
/// the shape before it, and shapes in their shortest form stay so.
pub proof fn lemma_rule_refines(rule: ShapeRule, shapes: Seq<Seq<NodeDim>>)
    requires
        rule_in_range(rule, shapes.len()),
        table_wf(shapes),
        rule_outcome(rule, shapes) is Ok,
    ensures
        table_refines(rule_outcome(rule, shapes)->Ok_0, shapes),
        table_wf(rule_outcome(rule, shapes)->Ok_0),
{
    let after = rule_outcome(rule, shapes)->Ok_0;
    match rule {
        ShapeRule::Free => {},
        ShapeRule::Elementwise { input, output } => {
            lemma_merge_refines(shapes[output.index as int], shapes[input.index as int]);
        },
        ShapeRule::Repeat { input1, input2, output } => {
            let loose = loosened(shapes[input2.index as int]);
            let m = shape_merge(loose, shapes[input1.index as int])->0;
            assert(shape_wf(loose)) by {
                assert forall|i: int| 0 <= i < loose.len() implies (#[trigger] loose[i]).wf() by {
                    assert(shapes[input2.index as int][i] is Known);
                }
            }
            lemma_merge_refines(loose, shapes[input1.index as int]);
            lemma_merge_refines(shapes[output.index as int], m);
        },
        ShapeRule::Channels { input, output, channels } => {
            let given = shapes[input.index as int];
            let collapsed = shape_collapse(given);
            let settled = shapes.update(input.index as int, collapsed);
            let out = settled[output.index as int];
            let d = out.last().merge_spec(NodeDim::Known(channels))->0;
            let narrowed = out.update(out.len() - 1, d);
            assert(shape_refines(collapsed, given) && shape_wf(collapsed)) by {
                assert forall|i: int| 0 <= i < collapsed.len() implies dim_refines(
                    #[trigger] collapsed[i],
                    given[i],
                ) by {
                    assert(given[i].wf());
                    assert(!(given[i] is Unknown));
                }
            }
            assert(table_refines(settled, shapes) && table_wf(settled));
            lemma_dim_merge_is_intersection(out.last(), NodeDim::Known(channels));
            assert(shape_refines(narrowed, out) && shape_wf(narrowed)) by {
                assert(out[out.len() - 1].wf());
                assert forall|i: int| 0 <= i < narrowed.len() implies dim_refines(
                    #[trigger] narrowed[i],
                    out[i],
                ) && narrowed[i].wf() by {
                    assert(out[i].wf());
                }
            }
            assert forall|n: int| 0 <= n < after.len() implies shape_refines(
                #[trigger] after[n],
                shapes[n],
            ) && shape_wf(after[n]) by {
                assert(shape_refines(settled[n], shapes[n]));
                assert(shape_wf(settled[n]));
                if n == output.index {
                    lemma_refines_transitive(narrowed, out, shapes[n]);
                }
            }
        },
    }
}

/// Refinement of shapes is transitive.
pub proof fn lemma_refines_transitive(a: Seq<NodeDim>, b: Seq<NodeDim>, c: Seq<NodeDim>)
    requires
        shape_refines(a, b),
        shape_refines(b, c),
    ensures
        shape_refines(a, c),
{
    assert forall|i: int| 0 <= i < a.len() implies dim_refines(#[trigger] a[i], c[i]) by {
        assert(dim_refines(a[i], b[i]));
        assert(dim_refines(b[i], c[i]));
        assert forall|x: int| 0 <= x <= usize::MAX && #[trigger] a[i].admits(x) implies c[i].admits(
            x,
        ) by {
            assert(b[i].admits(x));
        }
    }
}

/// The first rules of a sweep, where they apply, only narrow the shapes.
pub proof fn lemma_sweep_refines(rules: Seq<ShapeRule>, shapes: Seq<Seq<NodeDim>>, upto: int)
    requires
        rules_in_range(rules, shapes.len()),
        table_wf(shapes),
        0 <= upto <= rules.len(),
        sweep_outcome(rules, shapes, upto) is Ok,
    ensures
        table_refines(sweep_outcome(rules, shapes, upto)->Ok_0, shapes),
        table_wf(sweep_outcome(rules, shapes, upto)->Ok_0),
    decreases upto,
{
    if upto > 0 {
        lemma_sweep_refines(rules, shapes, upto - 1);
        let before = sweep_outcome(rules, shapes, upto - 1)->Ok_0;
        lemma_rule_refines(rules[upto - 1], before);
        let after = sweep_outcome(rules, shapes, upto)->Ok_0;
        assert forall|n: int| 0 <= n < after.len() implies shape_refines(
            #[trigger] after[n],
            shapes[n],
        ) by {
            lemma_refines_transitive(after[n], before[n], shapes[n]);
        }
    } else {
        assert forall|n: int| 0 <= n < shapes.len() implies shape_refines(
            #[trigger] shapes[n],
            shapes[n],
        ) by {
            assert forall|i: int| 0 <= i < shapes[n].len() implies dim_refines(
                #[trigger] shapes[n][i],
                shapes[n][i],
            ) by {}
        }
    }
}

/// Resolution only narrows: the shapes reached by any number of sweeps refine
/// the shapes that the nodes were given, node by node and axis by axis.
pub proof fn lemma_sweeps_refine(rules: Seq<ShapeRule>, shapes: Seq<Seq<NodeDim>>, k: nat)
    requires
        rules_in_range(rules, shapes.len()),
        table_wf(shapes),
        sweeps_outcome(rules, shapes, k) is Ok,
    ensures
        table_refines(sweeps_outcome(rules, shapes, k)->Ok_0, shapes),
        table_wf(sweeps_outcome(rules, shapes, k)->Ok_0),
    decreases k,
{
    if k > 0 {
        lemma_sweeps_refine(rules, shapes, (k - 1) as nat);
        let before = sweeps_outcome(rules, shapes, (k - 1) as nat)->Ok_0;
        lemma_sweep_refines(rules, before, rules.len() as int);
        let after = sweeps_outcome(rules, shapes, k)->Ok_0;
        assert forall|n: int| 0 <= n < after.len() implies shape_refines(
            #[trigger] after[n],
            shapes[n],
        ) by {
            lemma_refines_transitive(after[n], before[n], shapes[n]);
        }
    } else {
        lemma_sweep_refines(rules, shapes, 0);
    }
}

} // verus!
