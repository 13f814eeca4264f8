use alumina::error::Error;
use alumina::graph::{GraphDef, ShapeRule};
use alumina::id::{NodeID, OpID};
use alumina::ops::activ::tanh::Tanh;
use alumina::ops::broadcast::Broadcast;
use alumina::ops::math::mul::Mul;
use alumina::propagate::{apply_rule, rule_target, GraphShapes};
use alumina::shape::{NodeDim, NodeShape, ShapeFault};

fn open(rank: usize) -> NodeShape {
    NodeShape::new(vec![NodeDim::Unknown; rank]).unwrap()
}

#[test]
fn shapes_flow_along_a_chain_whatever_the_order_of_the_operations() {
    let mut g = GraphDef::new();
    let a = g.new_node(NodeShape::fixed(&[7, 5, 16]), "a", vec![]);
    let b = g.new_node(open(3), "b", vec![]);
    let c = g.new_node(open(3), "c", vec![]);
    let d = g.new_node(open(3), "d", vec![]);
    // registered against the flow: each sweep settles one more node
    g.new_op(Tanh::new(&c, &d), vec![]).unwrap();
    g.new_op(Tanh::new(&b, &c), vec![]).unwrap();
    g.new_op(Tanh::new(&a, &b), vec![]).unwrap();
    let shapes = g.resolve_shapes(8).unwrap();
    for node in [a, b, c, d] {
        assert_eq!(shapes.get_shape(&node).unwrap(), &NodeShape::fixed(&[7, 5, 16]));
    }
    assert_eq!(shapes.len(), 4);
    assert!(shapes.get_shape(&NodeID { index: 4 }).is_none());
}

#[test]
fn too_few_sweeps_are_reported_as_unsettled() {
    let mut g = GraphDef::new();
    let a = g.new_node(NodeShape::fixed(&[7, 5, 16]), "a", vec![]);
    let b = g.new_node(open(3), "b", vec![]);
    let c = g.new_node(open(3), "c", vec![]);
    g.new_op(Tanh::new(&b, &c), vec![]).unwrap();
    let last = g.new_op(Tanh::new(&a, &b), vec![]).unwrap();
    // sweep 1 settles b, sweep 2 settles c, sweep 3 finds nothing to change
    assert!(g.resolve_shapes(3).is_ok());
    assert_eq!(
        g.resolve_shapes(1).err(),
        Some(Error::ShapeConflict { node: b, op: Some(last), fault: ShapeFault::Unsettled })
    );
    assert!(matches!(
        g.resolve_shapes(2).err(),
        Some(Error::ShapeConflict { fault: ShapeFault::Unsettled, .. })
    ));
    assert!(matches!(
        g.resolve_shapes(0).err(),
        Some(Error::ShapeConflict { fault: ShapeFault::Unsettled, op: None, .. })
    ));
}

#[test]
fn conflicting_shapes_name_operation_and_node() {
    let mut g = GraphDef::new();
    let a = g.new_node(NodeShape::fixed(&[7, 5, 16]), "a", vec![]);
    let b = g.new_node(NodeShape::fixed(&[7, 5, 8]), "b", vec![]);
    let c = g.new_node(open(3), "c", vec![]);
    g.new_op(Tanh::new(&a, &c), vec![]).unwrap();
    let second = g.new_op(Tanh::new(&a, &b), vec![]).unwrap();
    assert_eq!(
        g.resolve_shapes(5).err(),
        Some(Error::ShapeConflict {
            node: b,
            op: Some(second),
            fault: ShapeFault::Incompatible { axis: 2 },
        })
    );
}

#[test]
fn mul_output_takes_shape_of_first_input() {
    let mut g = GraphDef::new();
    let a = g.new_node(NodeShape::fixed(&[7, 5, 16]), "input1", vec![]);
    let b = g.new_node(NodeShape::fixed(&[1, 1, 16]), "input2", vec![]);
    let out = g.new_node(open(3), "output", vec![]);
    g.new_op(Mul::new(&a, &b, &out), vec![]).unwrap();
    let shapes = g.resolve_shapes(4).unwrap();
    assert_eq!(shapes.get_shape(&out).unwrap(), &NodeShape::fixed(&[7, 5, 16]));
}

#[test]
fn mul_rule_conflicts() {
    let a = NodeID { index: 0 };
    let b = NodeID { index: 1 };
    let out = NodeID { index: 2 };
    let rule = ShapeRule::Repeat { input1: a, input2: b, output: out };
    let table = |first: NodeShape, second: NodeShape, third: NodeShape| {
        let mut g = GraphDef::new();
        g.new_node(first, "input1", vec![]);
        g.new_node(second, "input2", vec![]);
        g.new_node(third, "output", vec![]);
        GraphShapes::new(&g)
    };
    // the second input is not repeatable to the first
    let mut shapes = table(NodeShape::fixed(&[7, 5, 16]), NodeShape::fixed(&[1, 2, 16]), open(3));
    assert_eq!(
        apply_rule(&rule, None, &mut shapes),
        Err(Error::ShapeConflict { node: a, op: None, fault: ShapeFault::Incompatible { axis: 1 } })
    );
    // the second input is not fixed
    let mut shapes = table(NodeShape::fixed(&[7, 5, 16]), open(3), open(3));
    assert_eq!(
        apply_rule(&rule, None, &mut shapes),
        Err(Error::ShapeConflict { node: b, op: None, fault: ShapeFault::Unresolved { axis: 0 } })
    );
    // the output disagrees
    let mut shapes =
        table(NodeShape::fixed(&[7, 5, 16]), NodeShape::fixed(&[1, 1, 16]), NodeShape::fixed(&[7, 5]));
    assert_eq!(
        apply_rule(&rule, Some(OpID { index: 4 }), &mut shapes),
        Err(Error::ShapeConflict {
            node: out,
            op: Some(OpID { index: 4 }),
            fault: ShapeFault::RankMismatch { left: 2, right: 3 },
        })
    );
    assert_eq!(shapes.get_shape(&out).unwrap(), &NodeShape::fixed(&[7, 5]));
    // a second application changes nothing
    let mut shapes = table(NodeShape::fixed(&[7, 5, 16]), NodeShape::fixed(&[1, 1, 16]), open(3));
    assert_eq!(apply_rule(&rule, None, &mut shapes), Ok(true));
    assert_eq!(apply_rule(&rule, None, &mut shapes), Ok(false));
    assert_eq!(rule_target(&rule), Some(out));
    assert_eq!(rule_target(&ShapeRule::Free), None);
    assert_eq!(apply_rule(&ShapeRule::Free, None, &mut shapes), Ok(false));
}

#[test]
fn broadcast_settles_its_input_to_the_least_shape() {
    let mut g = GraphDef::new();
    let ranged = NodeShape::new(vec![NodeDim::Interval { lower: 7, upper: 9 }]).unwrap();
    let a = g.new_node(ranged, "in", vec![]);
    let out = g.new_node(NodeShape::fixed(&[13, 17, 7]), "out", vec![]);
    g.new_op(*Broadcast::new(&a, &out, "Broadcast"), vec![]).unwrap();
    let shapes = g.resolve_shapes(3).unwrap();
    assert_eq!(shapes.get_shape(&a).unwrap(), &NodeShape::fixed(&[7]));
    assert_eq!(shapes.get_shape(&out).unwrap(), &NodeShape::fixed(&[13, 17, 7]));
}

#[test]
fn broadcast_with_mismatched_channels_fails_propagation() {
    let mut g = GraphDef::new();
    let a = g.new_node(NodeShape::fixed(&[8]), "in", vec![]);
    let out = g.new_node(NodeShape::fixed(&[13, 17, 7]), "out", vec![]);
    let op = g.new_op(*Broadcast::new(&a, &out, "Broadcast"), vec![]).unwrap();
    assert_eq!(
        g.resolve_shapes(3).err(),
        Some(Error::ShapeConflict {
            node: a,
            op: Some(op),
            fault: ShapeFault::SizeMismatch { expected: 7, found: 8 },
        })
    );
}

#[test]
fn broadcast_cannot_settle_an_unconstrained_input() {
    let mut g = GraphDef::new();
    let a = g.new_node(open(1), "in", vec![]);
    let out = g.new_node(NodeShape::fixed(&[13, 17, 7]), "out", vec![]);
    let id = OpID { index: 0 };
    let inst = (*Broadcast::new(&a, &out, "Broadcast")).instance(&mut g, &id).unwrap();
    let mut shapes = GraphShapes::new(&g);
    assert_eq!(
        inst.propagate_shape_constraints(&mut shapes),
        Err(Error::ShapeConflict {
            node: a,
            op: Some(id),
            fault: ShapeFault::Unconstrained { axis: 0 },
        })
    );
    assert_eq!(shapes.get_shape(&a).unwrap(), &open(1));
}

#[test]
fn merge_with_reports_change() {
    let mut g = GraphDef::new();
    let a = g.new_node(open(2), "a", vec![]);
    let mut shapes = GraphShapes::new(&g);
    assert_eq!(shapes.merge_with(&a, &NodeShape::fixed(&[3, 4])), Ok(true));
    assert_eq!(shapes.merge_with(&a, &NodeShape::fixed(&[3, 4])), Ok(false));
    assert_eq!(
        shapes.merge_with(&a, &NodeShape::fixed(&[3, 5])),
        Err(ShapeFault::Incompatible { axis: 1 })
    );
    assert_eq!(shapes.get_shape(&a).unwrap(), &NodeShape::fixed(&[3, 4]));
    shapes.set_shape(&a, NodeShape::fixed(&[1]));
    assert_eq!(shapes.get_shape(&a).unwrap(), &NodeShape::fixed(&[1]));
}

#[test]
fn instances_propagate_their_own_rule() {
    let mut g = GraphDef::new();
    let a = g.new_node(NodeShape::fixed(&[7, 5, 16]), "input1", vec![]);
    let b = g.new_node(NodeShape::fixed(&[1, 1, 16]), "input2", vec![]);
    let out = g.new_node(open(3), "output", vec![]);
    let inst = Mul::new(&a, &b, &out).instance(&mut g, &OpID { index: 0 }).unwrap();
    let mut shapes = GraphShapes::new(&g);
    assert_eq!(inst.propagate_shape_constraints(&mut shapes), Ok(()));
    assert_eq!(shapes.get_shape(&out).unwrap(), &NodeShape::fixed(&[7, 5, 16]));
    // a table that does not hold the nodes
    let mut small = GraphShapes::new(&GraphDef::new());
    assert_eq!(
        inst.propagate_shape_constraints(&mut small),
        Err(Error::UnknownNode { node: a })
    );
}

#[test]
fn every_way_a_channel_rule_fails_names_node_operation_and_fault() {
    let id = OpID { index: 3 };
    let attempt = |input: NodeShape, output: NodeShape, channels: usize| {
        let mut g = GraphDef::new();
        let a = g.new_node(input, "in", vec![]);
        let out = g.new_node(output, "out", vec![]);
        let inst = alumina::ops::channels::BroadcastInstance {
            name: "b".to_string(),
            op_id: id,
            input_id: a,
            output_id: out,
            output_channels: channels,
            forward_id: alumina::id::PassID { index: 0 },
            backward_id: alumina::id::PassID { index: 1 },
        };
        let mut shapes = GraphShapes::new(&g);
        let before: Vec<NodeShape> =
            [a, out].iter().map(|n| shapes.get_shape(n).unwrap().clone()).collect();
        let outcome = inst.propagate_shape_constraints(&mut shapes);
        if outcome.is_err() {
            // no shape is altered to make the sizes agree
            assert_eq!(shapes.get_shape(&a).unwrap(), &before[0]);
            assert_eq!(shapes.get_shape(&out).unwrap(), &before[1]);
        }
        outcome
    };
    let conflict = |index: usize, fault: ShapeFault| {
        Err(Error::ShapeConflict { node: NodeID { index }, op: Some(id), fault })
    };
    // the input cannot be settled
    let half_open =
        NodeShape::new(vec![NodeDim::Interval { lower: 2, upper: 4 }, NodeDim::Unknown]).unwrap();
    assert_eq!(
        attempt(half_open, NodeShape::fixed(&[13, 7]), 7),
        conflict(0, ShapeFault::Unconstrained { axis: 1 })
    );
    // the input holds too few, too many, or uncountably many elements
    assert_eq!(
        attempt(NodeShape::fixed(&[2, 3]), NodeShape::fixed(&[13, 7]), 7),
        conflict(0, ShapeFault::SizeMismatch { expected: 7, found: 6 })
    );
    assert_eq!(
        attempt(NodeShape::fixed(&[2, 4]), NodeShape::fixed(&[13, 7]), 7),
        conflict(0, ShapeFault::SizeMismatch { expected: 7, found: 8 })
    );
    assert_eq!(
        attempt(NodeShape::fixed(&[usize::MAX, 2]), NodeShape::fixed(&[13, 7]), 7),
        conflict(0, ShapeFault::TooLarge)
    );
    // the output's channels have changed, or it has no axis
    assert_eq!(
        attempt(NodeShape::fixed(&[7]), NodeShape::fixed(&[13, 8]), 7),
        conflict(1, ShapeFault::Incompatible { axis: 1 })
    );
    assert_eq!(
        attempt(NodeShape::fixed(&[]), NodeShape::fixed(&[]), 1),
        conflict(1, ShapeFault::RankMismatch { left: 0, right: 1 })
    );
    // and where all agree, the input is settled to its least shape
    let ranged = NodeShape::new(vec![NodeDim::Interval { lower: 7, upper: 9 }]).unwrap();
    assert_eq!(attempt(ranged, NodeShape::new(vec![NodeDim::Unknown; 2]).unwrap(), 7), Ok(()));
}

#[test]
fn instance_conflicts_name_their_operation() {
    let mut g = GraphDef::new();
    let a = g.new_node(NodeShape::fixed(&[7, 5, 16]), "input1", vec![]);
    let b = g.new_node(NodeShape::fixed(&[1, 2, 16]), "input2", vec![]);
    let out = g.new_node(open(3), "output", vec![]);
    let id = OpID { index: 0 };
    let inst = Mul::new(&a, &b, &out).instance(&mut g, &id).unwrap();
    let mut shapes = GraphShapes::new(&g);
    assert_eq!(
        inst.propagate_shape_constraints(&mut shapes),
        Err(Error::ShapeConflict {
            node: a,
            op: Some(id),
            fault: ShapeFault::Incompatible { axis: 1 },
        })
    );
}

#[test]
fn unsettled_names_the_last_operation_that_changed_a_shape() {
    let mut g = GraphDef::new();
    let a = g.new_node(NodeShape::fixed(&[7, 5, 16]), "a", vec![]);
    let b = g.new_node(open(3), "b", vec![]);
    let c = g.new_node(open(3), "c", vec![]);
    let d = g.new_node(open(3), "d", vec![]);
    let to_d = g.new_op(Tanh::new(&c, &d), vec![]).unwrap();
    let to_c = g.new_op(Tanh::new(&b, &c), vec![]).unwrap();
    let to_b = g.new_op(Tanh::new(&a, &b), vec![]).unwrap();
    let unsettled = |node: NodeID, op: OpID| {
        Some(Error::ShapeConflict { node, op: Some(op), fault: ShapeFault::Unsettled })
    };
    // sweep 1 settles b, sweep 2 c, sweep 3 d, sweep 4 changes nothing
    assert_eq!(g.resolve_shapes(1).err(), unsettled(b, to_b));
    assert_eq!(g.resolve_shapes(2).err(), unsettled(c, to_c));
    assert_eq!(g.resolve_shapes(3).err(), unsettled(d, to_d));
    assert!(g.resolve_shapes(4).is_ok());
    assert_eq!(
        g.resolve_shapes(0).err(),
        Some(Error::ShapeConflict {
            node: NodeID { index: 0 },
            op: None,
            fault: ShapeFault::Unsettled,
        })
    );
}
