use alumina::error::Error;
use alumina::graph::{first_foreign, GraphDef, NodeTag, Op, OpTag, PassRecord, ShapeRule};
use alumina::id::{NodeID, OpID, PassID};
use alumina::ops::activ::elementwise::{elementwise_backward, elementwise_forward, pass_name};
use alumina::ops::activ::tanh::Tanh;
use alumina::ops::broadcast::{Broadcast, BroadcastInstance};
use alumina::ops::loss::mse::Mse;
use alumina::ops::loss::LossType;
use alumina::ops::math::mul::{Mul, MulBackward, MulForward};
use alumina::ops::math::repeat::{can_broadcast, source_index, RepeatMap};
use alumina::ops::standard_op_name;
use alumina::shape::{NodeDim, NodeShape, ShapeFault};

fn pass_id() -> PassID {
    PassID { index: 0 }
}

#[test]
fn new_graph_is_empty() {
    let g = GraphDef::new();
    assert_eq!(g.node_count(), 0);
    assert_eq!(g.pass_count(), 0);
    assert_eq!(g.op_count(), 0);
    assert!(g.get_nodes().is_empty());
    assert!(g.node(&NodeID { index: 0 }).is_none());
}

#[test]
fn nodes_get_consecutive_handles() {
    let mut g = GraphDef::new();
    let a = g.new_node(NodeShape::fixed(&[7, 5, 16]), "input", vec![NodeTag::Input]);
    let b = g.new_node(NodeShape::fixed(&[16]), "weights", vec![NodeTag::Parameter]);
    assert_eq!(a, NodeID { index: 0 });
    assert_eq!(b, NodeID { index: 1 });
    assert_eq!(g.get_nodes(), vec![a, b]);
    let node = g.node(&b).unwrap();
    assert_eq!(node.name, "weights");
    assert_eq!(node.tags, vec![NodeTag::Parameter]);
    assert_eq!(node.shape, NodeShape::fixed(&[16]));
    assert!(g.node(&NodeID { index: 2 }).is_none());
}

#[test]
fn add_pass_refuses_foreign_nodes() {
    let mut g = GraphDef::new();
    let a = g.new_node(NodeShape::fixed(&[2]), "a", vec![]);
    let foreign = NodeID { index: 5 };
    let bad = PassRecord {
        name: "bad".to_string(),
        reads: vec![a.value_id()],
        writes: vec![foreign.value_id()],
    };
    assert_eq!(g.add_pass(bad), Err(Error::UnknownNode { node: foreign }));
    assert_eq!(g.pass_count(), 0);
    let good = PassRecord {
        name: "good".to_string(),
        reads: vec![a.value_id()],
        writes: vec![a.gradient_id()],
    };
    assert_eq!(g.add_pass(good), Ok(PassID { index: 0 }));
    assert_eq!(g.pass(&PassID { index: 0 }).unwrap().name, "good");
    assert_eq!(first_foreign(&vec![a.value_id(), foreign.gradient_id()], 1), Some(foreign));
    assert_eq!(first_foreign(&vec![a.value_id()], 1), None);
}

#[test]
fn mul_registers_forward_then_backward() {
    let mut g = GraphDef::new();
    let a = g.new_node(NodeShape::fixed(&[7, 5, 16]), "input1", vec![]);
    let b = g.new_node(NodeShape::fixed(&[1, 1, 16]), "input2", vec![]);
    let out = g.new_node(NodeShape::fixed(&[7, 5, 16]), "output", vec![]);
    let id = g.new_op(Mul::new(&a, &b, &out), vec![OpTag::Label(3)]).unwrap();
    assert_eq!(id, OpID { index: 0 });
    assert_eq!(g.pass_count(), 2);
    let op = g.op(&id).unwrap();
    assert_eq!(op.name, "Mul(input1,input2=>output)");
    assert_eq!(op.tags, vec![OpTag::Label(3)]);
    assert_eq!(op.inputs, vec![a, b]);
    assert_eq!(op.outputs, vec![out]);
    assert_eq!(op.passes, vec![PassID { index: 0 }, PassID { index: 1 }]);
    assert_eq!(op.rule, ShapeRule::Repeat { input1: a, input2: b, output: out });
    let forward = g.pass(&PassID { index: 0 }).unwrap();
    assert_eq!(forward.name, "MulForward");
    assert_eq!(forward.reads, vec![a.value_id(), b.value_id()]);
    assert_eq!(forward.writes, vec![out.value_id()]);
    let backward = g.pass(&PassID { index: 1 }).unwrap();
    assert_eq!(backward.name, "MulBackward");
    assert_eq!(backward.reads, vec![a.value_id(), b.value_id(), out.gradient_id()]);
    assert_eq!(backward.writes, vec![a.gradient_id(), b.gradient_id()]);
    assert_eq!(MulForward::new(a, b, out).dependencies(), (forward.reads.clone(), forward.writes.clone()));
    assert_eq!(MulBackward::new(a, b, out).dependencies(), (backward.reads.clone(), backward.writes.clone()));
    assert_eq!(MulForward::new(a, b, out).kind_name(), "MulForward");
    assert_eq!(MulBackward::new(a, b, out).kind_name(), "MulBackward");
}

#[test]
fn mul_instance_describes_the_operation() {
    let mut g = GraphDef::new();
    let a = g.new_node(NodeShape::fixed(&[7, 5, 16]), "input1", vec![]);
    let b = g.new_node(NodeShape::fixed(&[1, 1, 16]), "input2", vec![]);
    let out = g.new_node(NodeShape::fixed(&[7, 5, 16]), "output", vec![]);
    let inst = Mul::new(&a, &b, &out).name("product").instance(&mut g, &OpID { index: 0 }).unwrap();
    assert_eq!(inst.op_id, OpID { index: 0 });
    assert_eq!(inst.name(), "product");
    assert_eq!(inst.dependencies(), (vec![a, b], vec![out]));
    assert_eq!(inst.inner_passes(), vec![PassID { index: 0 }, PassID { index: 1 }]);
    assert!(inst.inner_ops().is_empty());
    assert!(inst.inner_nodes().is_empty());
    assert_eq!(inst.rule(), ShapeRule::Repeat { input1: a, input2: b, output: out });
}

#[test]
fn operation_on_foreign_node_leaves_graph_unchanged() {
    let mut g = GraphDef::new();
    let a = g.new_node(NodeShape::fixed(&[2]), "a", vec![]);
    let foreign = NodeID { index: 9 };
    assert_eq!(
        g.new_op(Mul::new(&a, &foreign, &a), vec![]),
        Err(Error::UnknownNode { node: foreign })
    );
    assert_eq!(g.new_op(Tanh::new(&foreign, &a), vec![]), Err(Error::UnknownNode { node: foreign }));
    assert_eq!(g.new_op(Mse::new(&a, &foreign), vec![]), Err(Error::UnknownNode { node: foreign }));
    assert_eq!(
        g.new_op(*Broadcast::new(&a, &foreign, "b"), vec![]),
        Err(Error::UnknownNode { node: foreign })
    );
    assert_eq!(g.pass_count(), 0);
    assert_eq!(g.op_count(), 0);
}

#[test]
fn tanh_backward_reads_the_input_value() {
    let mut g = GraphDef::new();
    let x = g.new_node(NodeShape::fixed(&[7, 5, 16]), "input", vec![]);
    let y = g.new_node(NodeShape::fixed(&[7, 5, 16]), "output", vec![]);
    let inst = Tanh::new(&x, &y).instance(&mut g).unwrap();
    assert!(inst.reads_input_value);
    assert_eq!(inst.name(), "Tanh(input=>output)");
    let forward = g.pass(&inst.forward_id).unwrap();
    assert_eq!(forward.name, "TanhForward");
    assert_eq!(forward.reads, vec![x.value_id()]);
    assert_eq!(forward.writes, vec![y.value_id()]);
    let backward = g.pass(&inst.backward_id).unwrap();
    assert_eq!(backward.name, "TanhBackward");
    assert_eq!(backward.reads, vec![x.value_id(), y.gradient_id()]);
    assert_eq!(backward.writes, vec![x.gradient_id()]);
    // a function whose gradient does not need the input reads the output's gradient only
    assert_eq!(elementwise_backward("Relu", x, y, false).reads, vec![y.gradient_id()]);
    assert_eq!(elementwise_forward("Relu", x, y).name, "ReluForward");
    assert_eq!(pass_name("Relu", "Backward"), "ReluBackward");
}

#[test]
fn mse_is_a_joint_loss() {
    let mut g = GraphDef::new();
    let y = g.new_node(NodeShape::fixed(&[4]), "output", vec![]);
    let t = g.new_node(NodeShape::fixed(&[4]), "target", vec![]);
    let inst = Mse::new(&y, &t).instance(&mut g).unwrap();
    assert_eq!(inst.loss_type(), LossType::Joint { pass_id: PassID { index: 0 } });
    assert_eq!(inst.loss_type().passes(), vec![PassID { index: 0 }]);
    let both = LossType::Output {
        output_id: y,
        forward_id: PassID { index: 3 },
        backward_id: PassID { index: 4 },
    };
    assert_eq!(both.passes(), vec![PassID { index: 3 }, PassID { index: 4 }]);
    let p = g.pass(&inst.pass_id).unwrap();
    assert_eq!(p.reads, vec![y.value_id(), t.value_id()]);
    assert_eq!(p.writes, vec![y.gradient_id(), t.gradient_id()]);
}

#[test]
fn broadcast_takes_channels_from_the_output() {
    let mut g = GraphDef::new();
    let a = g.new_node(NodeShape::fixed(&[7]), "in", vec![]);
    let out = g.new_node(NodeShape::fixed(&[13, 17, 7]), "out", vec![]);
    let op = Broadcast::new(&a, &out, "Broadcast");
    assert_eq!(op.name(), "Broadcast");
    assert_eq!(op.input_node_IDs(), vec![a]);
    assert_eq!(op.output_node_IDs(), vec![out]);
    assert_eq!(op.num_params(), 0);
    let inst = (*op).instance(&mut g, &OpID { index: 5 }).unwrap();
    assert_eq!(inst.op_id, OpID { index: 5 });
    assert_eq!(inst.output_channels, 7);
    assert_eq!(inst.rule(), ShapeRule::Channels { input: a, output: out, channels: 7 });
    assert_eq!(inst.source_index(0), Some(0));
    assert_eq!(inst.source_index(6), Some(6));
    assert_eq!(inst.source_index(7), Some(0));
    assert_eq!(inst.source_index(7 * 17 + 3), Some(3));
    let empty = BroadcastInstance { output_channels: 0, ..inst.clone() };
    assert_eq!(empty.source_index(3), None);
    assert_eq!(empty.prepare(pass_id(), a.value_id(), out.value_id(), 0, 0), Ok(()));
    assert!(empty.prepare(pass_id(), a.value_id(), out.value_id(), 0, 4).is_err());
    let pass = PassID { index: 0 };
    assert_eq!(inst.prepare(pass, a.value_id(), out.value_id(), 7, 13 * 17 * 7), Ok(()));
    assert!(inst.prepare(pass, a.value_id(), out.value_id(), 8, 13 * 17 * 7).is_err());
    assert!(inst.prepare(pass, a.value_id(), out.value_id(), 7, 13 * 17 * 7 + 1).is_err());
}

#[test]
fn broadcast_needs_a_fixed_channel_axis() {
    let mut g = GraphDef::new();
    let a = g.new_node(NodeShape::fixed(&[7]), "in", vec![]);
    let open = g.new_node(
        NodeShape::new(vec![NodeDim::Known(13), NodeDim::Unknown]).unwrap(),
        "open",
        vec![],
    );
    let scalar = g.new_node(NodeShape::fixed(&[]), "scalar", vec![]);
    assert_eq!(
        g.new_op(*Broadcast::new(&a, &open, "b"), vec![]),
        Err(Error::ShapeConflict {
            node: open,
            op: Some(OpID { index: 0 }),
            fault: ShapeFault::Unresolved { axis: 1 },
        })
    );
    assert_eq!(
        g.new_op(*Broadcast::new(&a, &scalar, "b"), vec![]),
        Err(Error::ShapeConflict {
            node: scalar,
            op: Some(OpID { index: 0 }),
            fault: ShapeFault::RankMismatch { left: 0, right: 1 },
        })
    );
    assert_eq!(g.pass_count(), 0);
}

#[test]
fn standard_names() {
    let mut g = GraphDef::new();
    let a = g.new_node(NodeShape::fixed(&[2]), "a", vec![]);
    let b = g.new_node(NodeShape::fixed(&[2]), "b", vec![]);
    let c = g.new_node(NodeShape::fixed(&[2]), "c", vec![]);
    assert_eq!(standard_op_name("Mul", &None, &g, &[a, b], &[c]), "Mul(a,b=>c)");
    assert_eq!(standard_op_name("Mse", &None, &g, &[a, b], &[]), "Mse(a,b=>)");
    assert_eq!(standard_op_name("Const", &None, &g, &[], &[c]), "Const(=>c)");
    assert_eq!(standard_op_name("Mul", &Some("mine".to_string()), &g, &[a, b], &[c]), "mine");
    assert_eq!(standard_op_name("Id", &None, &g, &[NodeID { index: 8 }], &[a, b, c]), "Id(=>a,b,c)");
}

#[test]
fn repetition_follows_the_innermost_axes() {
    assert!(can_broadcast(&[1, 1, 16], &[7, 5, 16]));
    assert!(can_broadcast(&[16], &[7, 5, 16]));
    assert!(can_broadcast(&[5, 1], &[7, 5, 16]));
    assert!(can_broadcast(&[], &[7, 5, 16]));
    assert!(can_broadcast(&[7, 5, 16], &[7, 5, 16]));
    assert!(!can_broadcast(&[1, 2, 16], &[7, 5, 16]));
    assert!(!can_broadcast(&[1, 7, 5, 16], &[7, 5, 16]));
    assert!(!can_broadcast(&[7], &[7, 5, 16]));
}

#[test]
fn source_index_drops_repeated_coordinates() {
    // position (6, 4, 15) of a [7, 5, 16] tensor
    let last = 6 * 80 + 4 * 16 + 15;
    assert_eq!(source_index(&[1, 1, 16], &[7, 5, 16], last), 15);
    assert_eq!(source_index(&[16], &[7, 5, 16], last), 15);
    assert_eq!(source_index(&[7, 5, 16], &[7, 5, 16], last), last);
    assert_eq!(source_index(&[5, 1], &[7, 5, 16], last), 4);
    assert_eq!(source_index(&[7, 1, 16], &[7, 5, 16], last), 6 * 16 + 15);
    assert_eq!(source_index(&[], &[7, 5, 16], last), 0);
    assert_eq!(source_index(&[1, 3], &[2, 3], 4), 1);
    assert_eq!(source_index(&[1, 1, 16], &[7, 5, 16], 0), 0);
}

#[test]
fn repeat_map_checks_once() {
    let map = RepeatMap::new(&[1, 1, 16], &[7, 5, 16]).unwrap();
    assert_eq!(map.len(), 560);
    assert_eq!(map.source(0), Some(0));
    assert_eq!(map.source(17), Some(1));
    assert_eq!(map.source(559), Some(15));
    assert_eq!(map.source(560), None);
    assert!(RepeatMap::new(&[1, 2, 16], &[7, 5, 16]).is_none());
    assert!(RepeatMap::new(&[1], &[usize::MAX, 2]).is_none());
    // an empty repetition of a tensor that is too large to exist
    assert!(RepeatMap::new(&[usize::MAX, 2], &[0, usize::MAX, 2]).is_none());
    let empty = RepeatMap::new(&[3], &[0, 3]).unwrap();
    assert_eq!(empty.len(), 0);
    assert_eq!(empty.source(0), None);
}

#[test]
fn operations_name_their_kind() {
    let a = NodeID { index: 0 };
    let b = NodeID { index: 1 };
    assert_eq!(Op::kind_name(&Mul::new(&a, &b, &a)), "Mul");
    assert_eq!(Op::kind_name(&Tanh::new(&a, &b)), "Tanh");
    assert_eq!(Op::kind_name(&Mse::new(&a, &b)), "Mse");
    assert_eq!(Op::kind_name(&*Broadcast::new(&a, &b, "b")), "Broadcast");
}

#[test]
fn built_in_operations_are_made_of_nothing_else() {
    let mut g = GraphDef::new();
    let a = g.new_node(NodeShape::fixed(&[7]), "a", vec![]);
    let b = g.new_node(NodeShape::fixed(&[7]), "b", vec![]);
    let c = g.new_node(NodeShape::fixed(&[13, 7]), "c", vec![]);
    let ids = [
        g.new_op(Mul::new(&a, &b, &a), vec![]).unwrap(),
        g.new_op(Tanh::new(&a, &b), vec![]).unwrap(),
        g.new_op(Mse::new(&a, &b), vec![]).unwrap(),
        g.new_op(*Broadcast::new(&a, &c, "spread"), vec![]).unwrap(),
    ];
    for (at, id) in ids.iter().enumerate() {
        assert_eq!(id.index, at);
        let op = g.op(id).unwrap();
        assert!(op.inner_ops.is_empty());
        assert!(op.inner_nodes.is_empty());
    }
    assert_eq!(g.op(&ids[3]).unwrap().name, "spread");
    assert_eq!(g.pass_count(), 7);
}
